use git2::{Commit, Oid, Repository, Signature, Time};
use last_commit::resolver::Resolver;
use last_commit::{GitCommit, ResolveError, WalkEnd};

fn fresh_repo(name: &str) -> Repository {
    Repository::init_bare(format!("/tmp/last_commit_tests/{}", name)).unwrap()
}

fn make_commit(repo: &Repository, files: &[(&str, &str)], parents: &[Oid], msg: &str, t: i64) -> Oid {
    let mut tb = repo.treebuilder(None).unwrap();
    for (name, content) in files {
        let blob = repo.blob(content.as_bytes()).unwrap();
        tb.insert(name, blob, 0o100644).unwrap();
    }
    let tree = repo.find_tree(tb.write().unwrap()).unwrap();
    let sig = Signature::new("Author", "author@example.com", &Time::new(t, 120)).unwrap();
    let parents: Vec<Commit> = parents.iter().map(|p| repo.find_commit(*p).unwrap()).collect();
    let refs: Vec<&Commit> = parents.iter().collect();
    repo.commit(None, &sig, &sig, msg, &tree, &refs).unwrap()
}

fn paths(ps: &[&str]) -> Vec<String> {
    ps.iter().map(|p| p.to_string()).collect()
}

fn sha_of(r: &Resolver, i: usize) -> Option<String> {
    r.commit_of(i).map(|c| c.sha.clone())
}

fn linear(repo: &Repository) -> (Oid, Oid, Oid, Oid) {
    let root = make_commit(repo, &[("README", "hello")], &[], "root", 1000);
    let c1 = make_commit(repo, &[("README", "hello"), ("a.txt", "a1")], &[root], "add a", 2000);
    let c2 = make_commit(repo, &[("README", "hello"), ("a.txt", "a1"), ("b.txt", "b1")], &[c1], "add b", 3000);
    let c3 = make_commit(repo, &[("README", "hello"), ("a.txt", "a2"), ("b.txt", "b1")], &[c2], "change a", 4000);
    (root, c1, c2, c3)
}

#[test]
fn linear_history_in_repository() {
    let repo = fresh_repo("linear");
    let (_, _, c2, c3) = linear(&repo);
    let (r, outcome, _) = GitCommit::from_revision(&c3.to_string()).resolve(&repo, &paths(&["a.txt", "b.txt"]));
    assert!(outcome.is_ok());
    assert_eq!(sha_of(&r, 0), Some(c3.to_string()));
    assert_eq!(sha_of(&r, 1), Some(c2.to_string()));
    let a = r.commit_of(0).unwrap();
    assert_eq!(a.summary, "change a");
    assert_eq!(a.time.seconds, 4000);
    assert_eq!(a.time.offset_minutes, 120);
}

#[test]
fn root_commit_in_repository() {
    let repo = fresh_repo("root");
    let (root, _, _, c3) = linear(&repo);
    let (r, outcome, _) = GitCommit::from_revision(&c3.to_string()).resolve(&repo, &paths(&["README"]));
    assert!(outcome.is_ok());
    assert_eq!(sha_of(&r, 0), Some(root.to_string()));
}

#[test]
fn merge_in_repository() {
    let repo = fresh_repo("merge");
    let root = make_commit(&repo, &[("a.txt", "1")], &[], "root", 1000);
    let x = make_commit(&repo, &[("a.txt", "2")], &[root], "change a", 2000);
    let y = make_commit(&repo, &[("a.txt", "1"), ("b.txt", "1")], &[root], "add b", 3000);
    let m = make_commit(&repo, &[("a.txt", "2"), ("b.txt", "1")], &[y, x], "merge", 4000);
    let (r, outcome, _) = GitCommit::from_revision(&m.to_string()).resolve(&repo, &paths(&["a.txt", "b.txt"]));
    assert!(outcome.is_ok());
    assert_eq!(sha_of(&r, 0), Some(x.to_string()));
    assert_eq!(sha_of(&r, 1), Some(y.to_string()));
}

#[test]
fn shared_commit_in_repository() {
    let repo = fresh_repo("shared");
    let root = make_commit(&repo, &[("a.txt", "1"), ("b.txt", "1")], &[], "root", 1000);
    let c1 = make_commit(&repo, &[("a.txt", "2"), ("b.txt", "2")], &[root], "both", 2000);
    let (r, outcome, _) = GitCommit::from_revision(&c1.to_string()).resolve(&repo, &paths(&["a.txt", "b.txt"]));
    assert!(outcome.is_ok());
    assert_eq!(r.slot_of(0), r.slot_of(1));
    assert_eq!(r.n_cached(), 1);
    assert!(std::ptr::eq(r.commit_of(0).unwrap(), r.commit_of(1).unwrap()));
}

#[test]
fn missing_path_in_repository() {
    let repo = fresh_repo("missing");
    let (_, _, _, c3) = linear(&repo);
    let (r, outcome, _) = GitCommit::from_revision(&c3.to_string()).resolve(&repo, &paths(&["a.txt", "nowhere.txt"]));
    assert!(outcome.is_ok());
    assert_eq!(sha_of(&r, 0), Some(c3.to_string()));
    assert_eq!(sha_of(&r, 1), None);
}

#[test]
fn repeated_resolve_gives_same_values() {
    let repo = fresh_repo("repeat");
    let (_, _, _, c3) = linear(&repo);
    let g = GitCommit::from_revision(&c3.to_string());
    let ps = paths(&["a.txt", "b.txt", "README"]);
    let (r1, o1, _) = g.resolve(&repo, &ps);
    let (r2, o2, _) = g.resolve(&repo, &ps);
    assert!(o1.is_ok() && o2.is_ok());
    for i in 0..3 {
        let a = r1.commit_of(i).unwrap();
        let b = r2.commit_of(i).unwrap();
        assert_eq!(a.sha, b.sha);
        assert_eq!(a.summary, b.summary);
        assert_eq!(a.time, b.time);
    }
}

#[test]
fn no_repository_is_soft() {
    let g = GitCommit::from_head();
    let (r, outcome, _) = g.resolve_at("/nonexistent/last_commit/location", &paths(&["a.txt"]));
    assert!(matches!(outcome, Ok(WalkEnd::NoRepository(_))));
    assert_eq!(r.len(), 1);
    assert!(r.commit_of(0).is_none());
}

#[test]
fn bad_revision_is_an_error() {
    let repo = fresh_repo("badrev");
    linear(&repo);
    let (r, outcome, _) = GitCommit::from_revision("no-such-branch").resolve(&repo, &paths(&["a.txt"]));
    assert!(matches!(outcome, Err(ResolveError::BadRevision(_))));
    assert!(r.commit_of(0).is_none());
}

#[test]
fn older_corrupt_history_is_not_read() {
    let repo = fresh_repo("corrupt_tree");
    // the oldest commit names a tree that the repository does not hold
    let raw = format!(
        "tree {}\nauthor A <a@example.com> 1000 +0000\ncommitter A <a@example.com> 1000 +0000\n\noldest\n",
        "1111111111111111111111111111111111111111"
    );
    let oldest = repo.odb().unwrap().write(git2::ObjectType::Commit, raw.as_bytes()).unwrap();
    let middle = make_commit(&repo, &[("a.txt", "1")], &[oldest], "middle", 2000);
    let newest = make_commit(&repo, &[("a.txt", "2")], &[middle], "newest", 3000);
    let g = GitCommit::from_revision(&newest.to_string());
    let (r, outcome, _) = g.resolve(&repo, &paths(&["a.txt"]));
    assert!(matches!(outcome, Ok(WalkEnd::Finished)));
    assert_eq!(sha_of(&r, 0), Some(newest.to_string()));
    let (r2, deeper, _) = g.resolve(&repo, &paths(&["a.txt", "b.txt"]));
    assert!(matches!(deeper, Err(ResolveError::Walk(_))));
    assert_eq!(sha_of(&r2, 0), Some(newest.to_string()));
}

#[test]
fn no_paths_resolves_nothing() {
    let repo = fresh_repo("nopaths");
    let (_, _, _, c3) = linear(&repo);
    let (r, outcome, _) = GitCommit::from_revision(&c3.to_string()).resolve(&repo, &Vec::new());
    assert!(outcome.is_ok());
    assert_eq!(r.len(), 0);
    assert_eq!(r.n_cached(), 0);
}

#[test]
fn children_come_before_older_parents() {
    // the child carries an older time than its parent; the walk still
    // visits the child first
    let repo = fresh_repo("skew");
    let root = make_commit(&repo, &[("a.txt", "1")], &[], "root", 1000);
    let parent = make_commit(&repo, &[("a.txt", "2")], &[root], "parent", 5000);
    let child = make_commit(&repo, &[("a.txt", "3")], &[parent], "child", 2000);
    let (r, outcome, _) = GitCommit::from_revision(&child.to_string()).resolve(&repo, &paths(&["a.txt"]));
    assert!(matches!(outcome, Ok(WalkEnd::Finished)));
    assert_eq!(sha_of(&r, 0), Some(child.to_string()));
}

#[test]
fn path_with_nul_is_a_bad_path() {
    let repo = fresh_repo("nul");
    let (_, _, _, c3) = linear(&repo);
    let (r, outcome, _) = GitCommit::from_revision(&c3.to_string()).resolve(&repo, &paths(&["a\0b"]));
    assert!(matches!(outcome, Err(ResolveError::BadPath(_))));
    assert!(r.commit_of(0).is_none());
}
