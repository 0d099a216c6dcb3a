use vstd::prelude::*;

pub mod git;
pub mod hex;
pub mod laws;
pub mod resolver;

use crate::git::{succeeded, walked_ids, Answer, GitLog};
use crate::resolver::{Resolver, Visit};

verus! {

/// Where the walk for last-touching commits starts.
pub struct GitCommit {
    pub revision: String,
}

/// Why a resolve call stopped with an error.
pub enum ResolveError {
    /// The revision specifier names no commit.
    BadRevision(git2::Error),
    /// A path could not be made into a matcher.
    BadPath(git2::Error),
    /// Reading the history failed during the walk.
    Walk(git2::Error),
}

/// How a resolve call that did not fail ended.
pub enum WalkEnd {
    /// Every path resolved, or the history was exhausted.
    Finished,
    /// No repository was found; nothing was resolved.
    NoRepository(git2::Error),
    /// The walk could not start at the revision's commit; nothing was
    /// resolved.
    NoStartingPoint(git2::Error),
    /// The walk stopped after `usize::MAX` commits with paths unresolved.
    StepLimit,
}

/// What one commit's paths are tested against: the whole tree of a root
/// commit, or the diff of a commit against its single parent.
pub enum MatchTarget<'r> {
    Tree(git2::Tree<'r>),
    Diff(git2::Diff<'r>),
}

/// Whether the match target touches the path of `spec`.
pub fn target_touches(target: &MatchTarget, spec: &git2::Pathspec) -> (r: bool) {
    match target {
        MatchTarget::Tree(t) => git::matches_tree(spec, t),
        MatchTarget::Diff(d) => git::matches_diff(spec, d),
    }
}

/// Whether some entry of `v` is `true`.
pub fn any_true(v: &Vec<bool>) -> (r: bool)
    ensures
        r == v@.contains(true),
{
    let mut k: usize = 0;
    while k < v.len()
        invariant
            k <= v@.len(),
            forall|j: int| 0 <= j < k ==> !v@[j],
        decreases v@.len() - k,
    {
        if v[k] {
            assert(v@[k as int] == true);
            return true;
        }
        k = k + 1;
    }
    false
}

impl GitCommit {
    /// Starts the walk at `revision`, for instance `"origin/master"`, so that
    /// only commits reachable from it are considered.
    pub fn from_revision(revision: &str) -> (r: GitCommit)
        ensures
            r.revision@ == revision@,
    {
        GitCommit { revision: revision.to_string() }
    }

    /// Starts the walk at the current `HEAD`.
    pub fn from_head() -> (r: GitCommit)
        ensures
            r.revision@ == "HEAD"@,
    {
        GitCommit { revision: "HEAD".to_string() }
    }

    /// Resolves `paths` in the repository found at `location` or above it.
    /// Where no repository is found, nothing is resolved and the call
    /// succeeds with `WalkEnd::NoRepository`. The log holds git's answers:
    /// first the search for the repository, then those of `resolve`.
    pub fn resolve_at(&self, location: &str, paths: &Vec<String>) -> (r: (
        Resolver,
        Result<WalkEnd, ResolveError>,
        GitLog,
    ))
        ensures
            r.0.wf(),
            r.0.n_paths() == paths@.len(),
            r.2.answers().len() > 0,
            r.2.answers()[0] is Discovered,
            r.2.answers()[0] == Answer::Discovered(false) <==> r.1 matches Ok(WalkEnd::NoRepository(_)),
            r.2.answers()[0] == Answer::Discovered(false) ==> r.2.answers().len() == 1 && r.0.visits().len() == 0
                && forall|i: int| 0 <= i < paths@.len() ==> #[trigger] r.0.slot(i) is None,
            r.2.answers()[0] == Answer::Discovered(true) ==> walk_agrees(r.2.answers().drop_first(), r.0, r.1),
    {
        let mut log = GitLog::new();
        match git::discover(location, &mut log) {
            Ok(repo) => {
                let (res, end, rest) = self.resolve(&repo, paths);
                let ghost first = log.answers();
                log.append(rest);
                assert(log.answers().drop_first() =~= rest.answers());
                (res, end, log)
            },
            Err(e) => (Resolver::new(paths.len()), Ok(WalkEnd::NoRepository(e)), log),
        }
    }

    /// Finds for each of `paths` the first commit that touched it, walking
    /// back from the revision with children before their parents and newer
    /// commit time first among the others: a root commit touches every path
    /// in its tree, any other commit the paths its diff against its single
    /// parent changes, and a merge touches none. The resolver returned holds
    /// what was resolved, also when the walk stopped on an error. The log
    /// holds git's answers, and the outcome follows from them: a failed
    /// revision or path is a hard error before any commit is visited, a
    /// failed start of the walk is soft, a failed read during the walk is a
    /// hard error, and otherwise the walk ends when every path is resolved
    /// or history is exhausted. The visited commits are those the walk
    /// yielded, in order. Sorting the walk reads the commit graph of the
    /// reachable history; trees and diffs are read only for commits visited
    /// while some path is still unresolved.
    pub fn resolve(&self, repo: &git2::Repository, paths: &Vec<String>) -> (r: (
        Resolver,
        Result<WalkEnd, ResolveError>,
        GitLog,
    ))
        ensures
            r.0.wf(),
            r.0.n_paths() == paths@.len(),
            walk_agrees(r.2.answers(), r.0, r.1),
    {
        let mut log = GitLog::new();
        let res = Resolver::new(paths.len());
        let obj = match git::revparse(repo, self.revision.as_str(), &mut log) {
            Ok(o) => o,
            Err(e) => {
                proof {
                    lemma_logged(Seq::empty(), Answer::Revision(false));
                    lemma_nothing_walked(res, log.answers());
                }
                return (res, Err(ResolveError::BadRevision(e)), log);
            },
        };
        proof {
            lemma_logged(Seq::empty(), Answer::Revision(true));
        }
        let ghost a0 = log.answers();
        let start = match git::peel_to_commit(&obj, &mut log) {
            Ok(c) => c,
            Err(e) => {
                proof {
                    lemma_logged(a0, Answer::Revision(false));
                    lemma_nothing_walked(res, log.answers());
                }
                return (res, Err(ResolveError::BadRevision(e)), log);
            },
        };
        proof {
            lemma_logged(a0, Answer::Revision(true));
        }
        let mut specs: Vec<git2::Pathspec> = Vec::new();
        let mut opts = git::new_diff_options();
        git::diff_ignore_filemode(&mut opts, true);
        git::diff_ignore_submodules(&mut opts, true);
        git::diff_disable_pathspec_match(&mut opts, true);
        git::diff_skip_binary_check(&mut opts, true);
        git::diff_force_text(&mut opts, true);
        let mut i: usize = 0;
        while i < paths.len()
            invariant
                i <= paths@.len(),
                specs@.len() == i,
                res.wf(),
                res.n_paths() == paths@.len(),
                res.visits().len() == 0,
                clean(log.answers()),
                walked_ids(log.answers()).len() == 0,
            decreases paths@.len() - i,
        {
            let p = paths[i].as_str();
            let ghost a1 = log.answers();
            match git::compile_path(p, &mut log) {
                Ok(s) => specs.push(s),
                Err(e) => {
                    proof {
                        lemma_logged(a1, Answer::Path(false));
                    lemma_nothing_walked(res, log.answers());
                    }
                    return (res, Err(ResolveError::BadPath(e)), log);
                },
            }
            proof {
                lemma_logged(a1, Answer::Path(true));
            }
            git::diff_cover_path(&mut opts, p);
            i = i + 1;
        }
        let ghost a2 = log.answers();
        let mut walk = match git::new_revwalk(repo, &mut log) {
            Ok(w) => w,
            Err(e) => {
                proof {
                    lemma_logged(a2, Answer::Walker(false));
                    lemma_nothing_walked(res, log.answers());
                }
                return (res, Err(ResolveError::Walk(e)), log);
            },
        };
        proof {
            lemma_logged(a2, Answer::Walker(true));
        }
        let ghost a3 = log.answers();
        match git::sort_children_first(&mut walk, &mut log) {
            Ok(()) => {},
            Err(e) => {
                proof {
                    lemma_logged(a3, Answer::Walker(false));
                    lemma_nothing_walked(res, log.answers());
                }
                return (res, Err(ResolveError::Walk(e)), log);
            },
        }
        proof {
            lemma_logged(a3, Answer::Walker(true));
        }
        let ghost a4 = log.answers();
        match git::walk_push(&mut walk, git::commit_id(&start), &mut log) {
            Ok(()) => {},
            Err(e) => {
                proof {
                    lemma_logged(a4, Answer::Pushed(false));
                    lemma_nothing_walked(res, log.answers());
                }
                return (res, Ok(WalkEnd::NoStartingPoint(e)), log);
            },
        }
        proof {
            lemma_logged(a4, Answer::Pushed(true));
        }
        Self::walk_commits(repo, walk, res, specs, opts, log)
    }

    /// Visits the commits of the walk, newest first, until every path is
    /// resolved, history is exhausted, or git fails.
    fn walk_commits<'r>(
        repo: &'r git2::Repository,
        walk0: git2::Revwalk<'r>,
        res0: Resolver,
        specs: Vec<git2::Pathspec>,
        opts0: git2::DiffOptions,
        log0: GitLog,
    ) -> (r: (Resolver, Result<WalkEnd, ResolveError>, GitLog))
        requires
            res0.wf(),
            res0.visits().len() == 0,
            specs@.len() == res0.n_paths(),
            clean(log0.answers()),
            walked_ids(log0.answers()).len() == 0,
        ensures
            r.0.wf(),
            r.0.n_paths() == res0.n_paths(),
            walk_agrees(r.2.answers(), r.0, r.1),
    {
        let mut walk = walk0;
        let mut res = res0;
        let mut opts = opts0;
        let mut log = log0;
        proof {
            assert(visit_ids(res.visits()) =~= walked_ids(log.answers()));
        }
        // each step visits one commit of a finite history
        let mut steps: usize = 0;
        while steps < usize::MAX
            invariant
                res.wf(),
                res.n_paths() == specs@.len(),
                specs@.len() == res0.n_paths(),
                clean(log.answers()),
                visit_ids(res.visits()) == walked_ids(log.answers()),
            decreases usize::MAX - steps,
        {
            if res.is_done() {
                return (res, Ok(WalkEnd::Finished), log);
            }
            let ghost b0 = log.answers();
            let (id, key) = match git::walk_next(&mut walk, &mut log) {
                None => {
                    proof {
                        lemma_logged(b0, Answer::Exhausted);
                    }
                    return (res, Ok(WalkEnd::Finished), log);
                },
                Some(Ok(pair)) => pair,
                Some(Err(e)) => {
                    proof {
                        lemma_logged(b0, Answer::NextFailed);
                    }
                    return (res, Err(ResolveError::Walk(e)), log);
                },
            };
            proof {
                lemma_logged(b0, Answer::Yielded(key@));
            }
            let ghost b1 = log.answers();
            let commit = match git::find_commit(repo, id, &mut log) {
                Ok(c) => c,
                Err(e) => {
                    proof {
                        lemma_logged(b1, Answer::Read(false));
                        assert(walked_ids(b1).drop_last() =~= walked_ids(b0));
                    }
                    return (res, Err(ResolveError::Walk(e)), log);
                },
            };
            proof {
                lemma_logged(b1, Answer::Read(true));
            }
            let parents = git::parent_count(&commit);
            if parents > 1 {
                res.record(&key, parents, &Vec::new());
            } else {
                let target = if parents == 0 {
                    let ghost b2 = log.answers();
                    match git::commit_tree(&commit, &mut log) {
                        Ok(t) => {
                            proof {
                                lemma_logged(b2, Answer::Read(true));
                            }
                            MatchTarget::Tree(t)
                        },
                        Err(e) => {
                            proof {
                                lemma_logged(b2, Answer::Read(false));
                                assert(walked_ids(b2).drop_last() =~= walked_ids(b0));
                            }
                            return (res, Err(ResolveError::Walk(e)), log);
                        },
                    }
                } else {
                    // the diff from the single parent's tree to the commit's tree
                    let ghost b2 = log.answers();
                    let first = match git::parent(&commit, 0, &mut log) {
                        Ok(p) => p,
                        Err(e) => {
                            proof {
                                lemma_logged(b2, Answer::Read(false));
                                assert(walked_ids(b2).drop_last() =~= walked_ids(b0));
                            }
                            return (res, Err(ResolveError::Walk(e)), log);
                        },
                    };
                    proof {
                        lemma_logged(b2, Answer::Read(true));
                    }
                    let ghost b3 = log.answers();
                    let old_tree = match git::commit_tree(&first, &mut log) {
                        Ok(t) => t,
                        Err(e) => {
                            proof {
                                lemma_logged(b3, Answer::Read(false));
                                assert(walked_ids(b3).drop_last() =~= walked_ids(b0));
                            }
                            return (res, Err(ResolveError::Walk(e)), log);
                        },
                    };
                    proof {
                        lemma_logged(b3, Answer::Read(true));
                    }
                    let ghost b4 = log.answers();
                    let new_tree = match git::commit_tree(&commit, &mut log) {
                        Ok(t) => t,
                        Err(e) => {
                            proof {
                                lemma_logged(b4, Answer::Read(false));
                                assert(walked_ids(b4).drop_last() =~= walked_ids(b0));
                            }
                            return (res, Err(ResolveError::Walk(e)), log);
                        },
                    };
                    proof {
                        lemma_logged(b4, Answer::Read(true));
                    }
                    let ghost b5 = log.answers();
                    match git::diff_trees(repo, &old_tree, &new_tree, &mut opts, &mut log) {
                        Ok(d) => {
                            proof {
                                lemma_logged(b5, Answer::Read(true));
                            }
                            MatchTarget::Diff(d)
                        },
                        Err(e) => {
                            proof {
                                lemma_logged(b5, Answer::Read(false));
                                assert(walked_ids(b5).drop_last() =~= walked_ids(b0));
                            }
                            return (res, Err(ResolveError::Walk(e)), log);
                        },
                    }
                };
                let matched = match_active(&target, &specs, res.active_paths());
                if any_true(&matched) {
                    match res.find_slot(&key) {
                        Some(k) => {
                            assert(res.cached_ids()[k as int] == key@);
                        },
                        None => {
                            let stored = key.clone();
                            assert(stored@ =~= key@);
                            let k = res.insert_commit(
                                stored,
                                git::commit_summary(&commit),
                                git::commit_time(&commit),
                            );
                            assert(res.cached_ids()[k as int] == key@);
                        },
                    }
                }
                res.record(&key, parents, &matched);
            }
            proof {
                let vs = res.visits();
                assert(visit_ids(vs) =~= visit_ids(vs.drop_last()).push(key@));
            }
            steps = steps + 1;
        }
        if res.is_done() {
            (res, Ok(WalkEnd::Finished), log)
        } else {
            (res, Ok(WalkEnd::StepLimit), log)
        }
    }
}

/// The ids of the visited commits, in order.
pub open spec fn visit_ids(vs: Seq<Visit>) -> Seq<Seq<u8>> {
    vs.map_values(|v: Visit| v.id)
}

/// A log with no failure yet, starting at the revision.
pub open spec fn clean(a: Seq<Answer>) -> bool {
    &&& a.len() > 0
    &&& a[0] is Revision
    &&& forall|k: int| 0 <= k < a.len() ==> succeeded(#[trigger] a[k])
}

/// How a walk ended, given git's answers `a`: only the last answer may be a
/// failure, the outcome follows from the last answer, and the visited
/// commits are those the walk yielded (but for one whose reading failed).
pub open spec fn walk_agrees(a: Seq<Answer>, res: Resolver, end: Result<WalkEnd, ResolveError>) -> bool {
    &&& a.len() > 0
    &&& a[0] is Revision
    &&& forall|k: int| 0 <= k < a.len() - 1 ==> succeeded(#[trigger] a[k])
    &&& (end matches Err(ResolveError::BadRevision(_))) <==> a.last() == Answer::Revision(false)
    &&& (end matches Err(ResolveError::BadPath(_))) <==> a.last() == Answer::Path(false)
    &&& (end matches Err(ResolveError::Walk(_))) <==> (a.last() == Answer::Walker(false) || a.last()
        == Answer::NextFailed || a.last() == Answer::Read(false))
    &&& (end matches Ok(WalkEnd::NoStartingPoint(_))) <==> a.last() == Answer::Pushed(false)
    &&& !(end matches Ok(WalkEnd::NoRepository(_)))
    &&& (end matches Ok(WalkEnd::Finished)) ==> (a.last() == Answer::Exhausted || res.is_done_spec())
    &&& (end matches Ok(WalkEnd::StepLimit)) ==> !res.is_done_spec()
    &&& if a.last() == Answer::Read(false) {
        visit_ids(res.visits()) == walked_ids(a).drop_last()
    } else {
        visit_ids(res.visits()) == walked_ids(a)
    }
}

/// Before the walk yields anything, nothing was visited.
proof fn lemma_nothing_walked(res: Resolver, a: Seq<Answer>)
    requires
        res.visits().len() == 0,
        walked_ids(a).len() == 0,
    ensures
        visit_ids(res.visits()) == walked_ids(a),
{
    assert(visit_ids(res.visits()) =~= walked_ids(a));
}

/// Adding one answer to a log that has no failure yet.
proof fn lemma_logged(a: Seq<Answer>, x: Answer)
    requires
        clean(a) || (a.len() == 0 && x is Revision),
    ensures
        succeeded(x) ==> clean(a.push(x)),
        a.push(x).len() > 0,
        a.push(x)[0] is Revision,
        a.push(x).last() == x,
        forall|k: int| 0 <= k < a.push(x).len() - 1 ==> succeeded(#[trigger] a.push(x)[k]),
        walked_ids(a.push(x)) == (match x {
            Answer::Yielded(id) => walked_ids(a).push(id),
            _ => walked_ids(a),
        }),
{
    git::lemma_walked_ids_push(a, x);
    assert forall|k: int| 0 <= k < a.push(x).len() - 1 implies succeeded(#[trigger] a.push(x)[k]) by {
        assert(a.push(x)[k] == a[k]);
    }
    if succeeded(x) {
        assert forall|k: int| 0 <= k < a.push(x).len() implies succeeded(#[trigger] a.push(x)[k]) by {
            if k < a.len() {
                assert(a.push(x)[k] == a[k]);
            }
        }
    }
}

/// Tests each active path against the match target: entry `k` of the result
/// tells whether the path `active[k]` is touched.
pub fn match_active(target: &MatchTarget, specs: &Vec<git2::Pathspec>, active: &Vec<usize>) -> (r: Vec<bool>)
    requires
        forall|k: int| 0 <= k < active@.len() ==> active@[k] < specs@.len(),
    ensures
        r@.len() == active@.len(),
{
    let mut matched: Vec<bool> = Vec::new();
    let mut k: usize = 0;
    while k < active.len()
        invariant
            k <= active@.len(),
            matched@.len() == k,
            forall|j: int| 0 <= j < active@.len() ==> active@[j] < specs@.len(),
        decreases active@.len() - k,
    {
        matched.push(target_touches(target, &specs[active[k]]));
        k = k + 1;
    }
    matched
}

} // verus!
