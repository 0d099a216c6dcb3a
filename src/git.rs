use vstd::prelude::*;

use crate::resolver::CommitTime;

verus! {

#[verifier::external_type_specification]
#[verifier::external_body]
pub struct ExRepository(git2::Repository);

#[verifier::external_type_specification]
#[verifier::external_body]
pub struct ExError(git2::Error);

#[verifier::external_type_specification]
#[verifier::external_body]
pub struct ExOid(git2::Oid);

#[verifier::external_type_specification]
#[verifier::external_body]
pub struct ExObject<'repo>(git2::Object<'repo>);

#[verifier::external_type_specification]
#[verifier::external_body]
pub struct ExCommit<'repo>(git2::Commit<'repo>);

#[verifier::external_type_specification]
#[verifier::external_body]
pub struct ExTree<'repo>(git2::Tree<'repo>);

#[verifier::external_type_specification]
#[verifier::external_body]
pub struct ExDiff<'repo>(git2::Diff<'repo>);

#[verifier::external_type_specification]
#[verifier::external_body]
pub struct ExRevwalk<'repo>(git2::Revwalk<'repo>);

#[verifier::external_type_specification]
#[verifier::external_body]
pub struct ExPathspec(git2::Pathspec);

#[verifier::external_type_specification]
#[verifier::external_body]
pub struct ExDiffOptions(git2::DiffOptions);

/// What git answered to one call that the walk depends on. A failed answer
/// ends the call that made it.
pub enum Answer {
    /// Looking for a repository.
    Discovered(bool),
    /// Reading the revision, or peeling it to a commit.
    Revision(bool),
    /// Making a path into a matcher.
    Path(bool),
    /// Creating or sorting the walker.
    Walker(bool),
    /// Starting the walk at the revision's commit.
    Pushed(bool),
    /// The walk yielded the commit with this id.
    Yielded(Seq<u8>),
    /// The walk has no commit left.
    Exhausted,
    /// The walk failed to yield its next commit.
    NextFailed,
    /// Reading a commit, its parent, its tree, or a diff.
    Read(bool),
}

/// Whether an answer reports success.
pub open spec fn succeeded(a: Answer) -> bool {
    match a {
        Answer::Discovered(ok) => ok,
        Answer::Revision(ok) => ok,
        Answer::Path(ok) => ok,
        Answer::Walker(ok) => ok,
        Answer::Pushed(ok) => ok,
        Answer::Yielded(_) => true,
        Answer::Exhausted => true,
        Answer::NextFailed => false,
        Answer::Read(ok) => ok,
    }
}

/// The ids that the walk yielded, in order.
pub open spec fn walked_ids(a: Seq<Answer>) -> Seq<Seq<u8>>
    decreases a.len(),
{
    if a.len() == 0 {
        Seq::empty()
    } else {
        match a.last() {
            Answer::Yielded(id) => walked_ids(a.drop_last()).push(id),
            _ => walked_ids(a.drop_last()),
        }
    }
}

pub proof fn lemma_walked_ids_push(a: Seq<Answer>, x: Answer)
    ensures
        walked_ids(a.push(x)) == (match x {
            Answer::Yielded(id) => walked_ids(a).push(id),
            _ => walked_ids(a),
        }),
{
    assert(a.push(x).drop_last() =~= a);
}

/// The answers git gave during one resolve call, in order. Only the calls
/// below extend it.
pub struct GitLog {
    answers: Ghost<Seq<Answer>>,
}

impl GitLog {
    pub closed spec fn answers(&self) -> Seq<Answer> {
        self.answers@
    }

    pub fn new() -> (r: GitLog)
        ensures
            r.answers() == Seq::<Answer>::empty(),
    {
        GitLog { answers: Ghost(Seq::empty()) }
    }

    /// Adds the answers of `later` after those of `self`.
    pub fn append(&mut self, later: GitLog)
        ensures
            final(self).answers() == old(self).answers() + later.answers(),
    {
        self.answers = Ghost(self.answers@ + later.answers@);
    }
}

/// Relies on `git2::Repository::discover`: looks for a repository at
/// `location` or in one of its parent directories.
#[verifier::external_body]
pub(crate) fn discover(location: &str, log: &mut GitLog) -> (r: Result<git2::Repository, git2::Error>)
    ensures
        final(log).answers() == old(log).answers().push(Answer::Discovered(r is Ok)),
{
    git2::Repository::discover(location)
}

/// Relies on `git2::Repository::revparse_single`: the object that a revision
/// specifier names.
#[verifier::external_body]
pub(crate) fn revparse<'r>(repo: &'r git2::Repository, spec: &str, log: &mut GitLog) -> (r: Result<
    git2::Object<'r>,
    git2::Error,
>)
    ensures
        final(log).answers() == old(log).answers().push(Answer::Revision(r is Ok)),
{
    repo.revparse_single(spec)
}

/// Relies on `git2::Object::peel_to_commit`: the commit that an object
/// (a commit or a tag) leads to.
#[verifier::external_body]
pub(crate) fn peel_to_commit<'r>(obj: &git2::Object<'r>, log: &mut GitLog) -> (r: Result<git2::Commit<'r>, git2::Error>)
    ensures
        final(log).answers() == old(log).answers().push(Answer::Revision(r is Ok)),
{
    obj.peel_to_commit()
}

/// Relies on `git2::Repository::revwalk`: a new walker over the history.
#[verifier::external_body]
pub(crate) fn new_revwalk<'r>(repo: &'r git2::Repository, log: &mut GitLog) -> (r: Result<git2::Revwalk<'r>, git2::Error>)
    ensures
        final(log).answers() == old(log).answers().push(Answer::Walker(r is Ok)),
{
    repo.revwalk()
}

/// Relies on `git2::Revwalk::set_sorting` with `Sort::TOPOLOGICAL | Sort::TIME`:
/// no commit is yielded before all of its children, and ties are broken by
/// commit time, newest first.
#[verifier::external_body]
pub(crate) fn sort_children_first(walk: &mut git2::Revwalk, log: &mut GitLog) -> (r: Result<(), git2::Error>)
    ensures
        final(log).answers() == old(log).answers().push(Answer::Walker(r is Ok)),
{
    walk.set_sorting(git2::Sort::TOPOLOGICAL | git2::Sort::TIME)
}

/// Relies on `git2::Revwalk::push`: the walk starts at `id`.
#[verifier::external_body]
pub(crate) fn walk_push(walk: &mut git2::Revwalk, id: git2::Oid, log: &mut GitLog) -> (r: Result<(), git2::Error>)
    ensures
        final(log).answers() == old(log).answers().push(Answer::Pushed(r is Ok)),
{
    walk.push(id)
}

/// Relies on `Iterator::next` of `git2::Revwalk`: the next commit id of the
/// walk, with its raw bytes (`git2::Oid::as_bytes`), or `None` once history
/// is exhausted.
#[verifier::external_body]
pub(crate) fn walk_next(walk: &mut git2::Revwalk, log: &mut GitLog) -> (r: Option<
    Result<(git2::Oid, Vec<u8>), git2::Error>,
>)
    ensures
        final(log).answers() == old(log).answers().push(
            match r {
                None => Answer::Exhausted,
                Some(Err(_)) => Answer::NextFailed,
                Some(Ok((_, b))) => Answer::Yielded(b@),
            },
        ),
{
    match walk.next() {
        None => None,
        Some(Err(e)) => Some(Err(e)),
        Some(Ok(id)) => Some(Ok((id, id.as_bytes().to_vec()))),
    }
}

/// Relies on `git2::Repository::find_commit`: the commit with id `id`.
#[verifier::external_body]
pub(crate) fn find_commit<'r>(repo: &'r git2::Repository, id: git2::Oid, log: &mut GitLog) -> (r: Result<
    git2::Commit<'r>,
    git2::Error,
>)
    ensures
        final(log).answers() == old(log).answers().push(Answer::Read(r is Ok)),
{
    repo.find_commit(id)
}

/// Relies on `git2::Commit::parent_count`.
#[verifier::external_body]
pub(crate) fn parent_count(c: &git2::Commit) -> (r: usize) {
    c.parent_count()
}

/// Relies on `git2::Commit::parent`: the parent of `c` at position `i`.
#[verifier::external_body]
pub(crate) fn parent<'r>(c: &git2::Commit<'r>, i: usize, log: &mut GitLog) -> (r: Result<git2::Commit<'r>, git2::Error>)
    ensures
        final(log).answers() == old(log).answers().push(Answer::Read(r is Ok)),
{
    c.parent(i)
}

/// Relies on `git2::Commit::tree`: the tree of a commit.
#[verifier::external_body]
pub(crate) fn commit_tree<'r>(c: &git2::Commit<'r>, log: &mut GitLog) -> (r: Result<git2::Tree<'r>, git2::Error>)
    ensures
        final(log).answers() == old(log).answers().push(Answer::Read(r is Ok)),
{
    c.tree()
}

/// Relies on `git2::Commit::id`: the id of a commit.
#[verifier::external_body]
pub(crate) fn commit_id(c: &git2::Commit) -> (r: git2::Oid) {
    c.id()
}

/// Relies on `git2::Commit::summary_bytes`, decoded with
/// `String::from_utf8_lossy`: the first paragraph of the message, with
/// invalid UTF-8 replaced; empty where git gives no summary.
#[verifier::external_body]
pub(crate) fn commit_summary(c: &git2::Commit) -> (r: String) {
    String::from_utf8_lossy(c.summary_bytes().unwrap_or(b"")).into_owned()
}

/// Relies on `git2::Commit::time`: the author time of a commit.
#[verifier::external_body]
pub(crate) fn commit_time(c: &git2::Commit) -> (r: CommitTime) {
    let t = c.time();
    CommitTime { seconds: t.seconds(), offset_minutes: t.offset_minutes() }
}

/// Relies on `git2::DiffOptions::new`: options with libgit2's defaults.
#[verifier::external_body]
pub(crate) fn new_diff_options() -> (r: git2::DiffOptions) {
    git2::DiffOptions::new()
}

/// Relies on `git2::DiffOptions::ignore_filemode`.
#[verifier::external_body]
pub(crate) fn diff_ignore_filemode(opts: &mut git2::DiffOptions, on: bool) {
    opts.ignore_filemode(on);
}

/// Relies on `git2::DiffOptions::ignore_submodules`.
#[verifier::external_body]
pub(crate) fn diff_ignore_submodules(opts: &mut git2::DiffOptions, on: bool) {
    opts.ignore_submodules(on);
}

/// Relies on `git2::DiffOptions::disable_pathspec_match`.
#[verifier::external_body]
pub(crate) fn diff_disable_pathspec_match(opts: &mut git2::DiffOptions, on: bool) {
    opts.disable_pathspec_match(on);
}

/// Relies on `git2::DiffOptions::skip_binary_check`.
#[verifier::external_body]
pub(crate) fn diff_skip_binary_check(opts: &mut git2::DiffOptions, on: bool) {
    opts.skip_binary_check(on);
}

/// Relies on `git2::DiffOptions::force_text`.
#[verifier::external_body]
pub(crate) fn diff_force_text(opts: &mut git2::DiffOptions, on: bool) {
    opts.force_text(on);
}

/// Relies on `git2::DiffOptions::pathspec`: the diff also covers `path`.
/// The call panics on a path that holds a NUL character.
#[verifier::external_body]
pub(crate) fn diff_cover_path(opts: &mut git2::DiffOptions, path: &str)
    requires
        !path@.contains('\0'),
{
    opts.pathspec(path);
}

/// Relies on `git2::Repository::diff_tree_to_tree`: the changes from tree
/// `a` to tree `b`.
#[verifier::external_body]
pub(crate) fn diff_trees<'r>(
    repo: &'r git2::Repository,
    a: &git2::Tree,
    b: &git2::Tree,
    opts: &mut git2::DiffOptions,
    log: &mut GitLog,
) -> (r: Result<git2::Diff<'r>, git2::Error>)
    ensures
        final(log).answers() == old(log).answers().push(Answer::Read(r is Ok)),
{
    repo.diff_tree_to_tree(Some(a), Some(b), Some(opts))
}

/// Relies on `git2::Pathspec::new`: a matcher for the single path `path`.
/// The path is first made a C string, which fails on a NUL character.
#[verifier::external_body]
pub(crate) fn compile_path(path: &str, log: &mut GitLog) -> (r: Result<git2::Pathspec, git2::Error>)
    ensures
        r is Ok ==> !path@.contains('\0'),
        final(log).answers() == old(log).answers().push(Answer::Path(r is Ok)),
{
    git2::Pathspec::new(Some(path).into_iter())
}

/// Relies on `git2::Pathspec::match_tree` with `NO_GLOB` and
/// `NO_MATCH_ERROR`: whether the tree holds the path literally.
#[verifier::external_body]
pub(crate) fn matches_tree(spec: &git2::Pathspec, tree: &git2::Tree) -> (r: bool) {
    spec.match_tree(tree, git2::PathspecFlags::NO_MATCH_ERROR | git2::PathspecFlags::NO_GLOB).is_ok()
}

/// Relies on `git2::Pathspec::match_diff` with `NO_GLOB` and
/// `NO_MATCH_ERROR`: whether the diff changes the path literally.
#[verifier::external_body]
pub(crate) fn matches_diff(spec: &git2::Pathspec, diff: &git2::Diff) -> (r: bool) {
    spec.match_diff(diff, git2::PathspecFlags::NO_MATCH_ERROR | git2::PathspecFlags::NO_GLOB).is_ok()
}

} // verus!
