//! The trusted boundary to the content-addressed storage backend (git2).
//!
//! Each wrapper makes one backend call and converts its arguments and result
//! between the library's plain values (paths and object ids as byte vectors)
//! and the backend's types. Nothing here is verified; the library's logic is
//! verified against these declarations.

use vstd::prelude::*;
use crate::bytes::contains_byte;

verus! {

/// git2's repository handle, opaque to the library's proofs.
#[verifier::external_type_specification]
#[verifier::external_body]
pub struct ExRepository(git2::Repository);

/// git2's staging index, opaque to the library's proofs.
#[verifier::external_type_specification]
#[verifier::external_body]
pub struct ExIndex(git2::Index);

/// git2's error type, opaque to the library's proofs.
#[verifier::external_type_specification]
#[verifier::external_body]
pub struct ExGitError(git2::Error);

/// Relies on git2's Error::message: the human-readable text of an error.
#[verifier::external_body]
pub(crate) fn git_error_message(e: &git2::Error) -> (r: Vec<u8>)
{
    e.message().as_bytes().to_vec()
}

/// Relies on git2's Repository::open: opens the history rooted at `git_dir`,
/// failing if none exists there.
#[verifier::external_body]
pub(crate) fn repo_open(git_dir: &Vec<u8>) -> (r: Result<git2::Repository, git2::Error>)
{
    git2::Repository::open(String::from_utf8_lossy(git_dir).into_owned())
}

/// Relies on git2's Repository::init_opts: creates a fresh bare history at
/// `git_dir`, making the needed directories.
#[verifier::external_body]
pub(crate) fn repo_init_bare(git_dir: &Vec<u8>) -> (r: Result<git2::Repository, git2::Error>)
{
    let mut opts = git2::RepositoryInitOptions::new();
    opts.bare(true).external_template(false);
    git2::Repository::init_opts(String::from_utf8_lossy(git_dir).into_owned(), &opts)
}

/// Relies on git2's Repository::set_workdir: associates the working tree at
/// `dir` with the history, in memory only (no link file is written to `dir`).
#[verifier::external_body]
pub(crate) fn repo_set_workdir(repo: &git2::Repository, dir: &Vec<u8>) -> (r: Result<
    (),
    git2::Error,
>)
{
    repo.set_workdir(std::path::Path::new(&String::from_utf8_lossy(dir).into_owned()), false)
}

/// Relies on git2's Repository::index: the staging index of the history.
#[verifier::external_body]
pub(crate) fn repo_index(repo: &git2::Repository) -> (r: Result<git2::Index, git2::Error>)
{
    repo.index()
}

/// Relies on git2's Index::clear: empties the staging index.
#[verifier::external_body]
pub(crate) fn index_clear(index: &mut git2::Index) -> (r: Result<(), git2::Error>)
{
    index.clear()
}

/// Relies on git2's Index::add_path: stages the file at `rel_path`
/// (relative to the working tree) into the index, reading its content.
#[verifier::external_body]
pub(crate) fn index_add_path(index: &mut git2::Index, rel_path: &Vec<u8>) -> (r: Result<
    (),
    git2::Error,
>)
{
    index.add_path(std::path::Path::new(&String::from_utf8_lossy(rel_path).into_owned()))
}

/// Relies on git2's Index::write: persists the staging index.
#[verifier::external_body]
pub(crate) fn index_write(index: &mut git2::Index) -> (r: Result<(), git2::Error>)
{
    index.write()
}

/// Relies on git2's Index::write_tree: materializes the staged entries as a
/// tree object and returns its id in hexadecimal.
#[verifier::external_body]
pub(crate) fn index_write_tree(index: &mut git2::Index) -> (r: Result<Vec<u8>, git2::Error>)
{
    index.write_tree().map(|oid| oid.to_string().into_bytes())
}

/// Relies on git2's Repository::head: the id of the commit the current head
/// points at, or `None` while the history has no commit yet.
#[verifier::external_body]
pub(crate) fn repo_head_commit_id(repo: &git2::Repository) -> (r: Result<
    Option<Vec<u8>>,
    git2::Error,
>)
{
    match repo.head() {
        Ok(head) => head.peel_to_commit().map(|c| Some(c.id().to_string().into_bytes())),
        Err(e) if e.code() == git2::ErrorCode::UnbornBranch || e.code()
            == git2::ErrorCode::NotFound => Ok(None),
        Err(e) => Err(e),
    }
}

/// Relies on git2's Repository::find_commit: checks that `id` names a stored
/// commit and returns its canonical id in hexadecimal.
#[verifier::external_body]
pub(crate) fn repo_find_commit(repo: &git2::Repository, id: &Vec<u8>) -> (r: Result<
    Vec<u8>,
    git2::Error,
>)
{
    let oid = git2::Oid::from_str(&String::from_utf8_lossy(id))?;
    repo.find_commit(oid).map(|c| c.id().to_string().into_bytes())
}

/// Relies on git2's Commit::tree_id: the id of the tree of the commit `id`.
#[verifier::external_body]
pub(crate) fn commit_tree_id(repo: &git2::Repository, id: &Vec<u8>) -> (r: Result<
    Vec<u8>,
    git2::Error,
>)
{
    let oid = git2::Oid::from_str(&String::from_utf8_lossy(id))?;
    repo.find_commit(oid).map(|c| c.tree_id().to_string().into_bytes())
}

/// Relies on git2's Commit::parent_id: the id of the sole parent of the
/// commit `id`, or `None` if it has none.
#[verifier::external_body]
pub(crate) fn commit_parent_id(repo: &git2::Repository, id: &Vec<u8>) -> (r: Result<
    Option<Vec<u8>>,
    git2::Error,
>)
{
    let oid = git2::Oid::from_str(&String::from_utf8_lossy(id))?;
    let c = repo.find_commit(oid)?;
    Ok(c.parent_id(0).ok().map(|p| p.to_string().into_bytes()))
}

/// Relies on git2's Commit::time: the timestamp of the commit `id`, as
/// seconds since the epoch and a timezone offset in minutes. This is the
/// committer clock, which equals the author's for every commit this
/// library writes.
#[verifier::external_body]
pub(crate) fn commit_time(repo: &git2::Repository, id: &Vec<u8>) -> (r: Result<
    (i64, i32),
    git2::Error,
>)
{
    let oid = git2::Oid::from_str(&String::from_utf8_lossy(id))?;
    let c = repo.find_commit(oid)?;
    Ok((c.time().seconds(), c.time().offset_minutes()))
}

/// Relies on git2's Repository::diff_tree_to_tree and Diff::deltas: how many
/// entries differ between the two trees.
#[verifier::external_body]
pub(crate) fn diff_tree_delta_count(
    repo: &git2::Repository,
    old_tree: &Vec<u8>,
    new_tree: &Vec<u8>,
) -> (r: Result<usize, git2::Error>)
{
    let old_t = repo.find_tree(git2::Oid::from_str(&String::from_utf8_lossy(old_tree))?)?;
    let new_t = repo.find_tree(git2::Oid::from_str(&String::from_utf8_lossy(new_tree))?)?;
    let diff = repo.diff_tree_to_tree(Some(&old_t), Some(&new_t), None)?;
    Ok(diff.deltas().count())
}

/// Relies on git2's Diff::print: the patch between the two trees, one record
/// per line, each as the line's origin marker and its content.
#[verifier::external_body]
pub(crate) fn diff_tree_lines(
    repo: &git2::Repository,
    old_tree: &Vec<u8>,
    new_tree: &Vec<u8>,
) -> (r: Result<Vec<(u8, Vec<u8>)>, git2::Error>)
{
    let old_t = repo.find_tree(git2::Oid::from_str(&String::from_utf8_lossy(old_tree))?)?;
    let new_t = repo.find_tree(git2::Oid::from_str(&String::from_utf8_lossy(new_tree))?)?;
    let diff = repo.diff_tree_to_tree(Some(&old_t), Some(&new_t), None)?;
    let mut out: Vec<(u8, Vec<u8>)> = Vec::new();
    diff.print(git2::DiffFormat::Patch, |_, _, line| {
        out.push((line.origin() as u8, line.content().to_vec()));
        true
    })?;
    Ok(out)
}

/// Relies on git2's Repository::commit: writes a commit holding the tree
/// `tree_id`, with the given parent and message, and advances head to it.
#[verifier::external_body]
pub(crate) fn repo_commit(
    repo: &git2::Repository,
    tree_id: &Vec<u8>,
    parent_id: &Option<Vec<u8>>,
    message: &Vec<u8>,
) -> (r: Result<Vec<u8>, git2::Error>)
{
    let tree = repo.find_tree(git2::Oid::from_str(&String::from_utf8_lossy(tree_id))?)?;
    let sig = git2::Signature::now("timem", "timem")?;
    let msg = String::from_utf8_lossy(message).into_owned();
    let parent = match parent_id {
        Some(p) => Some(repo.find_commit(git2::Oid::from_str(&String::from_utf8_lossy(p))?)?),
        None => None,
    };
    let parents: Vec<&git2::Commit> = parent.iter().collect();
    repo.commit(Some("HEAD"), &sig, &sig, &msg, &tree, &parents).map(|id| {
        id.to_string().into_bytes()
    })
}

/// Relies on git2's Revwalk: the ids of all commits reachable from the
/// current head, in topological order starting from the head. Any failure
/// to push the head — the usual case being a history with no commit yet —
/// reads as an empty listing rather than an error.
#[verifier::external_body]
pub(crate) fn revwalk_ids(repo: &git2::Repository) -> (r: Result<Vec<Vec<u8>>, git2::Error>)
{
    let mut walk = repo.revwalk()?;
    match walk.push_head() {
        Ok(()) => {
            walk.set_sorting(git2::Sort::TOPOLOGICAL)?;
            walk.map(|o| o.map(|oid| oid.to_string().into_bytes())).collect()
        },
        Err(_) => Ok(Vec::new()),
    }
}

/// Relies on git2's Repository::checkout_tree: materializes the tree of the
/// commit `id` into the directory `dest`. Without `force`, safe mode is
/// used: content at `dest` that differs from both the history's current
/// state and the tree being checked out makes the call fail rather than be
/// overwritten. With `force` it overwrites unconditionally.
///
/// `dest` must hold no NUL byte: git2's target-directory setter converts
/// the path to a C string with an unwrap, so an interior NUL would panic
/// inside the backend.
#[verifier::external_body]
pub(crate) fn repo_checkout_commit(
    repo: &git2::Repository,
    id: &Vec<u8>,
    dest: &Vec<u8>,
    force: bool,
) -> (r: Result<(), git2::Error>)
    requires
        !contains_byte(dest@, 0),
{
    let c = repo.find_commit(git2::Oid::from_str(&String::from_utf8_lossy(id))?)?;
    let tree = c.tree()?;
    let mut cb = git2::build::CheckoutBuilder::new();
    cb.target_dir(std::path::Path::new(&String::from_utf8_lossy(dest).into_owned()));
    if force {
        cb.force();
    } else {
        cb.safe();
    }
    repo.checkout_tree(tree.as_object(), Some(&mut cb))
}

/// Relies on git2's Repository::set_head_detached: points head at the
/// commit `id`.
#[verifier::external_body]
pub(crate) fn repo_set_head_detached(repo: &git2::Repository, id: &Vec<u8>) -> (r: Result<
    (),
    git2::Error,
>)
{
    repo.set_head_detached(git2::Oid::from_str(&String::from_utf8_lossy(id))?)
}

} // verus!
