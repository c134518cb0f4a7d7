//! The snapshot store: one watched directory bound to its own
//! content-addressed commit history, with rate-limited, change-gated
//! snapshots, history listing, commit resolution, tree diffing and
//! point-in-time restoration.

use vstd::prelude::*;
use vstd::slice::slice_to_vec;
use vstd::string::StringSliceAdditionalSpecFns;
use crate::bytes::bytes_append;
use crate::bytes::bytes_clone;
use crate::bytes::bytes_contain;
use crate::bytes::contains_byte;
use crate::git_ops::commit_parent_id;
use crate::git_ops::commit_time;
use crate::git_ops::commit_tree_id;
use crate::git_ops::diff_tree_delta_count;
use crate::git_ops::diff_tree_lines;
use crate::git_ops::git_error_message;
use crate::git_ops::index_add_path;
use crate::git_ops::index_clear;
use crate::git_ops::index_write;
use crate::git_ops::index_write_tree;
use crate::git_ops::repo_checkout_commit;
use crate::git_ops::repo_commit;
use crate::git_ops::repo_find_commit;
use crate::git_ops::repo_head_commit_id;
use crate::git_ops::repo_index;
use crate::git_ops::repo_init_bare;
use crate::git_ops::repo_open;
use crate::git_ops::repo_set_head_detached;
use crate::git_ops::repo_set_workdir;
use crate::git_ops::revwalk_ids;
use crate::numbers::dec_digits;
use crate::numbers::u64_to_dec;
use crate::pathrel::PATH_SEP;
use crate::refspec::parse_commit_ref;
use crate::refspec::spec_parse_ref;
use crate::refspec::CommitRef;
use crate::storename::encode_store_name;
use crate::storename::store_encoding;

verus! {

/// An error of the snapshot store.
#[derive(Debug)]
pub enum StoreError {
    /// The storage backend failed; holds its message.
    Backend(Vec<u8>),
    /// A commit reference that resolves to no commit.
    UnresolvedReference,
    /// A relative commit reference pointing outside the history.
    OffsetOutOfRange,
    /// A relative commit reference whose offset is not a valid number.
    MalformedReference,
    /// A diff against the parent of a commit that has none.
    NoParent,
    /// A destination path the backend cannot take (it holds a NUL byte).
    InvalidPath,
    /// An operation on a directory that is not watched.
    NotWatched,
}

/// One entry of the watched directory, as enumerated by the caller: its path
/// relative to the watched root, and its size in bytes.
pub struct FsEntry {
    pub rel_path: Vec<u8>,
    pub size: u64,
}

/// One commit of the history: its id and its author timestamp, as seconds
/// since the epoch and a timezone offset in minutes.
pub struct CommitMeta {
    pub id: Vec<u8>,
    pub seconds: i64,
    pub offset_minutes: i32,
}

/// The highlighting class of one patch line.
#[derive(Debug, PartialEq, Eq, Structural, Clone, Copy)]
pub enum LineTag {
    Addition,
    Removal,
    Context,
}

/// One line of a rendered patch.
pub struct DiffLine {
    pub tag: LineTag,
    pub content: Vec<u8>,
}

/// Whether a snapshot is due: always when forced, otherwise only once the
/// frequency interval has elapsed since the last snapshot.
pub open spec fn snapshot_due(last: u64, frequency: u64, now: u64, force: bool) -> bool {
    force || now >= last + frequency
}

/// Whether an entry passes the size gate: a zero bound means unbounded.
pub open spec fn entry_within_limit(size: u64, max_file_size: u64) -> bool {
    max_file_size == 0 || size <= max_file_size
}

/// Whether a commit is warranted: always for the very first snapshot, and
/// otherwise exactly when the new tree differs from the parent's tree.
pub open spec fn commit_warranted(has_parent: bool, delta_count: nat) -> bool {
    !has_parent || delta_count > 0
}

/// The fixed-format commit message for a snapshot taken at `now` (seconds
/// since the epoch).
pub open spec fn snapshot_message(now: nat) -> Seq<u8> {
    "TimeM snapshot at ".spec_bytes() + dec_digits(now) + seq![115u8]
}

/// The highlighting class of a patch line with the given origin marker:
/// additions for `+` and `>`, removals for `-` and `<`, context otherwise.
pub open spec fn spec_line_tag(origin: u8) -> LineTag {
    if origin == 43 || origin == 62 {
        LineTag::Addition
    } else if origin == 45 || origin == 60 {
        LineTag::Removal
    } else {
        LineTag::Context
    }
}

/// Decides whether an enumerated entry passes the size gate.
pub fn entry_passes(size: u64, max_file_size: u64) -> (r: bool)
    ensures
        r == entry_within_limit(size, max_file_size),
{
    max_file_size == 0 || size <= max_file_size
}

/// Decides whether a commit is warranted, from whether a parent commit
/// exists and how many entries differ between the new tree and the
/// parent's.
pub fn commit_decision(has_parent: bool, delta_count: usize) -> (r: bool)
    ensures
        r == commit_warranted(has_parent, delta_count as nat),
{
    !has_parent || delta_count > 0
}

/// Maps a backend result into the library's error type.
fn map_git<T>(r: Result<T, git2::Error>) -> (out: Result<T, StoreError>)
    ensures
        match r {
            Ok(v) => out matches Ok(w) && w == v,
            Err(_) => out matches Err(StoreError::Backend(_)),
        },
{
    match r {
        Ok(v) => Ok(v),
        Err(e) => Err(StoreError::Backend(git_error_message(&e))),
    }
}

/// Builds the snapshot commit message for time `now`.
pub fn build_snapshot_message(now: u64) -> (r: Vec<u8>)
    ensures
        r@ == snapshot_message(now as nat),
{
    let prefix: &str = "TimeM snapshot at ";
    let mut out: Vec<u8> = slice_to_vec(prefix.as_bytes());
    let digits = u64_to_dec(now);
    bytes_append(&mut out, &digits);
    out.push(115);
    proof {
        assert(out@ =~= snapshot_message(now as nat));
    }
    out
}

/// Classifies one patch line by its origin marker.
pub fn classify_line(origin: u8) -> (r: LineTag)
    ensures
        r == spec_line_tag(origin),
{
    if origin == 43 || origin == 62 {
        LineTag::Addition
    } else if origin == 45 || origin == 60 {
        LineTag::Removal
    } else {
        LineTag::Context
    }
}

/// Tags every raw patch line with its highlighting class, keeping content
/// and order.
pub fn tag_lines(raw: Vec<(u8, Vec<u8>)>) -> (r: Vec<DiffLine>)
    ensures
        r@.len() == raw@.len(),
        forall|i: int|
            0 <= i < raw@.len() ==> #[trigger] r@[i].tag == spec_line_tag(raw@[i].0)
                && r@[i].content@ == raw@[i].1@,
{
    let mut out: Vec<DiffLine> = Vec::new();
    let mut rest = raw;
    let mut i: usize = 0;
    while i < rest.len()
        invariant
            i <= rest@.len(),
            rest@.len() == out@.len() + (rest@.len() - i),
            forall|j: int|
                0 <= j < i ==> #[trigger] out@[j].tag == spec_line_tag(rest@[j].0)
                    && out@[j].content@ == rest@[j].1@,
            out@.len() == i,
        decreases rest.len() - i,
    {
        let tag = classify_line(rest[i].0);
        let content = bytes_clone(&rest[i].1);
        out.push(DiffLine { tag, content });
        i += 1;
    }
    out
}

/// `i` is the first position of `id` in the listing.
pub open spec fn id_position(ids: Seq<Vec<u8>>, id: Seq<u8>, i: int) -> bool {
    &&& 0 <= i < ids.len()
    &&& ids[i]@ == id
    &&& forall|j: int| 0 <= j < i ==> ids[j]@ != id
}

/// The first position of an id in a listing is unique.
proof fn lemma_id_position_unique(ids: Seq<Vec<u8>>, id: Seq<u8>, a: int, b: int)
    requires
        id_position(ids, id, a),
        id_position(ids, id, b),
    ensures
        a == b,
{
    if a < b {
        assert(ids[a]@ != id);
    }
    if b < a {
        assert(ids[b]@ != id);
    }
}

/// The first position of `id` in a list of commit ids, if present.
fn find_id(ids: &Vec<Vec<u8>>, id: &Vec<u8>) -> (r: Option<usize>)
    ensures
        match r {
            Some(i) => id_position(ids@, id@, i as int),
            None => forall|j: int| 0 <= j < ids@.len() ==> ids@[j]@ != id@,
        },
{
    let mut i: usize = 0;
    while i < ids.len()
        invariant
            i <= ids.len(),
            forall|j: int| 0 <= j < i ==> ids@[j]@ != id@,
        decreases ids.len() - i,
    {
        if crate::bytes::bytes_eq(&ids[i], id) {
            return Some(i);
        }
        i += 1;
    }
    None
}


/// What `select_at_offset` promises. From the head's first position in the
/// newest-first listing, `n` steps toward newer commits (smaller positions)
/// or older ones (larger positions) select exactly one element; stepping
/// outside the chain is exactly the out-of-range error, and a head missing
/// from the listing is exactly the unresolved-reference error.
pub open spec fn offset_selection(
    ids: Seq<Vec<u8>>,
    head: Seq<u8>,
    n: u64,
    newer: bool,
    r: Result<Vec<u8>, StoreError>,
) -> bool {
    &&& ((forall|j: int| 0 <= j < ids.len() ==> ids[j]@ != head) ==> r matches Err(
        StoreError::UnresolvedReference,
    ))
    &&& (forall|h: int| #[trigger]
        id_position(ids, head, h) ==> if newer {
            &&& (n <= h ==> (r matches Ok(id) && id@ == ids[h - n]@))
            &&& (n > h ==> r matches Err(StoreError::OffsetOutOfRange))
        } else {
            &&& (h + n < ids.len() ==> (r matches Ok(id) && id@ == ids[h + n]@))
            &&& (h + n >= ids.len() ==> r matches Err(StoreError::OffsetOutOfRange))
        })
}

/// Selects the commit `n` positions newer or older than `head` in the
/// newest-first listing `ids`.
pub fn select_at_offset(ids: &Vec<Vec<u8>>, head: &Vec<u8>, n: u64, newer: bool) -> (r: Result<
    Vec<u8>,
    StoreError,
>)
    ensures
        offset_selection(ids@, head@, n, newer, r),
        match r {
            Ok(_) => true,
            Err(e) => e is UnresolvedReference || e is OffsetOutOfRange,
        },
{
    let head_index = match find_id(ids, head) {
        Some(i) => i,
        None => {
            return Err(StoreError::UnresolvedReference);
        },
    };
    proof {
        assert forall|h: int| #[trigger] id_position(ids@, head@, h) implies h
            == head_index as int by {
            lemma_id_position_unique(ids@, head@, h, head_index as int);
        }
    }
    if newer {
        if (head_index as u64) < n {
            return Err(StoreError::OffsetOutOfRange);
        }
        let idx = head_index - (n as usize);
        Ok(bytes_clone(&ids[idx]))
    } else {
        if ((ids.len() - head_index - 1) as u64) < n {
            return Err(StoreError::OffsetOutOfRange);
        }
        let idx = head_index + (n as usize);
        Ok(bytes_clone(&ids[idx]))
    }
}

/// Turns the backend's optional head into the head commit or the
/// unresolved-reference error.
pub fn require_head(head: Option<Vec<u8>>) -> (r: Result<Vec<u8>, StoreError>)
    ensures
        head matches Some(id) ==> (r matches Ok(out) && out == id),
        head is None ==> r matches Err(StoreError::UnresolvedReference),
{
    match head {
        Some(id) => Ok(id),
        None => Err(StoreError::UnresolvedReference),
    }
}

/// The diff base when none is given explicitly: the parent commit, or the
/// no-parent error when the commit has none.
pub fn base_of_parent(parent: Option<Vec<u8>>) -> (r: Result<Vec<u8>, StoreError>)
    ensures
        parent matches Some(p) ==> (r matches Ok(out) && out == p),
        parent is None ==> r matches Err(StoreError::NoParent),
{
    match parent {
        Some(p) => Ok(p),
        None => Err(StoreError::NoParent),
    }
}

/// One watched directory bound to its isolated commit history.
pub struct WatchDir {
    pub target_dir: Vec<u8>,
    pub dotgit_dir: Vec<u8>,
    pub frequency_secs: u64,
    pub max_file_size: u64,
    pub last_snapshot_time: u64,
    pub repo: git2::Repository,
}

impl WatchDir {
    /// The policy and naming invariants of a watched directory: its target
    /// is an absolute path and its store location is somewhere.
    pub open spec fn wf(&self) -> bool {
        &&& self.target_dir@.len() > 0
        &&& self.target_dir@[0] == PATH_SEP
        &&& self.dotgit_dir@.len() > 0
    }

    /// The policy fields of `self` and `other` agree; only the snapshot
    /// clock may differ.
    pub open spec fn same_policy(&self, other: &WatchDir) -> bool {
        &&& self.target_dir@ == other.target_dir@
        &&& self.dotgit_dir@ == other.dotgit_dir@
        &&& self.frequency_secs == other.frequency_secs
        &&& self.max_file_size == other.max_file_size
    }

    /// Binds a new or existing history to `target_dir`. The history lives
    /// under `store_base`, in a directory whose name is the collision-free
    /// encoding of the target path, so it never sits inside the watched
    /// tree. A fresh history is initialized when none exists yet.
    pub fn new(
        target_dir: Vec<u8>,
        store_base: Vec<u8>,
        frequency_secs: u64,
        max_file_size: u64,
        now: u64,
    ) -> (r: Result<WatchDir, StoreError>)
        requires
            target_dir@.len() > 0,
            target_dir@[0] == PATH_SEP,
        ensures
            r matches Ok(wd) ==> wd.wf() && wd.target_dir@ == target_dir@ && wd.dotgit_dir@
                == store_base@ + seq![PATH_SEP] + store_encoding(target_dir@)
                && wd.frequency_secs == frequency_secs && wd.max_file_size == max_file_size
                && wd.last_snapshot_time == now,
            r matches Err(e) ==> e is Backend,
    {
        let mut dotgit_dir = bytes_clone(&store_base);
        dotgit_dir.push(PATH_SEP);
        let encoded = encode_store_name(&target_dir);
        bytes_append(&mut dotgit_dir, &encoded);
        proof {
            assert(dotgit_dir@ =~= store_base@ + seq![PATH_SEP] + store_encoding(target_dir@));
        }
        let repo = match repo_open(&dotgit_dir) {
            Ok(repo) => repo,
            Err(_) => {
                match map_git(repo_init_bare(&dotgit_dir)) {
                    Ok(repo) => repo,
                    Err(e) => {
                        return Err(e);
                    },
                }
            },
        };
        if let Err(e) = map_git(repo_set_workdir(&repo, &target_dir)) {
            return Err(e);
        }
        Ok(
            WatchDir {
                target_dir,
                dotgit_dir,
                frequency_secs,
                max_file_size,
                last_snapshot_time: now,
                repo,
            },
        )
    }

    /// Rebinds a history recorded in the configuration: opens the existing
    /// store at `dotgit_dir` (failing if it is gone) and re-associates its
    /// working tree with `target_dir`.
    pub fn from_saved(
        target_dir: Vec<u8>,
        dotgit_dir: Vec<u8>,
        frequency_secs: u64,
        max_file_size: u64,
        now: u64,
    ) -> (r: Result<WatchDir, StoreError>)
        requires
            target_dir@.len() > 0,
            target_dir@[0] == PATH_SEP,
            dotgit_dir@.len() > 0,
        ensures
            r matches Ok(wd) ==> wd.wf() && wd.target_dir@ == target_dir@ && wd.dotgit_dir@
                == dotgit_dir@ && wd.frequency_secs == frequency_secs && wd.max_file_size
                == max_file_size && wd.last_snapshot_time == now,
            r matches Err(e) ==> e is Backend,
    {
        let repo = match map_git(repo_open(&dotgit_dir)) {
            Ok(repo) => repo,
            Err(e) => {
                return Err(e);
            },
        };
        if let Err(e) = map_git(repo_set_workdir(&repo, &target_dir)) {
            return Err(e);
        }
        Ok(
            WatchDir {
                target_dir,
                dotgit_dir,
                frequency_secs,
                max_file_size,
                last_snapshot_time: now,
                repo,
            },
        )
    }

    /// The watched directory this store is bound to.
    pub fn target_dir(&self) -> (r: &Vec<u8>)
        ensures
            r@ == self.target_dir@,
    {
        &self.target_dir
    }

    /// The backend handle of this store's history.
    pub fn get_repo(&self) -> (r: &git2::Repository) {
        &self.repo
    }

    /// Whether a snapshot at time `now` would pass the frequency gate.
    pub fn is_snapshot_due(&self, now: u64, force: bool) -> (r: bool)
        ensures
            r == snapshot_due(self.last_snapshot_time, self.frequency_secs, now, force),
    {
        force || (now >= self.last_snapshot_time && now - self.last_snapshot_time
            >= self.frequency_secs)
    }

    /// Takes a snapshot of the watched directory's current entries, given as
    /// `entries` with their sizes, at time `now` (seconds since the epoch).
    ///
    /// Unless forced, nothing happens before the frequency interval has
    /// elapsed since the last snapshot. Otherwise the entries within the
    /// size bound are staged and materialized as a tree; a commit is created
    /// exactly when there is no parent commit yet (the first snapshot always
    /// commits, even of an empty directory) or the tree differs from the
    /// parent's. Returns whether a commit was created; only then does the
    /// snapshot clock advance to `now`.
    pub fn snapshot(&mut self, force: bool, now: u64, entries: &Vec<FsEntry>) -> (r: Result<
        bool,
        StoreError,
    >)
        requires
            old(self).wf(),
        ensures
            final(self).wf(),
            final(self).same_policy(old(self)),
            final(self).repo == old(self).repo,
            !snapshot_due(old(self).last_snapshot_time, old(self).frequency_secs, now, force)
                ==> r == Result::<bool, StoreError>::Ok(false),
            r == Result::<bool, StoreError>::Ok(true) ==> snapshot_due(
                old(self).last_snapshot_time,
                old(self).frequency_secs,
                now,
                force,
            ) && final(self).last_snapshot_time == now,
            r != Result::<bool, StoreError>::Ok(true) ==> *final(self) == *old(self),
            r matches Err(e) ==> e is Backend,
    {
        if !self.is_snapshot_due(now, force) {
            return Ok(false);
        }
        let mut index = match map_git(repo_index(&self.repo)) {
            Ok(index) => index,
            Err(e) => {
                return Err(e);
            },
        };
        if let Err(e) = map_git(index_clear(&mut index)) {
            return Err(e);
        }
        let mut i: usize = 0;
        while i < entries.len()
            invariant
                i <= entries.len(),
                *self == *old(self),
                old(self).wf(),
                snapshot_due(old(self).last_snapshot_time, old(self).frequency_secs, now, force),
            decreases entries.len() - i,
        {
            if entry_passes(entries[i].size, self.max_file_size) {
                if let Err(e) = map_git(index_add_path(&mut index, &entries[i].rel_path)) {
                    return Err(e);
                }
            }
            i += 1;
        }
        if let Err(e) = map_git(index_write(&mut index)) {
            return Err(e);
        }
        let tree_id = match map_git(index_write_tree(&mut index)) {
            Ok(tree_id) => tree_id,
            Err(e) => {
                return Err(e);
            },
        };
        let parent = match map_git(repo_head_commit_id(&self.repo)) {
            Ok(parent) => parent,
            Err(e) => {
                return Err(e);
            },
        };
        let delta_count: usize = match &parent {
            None => 0,
            Some(parent_id) => {
                let parent_tree = match map_git(commit_tree_id(&self.repo, parent_id)) {
                    Ok(parent_tree) => parent_tree,
                    Err(e) => {
                        return Err(e);
                    },
                };
                match map_git(diff_tree_delta_count(&self.repo, &parent_tree, &tree_id)) {
                    Ok(n) => n,
                    Err(e) => {
                        return Err(e);
                    },
                }
            },
        };
        if !commit_decision(parent.is_some(), delta_count) {
            return Ok(false);
        }
        let message = build_snapshot_message(now);
        if let Err(e) = map_git(repo_commit(&self.repo, &tree_id, &parent, &message)) {
            return Err(e);
        }
        self.last_snapshot_time = now;
        Ok(true)
    }

    /// Materializes the tree of `commit_id` into `restore_to` (the watched
    /// directory itself when absent) and detaches head onto that commit.
    /// Without `force` the backend refuses to overwrite content that
    /// differs from the snapshot; with `force` it overwrites
    /// unconditionally. Never creates a commit. A destination holding a NUL
    /// byte, which no backend path can carry, is rejected up front.
    pub fn restore_snapshot(
        &self,
        commit_id: &Vec<u8>,
        restore_to: Option<&Vec<u8>>,
        force: bool,
    ) -> (r: Result<(), StoreError>)
        ensures
            ({
                let dest = match restore_to {
                    Some(p) => p@,
                    None => self.target_dir@,
                };
                (r matches Err(StoreError::InvalidPath)) <==> contains_byte(dest, 0)
            }),
            match r {
                Ok(_) => true,
                Err(e) => e is InvalidPath || e is Backend,
            },
    {
        let dest = self.restore_destination(restore_to);
        if bytes_contain(&dest, 0) {
            return Err(StoreError::InvalidPath);
        }
        if let Err(e) = map_git(repo_checkout_commit(&self.repo, commit_id, &dest, force)) {
            return Err(e);
        }
        if let Err(e) = map_git(repo_set_head_detached(&self.repo, commit_id)) {
            return Err(e);
        }
        Ok(())
    }

    /// Where a restore materializes its tree: the asked-for destination,
    /// or the watched directory itself when none is given.
    pub fn restore_destination(&self, restore_to: Option<&Vec<u8>>) -> (d: Vec<u8>)
        ensures
            d@ == match restore_to {
                Some(p) => p@,
                None => self.target_dir@,
            },
    {
        match restore_to {
            Some(p) => bytes_clone(p),
            None => bytes_clone(&self.target_dir),
        }
    }

    /// The ids of all commits of this history, newest first; empty while
    /// there is no commit yet.
    pub fn iter_oids(&self) -> (r: Result<Vec<Vec<u8>>, StoreError>)
        ensures
            match r {
                Ok(_) => true,
                Err(e) => e is Backend,
            },
    {
        map_git(revwalk_ids(&self.repo))
    }

    /// All commits of this history with their timestamps, newest first.
    pub fn iter_commits(&self) -> (r: Result<Vec<CommitMeta>, StoreError>)
        ensures
            r matches Err(e) ==> e is Backend,
    {
        let ids = match self.iter_oids() {
            Ok(ids) => ids,
            Err(e) => {
                return Err(e);
            },
        };
        self.commits_with_times(&ids)
    }

    /// Pairs each listed commit id with its timestamp: on success the
    /// output holds exactly the given ids, in order, each with the
    /// timestamp the backend reports for it.
    pub fn commits_with_times(&self, ids: &Vec<Vec<u8>>) -> (r: Result<Vec<CommitMeta>, StoreError>)
        ensures
            r matches Ok(v) ==> v@.len() == ids@.len() && forall|i: int|
                0 <= i < ids@.len() ==> #[trigger] v@[i].id@ == ids@[i]@,
            r matches Err(e) ==> e is Backend,
    {
        let mut out: Vec<CommitMeta> = Vec::new();
        let mut i: usize = 0;
        while i < ids.len()
            invariant
                i <= ids.len(),
                out@.len() == i,
                forall|j: int| 0 <= j < i ==> #[trigger] out@[j].id@ == ids@[j]@,
            decreases ids.len() - i,
        {
            let (seconds, offset_minutes) = match map_git(commit_time(&self.repo, &ids[i])) {
                Ok(t) => t,
                Err(e) => {
                    return Err(e);
                },
            };
            let id = bytes_clone(&ids[i]);
            out.push(CommitMeta { id, seconds, offset_minutes });
            i += 1;
        }
        Ok(out)
    }

    /// The id of the commit the current head points at; an error while the
    /// history has no commit yet.
    pub fn get_head_commit(&self) -> (r: Result<Vec<u8>, StoreError>)
        ensures
            match r {
                Ok(_) => true,
                Err(e) => e is UnresolvedReference || e is Backend,
            },
    {
        match map_git(repo_head_commit_id(&self.repo)) {
            Ok(head) => require_head(head),
            Err(e) => Err(e),
        }
    }

    /// Resolves a commit reference to a commit id: the head token to the
    /// current head, a relative offset by walking the history from the
    /// head, and anything else as an exact content hash. An unresolvable
    /// reference is an error, never a default.
    pub fn get_commit(&self, reference: &Vec<u8>) -> (r: Result<Vec<u8>, StoreError>)
        ensures
            (r matches Err(StoreError::MalformedReference)) <==> spec_parse_ref(reference@)
                == CommitRef::Malformed,
            r matches Err(e) ==> e is MalformedReference || e is UnresolvedReference || e
                is OffsetOutOfRange || e is Backend,
    {
        let parsed = parse_commit_ref(reference);
        match parsed {
            CommitRef::Head => self.get_head_commit(),
            CommitRef::Exact => map_git(repo_find_commit(&self.repo, reference)),
            CommitRef::Malformed => Err(StoreError::MalformedReference),
            CommitRef::Newer(n) => self.commit_at_offset(n, true),
            CommitRef::Older(n) => self.commit_at_offset(n, false),
        }
    }

    /// The commit `n` positions newer or older than the head, in the
    /// newest-first history listing. The selection itself is
    /// `select_at_offset`'s exact contract; the listing and the head id are
    /// the backend's.
    fn commit_at_offset(&self, n: u64, newer: bool) -> (r: Result<Vec<u8>, StoreError>)
        ensures
            match r {
                Ok(_) => true,
                Err(e) => e is UnresolvedReference || e is OffsetOutOfRange || e is Backend,
            },
    {
        let ids = match self.iter_oids() {
            Ok(ids) => ids,
            Err(e) => {
                return Err(e);
            },
        };
        let head = match self.get_head_commit() {
            Ok(head) => head,
            Err(e) => {
                return Err(e);
            },
        };
        select_at_offset(&ids, &head, n, newer)
    }

    /// The patch between `commit_a` and `commit_b`, where `commit_b`
    /// defaults to the direct parent of `commit_a` (an error if it has
    /// none). Each line carries its highlighting class: additions, removals
    /// and context.
    pub fn diff(&self, commit_a: &Vec<u8>, commit_b: Option<&Vec<u8>>) -> (r: Result<
        Vec<DiffLine>,
        StoreError,
    >)
        ensures
            commit_b matches Some(_) ==> !(r matches Err(StoreError::NoParent)),
            r matches Err(e) ==> e is NoParent || e is Backend,
    {
        let base = match commit_b {
            Some(b) => bytes_clone(b),
            None => {
                let parent = match map_git(commit_parent_id(&self.repo, commit_a)) {
                    Ok(parent) => parent,
                    Err(e) => {
                        return Err(e);
                    },
                };
                match base_of_parent(parent) {
                    Ok(p) => p,
                    Err(e) => {
                        return Err(e);
                    },
                }
            },
        };
        let tree_a = match map_git(commit_tree_id(&self.repo, commit_a)) {
            Ok(t) => t,
            Err(e) => {
                return Err(e);
            },
        };
        let tree_b = match map_git(commit_tree_id(&self.repo, &base)) {
            Ok(t) => t,
            Err(e) => {
                return Err(e);
            },
        };
        let raw = match map_git(diff_tree_lines(&self.repo, &tree_b, &tree_a)) {
            Ok(raw) => raw,
            Err(e) => {
                return Err(e);
            },
        };
        Ok(tag_lines(raw))
    }
}

/// Two unforced snapshots within less than the frequency interval of each
/// other perform at most one commit: after a commit at `t1`, an unforced
/// snapshot at any `t2` earlier than `t1 + frequency` is not due.
pub proof fn lemma_rate_limit(t1: u64, t2: u64, frequency: u64)
    requires
        t2 < t1 + frequency,
    ensures
        !snapshot_due(t1, frequency, t2, false),
{
}

/// A forced snapshot always passes the frequency gate, regardless of the
/// elapsed time.
pub proof fn lemma_force_overrides_gate(last: u64, frequency: u64, now: u64)
    ensures
        snapshot_due(last, frequency, now, true),
{
}

/// The commit gate: the very first snapshot always commits, an unchanged
/// tree never does, and a changed tree always does.
pub proof fn lemma_commit_gate(delta_count: nat)
    ensures
        commit_warranted(false, delta_count),
        !commit_warranted(true, 0),
        delta_count > 0 ==> commit_warranted(true, delta_count),
{
}

} // verus!
