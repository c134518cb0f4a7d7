//! The watch registry: the set of watched roots with their policies, the
//! path-prefix index built from the same keys, and the pending-changed set
//! of roots awaiting a snapshot. Filesystem events are classified here and
//! routed to the root that owns them; configuration entries loaded from
//! disk are merged without ever touching or removing an existing root.

use vstd::prelude::*;
use crate::bytes::bytes_clone;
use crate::bytes::bytes_eq;
use crate::pathrel::is_path_ancestor;
use crate::prefix_index::PrefixIndex;
use crate::watchdir::FsEntry;
use crate::watchdir::StoreError;
use crate::watchdir::WatchDir;

verus! {

/// The class of a filesystem event, as the library cares about it.
#[derive(Debug, PartialEq, Eq, Structural, Clone, Copy)]
pub enum FsEventKind {
    /// A pure read; never marks a root as changed.
    Access,
    Create,
    Modify,
    Remove,
    Other,
}

/// One filesystem event: its class and the path it happened at.
pub struct FsEvent {
    pub kind: FsEventKind,
    pub path: Vec<u8>,
}

/// `v` holds `t` as one of its byte strings.
pub open spec fn seq_holds(v: Seq<Vec<u8>>, t: Seq<u8>) -> bool {
    exists|i: int| 0 <= i < v.len() && v[i]@ == t
}

/// The position of `t` in a list of byte strings, if present.
fn find_bytes(v: &Vec<Vec<u8>>, t: &Vec<u8>) -> (r: Option<usize>)
    ensures
        match r {
            Some(i) => i < v@.len() && v@[i as int]@ == t@,
            None => !seq_holds(v@, t@),
        },
{
    let mut i: usize = 0;
    while i < v.len()
        invariant
            i <= v.len(),
            forall|j: int| 0 <= j < i ==> v@[j]@ != t@,
        decreases v.len() - i,
    {
        if bytes_eq(&v[i], t) {
            return Some(i);
        }
        i += 1;
    }
    None
}

/// The position of the entry watching `t`, if any.
fn find_watched(dirs: &Vec<WatchDir>, t: &Vec<u8>) -> (r: Option<usize>)
    ensures
        match r {
            Some(i) => i < dirs@.len() && dirs@[i as int].target_dir@ == t@,
            None => forall|j: int| 0 <= j < dirs@.len() ==> dirs@[j].target_dir@ != t@,
        },
{
    let mut i: usize = 0;
    while i < dirs.len()
        invariant
            i <= dirs.len(),
            forall|j: int| 0 <= j < i ==> dirs@[j].target_dir@ != t@,
        decreases dirs.len() - i,
    {
        if bytes_eq(&dirs[i].target_dir, t) {
            return Some(i);
        }
        i += 1;
    }
    None
}

/// Some entry of `l` targets `t`.
pub open spec fn loaded_has(l: Seq<WatchDir>, t: Seq<u8>) -> bool {
    exists|i: int| 0 <= i < l.len() && l[i].target_dir@ == t
}

/// `j` is the position of the first entry of `l` that targets `t`.
pub open spec fn loaded_first_at(l: Seq<WatchDir>, t: Seq<u8>, j: int) -> bool {
    &&& 0 <= j < l.len()
    &&& l[j].target_dir@ == t
    &&& forall|k: int| 0 <= k < j ==> l[k].target_dir@ != t
}

/// Extending a loaded prefix by one entry extends the targets it carries
/// by exactly that entry's target.
proof fn lemma_loaded_has_extend(l: Seq<WatchDir>, n: int, t: Seq<u8>)
    requires
        0 <= n < l.len(),
    ensures
        loaded_has(l.subrange(0, n + 1), t) <==> (loaded_has(l.subrange(0, n), t)
            || l[n].target_dir@ == t),
{
    assert(l.subrange(0, n + 1) =~= l.subrange(0, n).push(l[n]));
    if loaded_has(l.subrange(0, n + 1), t) {
        let k = choose|k: int|
            #![trigger l.subrange(0, n + 1)[k]]
            0 <= k < l.subrange(0, n + 1).len() && l.subrange(0, n + 1)[k].target_dir@ == t;
        if k < n {
            assert(l.subrange(0, n)[k].target_dir@ == t);
        }
    }
    if loaded_has(l.subrange(0, n), t) {
        let k = choose|k: int|
            #![trigger l.subrange(0, n)[k]]
            0 <= k < l.subrange(0, n).len() && l.subrange(0, n)[k].target_dir@ == t;
        assert(l.subrange(0, n + 1)[k].target_dir@ == t);
    }
    if l[n].target_dir@ == t {
        assert(l.subrange(0, n + 1)[n].target_dir@ == t);
    }
}

/// Every entry of `c` beyond those of `o` is pinned to a loaded entry: it
/// equals the first entry of `l` with its target, whole policy included.
pub open spec fn merged_pinned(c: Config, o: Config, l: Seq<WatchDir>) -> bool {
    forall|i: int|
        o.num_dirs() <= i < c.num_dirs() ==> exists|j: int|
            loaded_first_at(l, (#[trigger] c.watched_dirs@[i]).target_dir@, j)
                && c.watched_dirs@[i] == l[j]
}

/// The watched set of `c` is that of `o` extended by exactly the targets of
/// the first `n` loaded entries.
pub open spec fn targets_extended(c: Config, o: Config, l: Seq<WatchDir>, n: int) -> bool {
    forall|t: Seq<u8>| c.has_target(t) <==> o.has_target(t) || loaded_has(l.subrange(0, n), t)
}

/// `added` holds exactly the targets of the first `n` loaded entries that
/// `o` did not watch.
pub open spec fn added_matches(added: Seq<Vec<u8>>, o: Config, l: Seq<WatchDir>, n: int) -> bool {
    forall|t: Seq<u8>|
        #![trigger seq_holds(added, t)]
        #![trigger loaded_has(l.subrange(0, n), t)]
        seq_holds(added, t) <==> !o.has_target(t) && loaded_has(l.subrange(0, n), t)
}

/// The pending set of `c` is that of `o` extended by exactly the roots
/// that the first `n` events mark.
pub open spec fn pending_extended(c: Config, o: Config, events: Seq<FsEvent>, n: int) -> bool {
    forall|t: Seq<u8>|
        c.pending_contains(t) <==> o.pending_contains(t) || o.marks_before(events, n, t)
}

/// Transfers the registry invariant to a registry with the same watched
/// set and index but another pending set, provided that set is a set of
/// watched roots.
proof fn lemma_wf_pending_change(a: &Config, b: &Config)
    requires
        a.wf(),
        b.watched_dirs == a.watched_dirs,
        b.dir_trie == a.dir_trie,
        forall|i: int, j: int|
            0 <= i < j < b.dirs_with_changes@.len() ==> #[trigger] b.dirs_with_changes@[i]@
                != #[trigger] b.dirs_with_changes@[j]@,
        forall|i: int|
            0 <= i < b.dirs_with_changes@.len() ==> a.has_target(
                #[trigger] b.dirs_with_changes@[i]@,
            ),
    ensures
        b.wf(),
{
    assert(b.num_dirs() == a.num_dirs());
    assert forall|i: int, j: int| 0 <= i < j < b.num_dirs() implies #[trigger] b.target_at(i)
        != #[trigger] b.target_at(j) by {
        assert(a.target_at(i) != a.target_at(j));
        assert(b.target_at(i) == a.target_at(i));
        assert(b.target_at(j) == a.target_at(j));
    }
    assert forall|i: int|
        #![trigger b.dir_trie.key_at(i)]
        #![trigger b.dir_trie.owner_at(i)]
        0 <= i < b.num_dirs() implies b.dir_trie.key_at(i) == b.target_at(i) && b.dir_trie
        .owner_at(i) == b.target_at(i) by {
        assert(a.dir_trie.key_at(i) == a.target_at(i));
        assert(a.dir_trie.owner_at(i) == a.target_at(i));
    }
    assert forall|i: int| 0 <= i < b.num_dirs() implies #[trigger] b.watched_dirs@[i].wf() by {
        assert(a.watched_dirs@[i].wf());
    }
    assert forall|i: int| 0 <= i < b.dirs_with_changes@.len() implies b.has_target(
        #[trigger] b.dirs_with_changes@[i]@,
    ) by {
        assert(a.has_target(b.dirs_with_changes@[i]@));
        let w = choose|w: int|
            0 <= w < a.num_dirs() && a.target_at(w) == b.dirs_with_changes@[i]@;
        assert(b.target_at(w) == b.dirs_with_changes@[i]@);
    }
}

/// The whole seconds until a policy with these fields is due again, at
/// least one; the due time saturates at the clock's maximum.
pub open spec fn spec_remaining(last: u64, frequency: u64, now: u64) -> int {
    let due: int = if last + frequency > u64::MAX {
        u64::MAX as int
    } else {
        last + frequency
    };
    let rem: int = if due > now {
        due - now
    } else {
        0
    };
    if rem < 1 {
        1
    } else {
        rem
    }
}

/// The watch registry.
pub struct Config {
    pub config_path: Vec<u8>,
    pub watched_dirs: Vec<WatchDir>,
    pub dir_trie: PrefixIndex,
    pub dirs_with_changes: Vec<Vec<u8>>,
    pub is_watching_changes: bool,
}

impl Config {
    /// How many roots are watched.
    pub open spec fn num_dirs(&self) -> int {
        self.watched_dirs@.len() as int
    }

    /// The target of the watched root at position `i`.
    pub open spec fn target_at(&self, i: int) -> Seq<u8> {
        self.watched_dirs@[i].target_dir@
    }

    /// `t` is a watched root.
    pub open spec fn has_target(&self, t: Seq<u8>) -> bool {
        exists|i: int| 0 <= i < self.num_dirs() && self.target_at(i) == t
    }

    /// `t` is pending a snapshot.
    pub open spec fn pending_contains(&self, t: Seq<u8>) -> bool {
        seq_holds(self.dirs_with_changes@, t)
    }

    /// The registry's invariant: watched targets are distinct, the prefix
    /// index holds exactly the watched targets (each owning itself) in the
    /// same order, every policy is well formed, and the pending set holds
    /// distinct, watched roots.
    pub open spec fn wf(&self) -> bool {
        &&& forall|i: int, j: int|
            0 <= i < j < self.num_dirs() ==> #[trigger] self.target_at(i) != #[trigger] self
                .target_at(j)
        &&& self.dir_trie.spec_len() == self.num_dirs()
        &&& forall|i: int|
            #![trigger self.dir_trie.key_at(i)]
            #![trigger self.dir_trie.owner_at(i)]
            0 <= i < self.num_dirs() ==> self.dir_trie.key_at(i) == self.target_at(i)
                && self.dir_trie.owner_at(i) == self.target_at(i)
        &&& forall|i: int| 0 <= i < self.num_dirs() ==> #[trigger] self.watched_dirs@[i].wf()
        &&& forall|i: int, j: int|
            0 <= i < j < self.dirs_with_changes@.len() ==> #[trigger] self.dirs_with_changes@[i]@
                != #[trigger] self.dirs_with_changes@[j]@
        &&& forall|i: int|
            0 <= i < self.dirs_with_changes@.len() ==> self.has_target(
                #[trigger] self.dirs_with_changes@[i]@,
            )
    }

    /// An event at `path` marks the watched root `root` as changed: the
    /// event is no pure read, it is not about the configuration file, and
    /// `root` owns the deepest registered ancestor of `path`.
    pub open spec fn event_marks(&self, kind: FsEventKind, path: Seq<u8>, root: Seq<u8>) -> bool {
        &&& kind != FsEventKind::Access
        &&& path != self.config_path@
        &&& exists|j: int| #[trigger]
            self.dir_trie.is_deepest_match(j, path) && self.dir_trie.owner_at(j) == root
    }

    /// One of the first `n` events of `events` marks `root` as changed.
    pub open spec fn marks_before(&self, events: Seq<FsEvent>, n: int, root: Seq<u8>) -> bool {
        exists|k: int|
            0 <= k < n && self.event_marks(#[trigger] events[k].kind, events[k].path@, root)
    }

    /// Some event of `events` marks `root` as changed.
    pub open spec fn some_event_marks(&self, events: Seq<FsEvent>, root: Seq<u8>) -> bool {
        self.marks_before(events, events.len() as int, root)
    }

    /// One of the first `n` events of `events` touches the configuration
    /// file.
    pub open spec fn hits_config_before(&self, events: Seq<FsEvent>, n: int) -> bool {
        exists|k: int|
            0 <= k < n && (#[trigger] events[k].kind) != FsEventKind::Access && events[k].path@
                == self.config_path@
    }

    /// Some event of `events` touches the configuration file.
    pub open spec fn some_event_hits_config(&self, events: Seq<FsEvent>) -> bool {
        self.hits_config_before(events, events.len() as int)
    }

    /// An empty registry bound to its configuration file path.
    pub fn new(config_path: Vec<u8>, should_watch_changes: bool) -> (c: Config)
        ensures
            c.wf(),
            c.num_dirs() == 0,
            c.dirs_with_changes@.len() == 0,
            c.config_path@ == config_path@,
            c.is_watching_changes == should_watch_changes,
    {
        Config {
            config_path,
            watched_dirs: Vec::new(),
            dir_trie: PrefixIndex::new(),
            dirs_with_changes: Vec::new(),
            is_watching_changes: should_watch_changes,
        }
    }

    /// Inserts a policy into the registry. Re-adding a watched target
    /// replaces its policy; a first-time target is also registered in the
    /// prefix index. Returns whether the target is new — only then does the
    /// caller owe it a filesystem subscription.
    pub fn add_watched_dir(&mut self, wd: WatchDir) -> (is_new: bool)
        requires
            old(self).wf(),
            wd.wf(),
        ensures
            final(self).wf(),
            is_new == !old(self).has_target(wd.target_dir@),
            forall|t: Seq<u8>|
                final(self).has_target(t) <==> old(self).has_target(t) || t == wd.target_dir@,
            final(self).config_path@ == old(self).config_path@,
            final(self).is_watching_changes == old(self).is_watching_changes,
            final(self).dirs_with_changes == old(self).dirs_with_changes,
            is_new ==> final(self).num_dirs() == old(self).num_dirs() + 1
                && final(self).watched_dirs@[old(self).num_dirs()] == wd
                && forall|i: int|
                    0 <= i < old(self).num_dirs()
                        ==> #[trigger] final(self).watched_dirs@[i] == old(self).watched_dirs@[i],
            !is_new ==> final(self).num_dirs() == old(self).num_dirs() && forall|i: int|
                0 <= i < old(self).num_dirs() ==> #[trigger] final(self).watched_dirs@[i] == (
                if old(self).target_at(i) == wd.target_dir@ {
                    wd
                } else {
                    old(self).watched_dirs@[i]
                }),
    {
        let found = find_watched(&self.watched_dirs, &wd.target_dir);
        match found {
            Some(i) => {
                proof {
                    assert(old(self).target_at(i as int) == wd.target_dir@);
                    assert(old(self).has_target(wd.target_dir@));
                }
                self.watched_dirs.set(i, wd);
                proof {
                    assert forall|t: Seq<u8>| self.has_target(t) implies old(self).has_target(t)
                        || t == wd.target_dir@ by {
                        let w = choose|w: int|
                            0 <= w < self.num_dirs() && self.target_at(w) == t;
                        if w != i as int {
                            assert(old(self).target_at(w) == t);
                        }
                    }
                    assert forall|t: Seq<u8>|
                        old(self).has_target(t) || t == wd.target_dir@ implies self.has_target(
                        t,
                    ) by {
                        if old(self).has_target(t) {
                            let w = choose|w: int|
                                0 <= w < old(self).num_dirs() && old(self).target_at(w) == t;
                            if w == i as int {
                                assert(self.target_at(w) == wd.target_dir@);
                                assert(old(self).target_at(w) == wd.target_dir@);
                            } else {
                                assert(self.target_at(w) == t);
                            }
                        } else {
                            assert(self.target_at(i as int) == t);
                        }
                    }
                    assert forall|a: int, b: int| 0 <= a < b < self.num_dirs() implies self
                        .target_at(a) != self.target_at(b) by {
                        assert(old(self).target_at(a) != old(self).target_at(b));
                        assert(old(self).target_at(i as int) == wd.target_dir@);
                    }
                }
                false
            },
            None => {
                let key = bytes_clone(&wd.target_dir);
                let owner = bytes_clone(&wd.target_dir);
                proof {
                    assert(self.dir_trie.wf()) by {
                        assert forall|a: int, b: int|
                            0 <= a < b < self.dir_trie.spec_len() implies #[trigger] self.dir_trie
                            .key_at(a) != #[trigger] self.dir_trie.key_at(b) by {
                            assert(self.dir_trie.key_at(a) == self.target_at(a));
                            assert(self.dir_trie.key_at(b) == self.target_at(b));
                        }
                    }
                    assert(!self.dir_trie.has_key(wd.target_dir@)) by {
                        if self.dir_trie.has_key(wd.target_dir@) {
                            let w = choose|w: int|
                                0 <= w < self.dir_trie.spec_len() && self.dir_trie.key_at(w)
                                    == wd.target_dir@;
                            assert(self.target_at(w) == wd.target_dir@);
                        }
                    }
                }
                self.dir_trie.insert(key, owner);
                self.watched_dirs.push(wd);
                proof {
                    assert(self.target_at(self.num_dirs() - 1) == wd.target_dir@);
                    assert forall|t: Seq<u8>| self.has_target(t) implies old(self).has_target(t)
                        || t == wd.target_dir@ by {
                        let w = choose|w: int|
                            0 <= w < self.num_dirs() && self.target_at(w) == t;
                        if w < old(self).num_dirs() {
                            assert(old(self).target_at(w) == t);
                        }
                    }
                    assert forall|t: Seq<u8>|
                        old(self).has_target(t) || t == wd.target_dir@ implies self.has_target(
                        t,
                    ) by {
                        if old(self).has_target(t) {
                            let w = choose|w: int|
                                0 <= w < old(self).num_dirs() && old(self).target_at(w) == t;
                            assert(self.target_at(w) == t);
                        }
                    }
                    assert forall|a: int, b: int| 0 <= a < b < self.num_dirs() implies self
                        .target_at(a) != self.target_at(b) by {
                        if b == self.num_dirs() - 1 {
                            assert(old(self).target_at(a) != wd.target_dir@);
                            assert(self.target_at(a) == old(self).target_at(a));
                        } else {
                            assert(old(self).target_at(a) != old(self).target_at(b));
                        }
                    }
                    assert forall|i: int|
                        0 <= i < self.dirs_with_changes@.len() implies self.has_target(
                        #[trigger] self.dirs_with_changes@[i]@,
                    ) by {
                        assert(old(self).has_target(self.dirs_with_changes@[i]@));
                    }
                }
                true
            },
        }
    }

    /// Adds `root` to the pending-changed set, keeping it a set.
    fn note_pending(&mut self, root: &Vec<u8>)
        requires
            old(self).wf(),
            old(self).has_target(root@),
        ensures
            final(self).wf(),
            final(self).watched_dirs == old(self).watched_dirs,
            final(self).dir_trie == old(self).dir_trie,
            final(self).config_path == old(self).config_path,
            final(self).is_watching_changes == old(self).is_watching_changes,
            forall|t: Seq<u8>|
                final(self).pending_contains(t) <==> old(self).pending_contains(t) || t == root@,
    {
        match find_bytes(&self.dirs_with_changes, root) {
            Some(i) => {
                proof {
                    assert(old(self).dirs_with_changes@[i as int]@ == root@);
                    assert(old(self).pending_contains(root@));
                }
            },
            None => {
                let owned = bytes_clone(root);
                self.dirs_with_changes.push(owned);
                proof {
                    let n = self.dirs_with_changes@.len() - 1;
                    assert(self.dirs_with_changes@[n]@ == root@);
                    assert forall|t: Seq<u8>| self.pending_contains(t) implies old(
                        self,
                    ).pending_contains(t) || t == root@ by {
                        let w = choose|w: int|
                            0 <= w < self.dirs_with_changes@.len() && self.dirs_with_changes@[w]@
                                == t;
                        if w < n {
                            assert(old(self).dirs_with_changes@[w]@ == t);
                        }
                    }
                    assert forall|t: Seq<u8>|
                        old(self).pending_contains(t) || t == root@ implies self.pending_contains(
                        t,
                    ) by {
                        if old(self).pending_contains(t) {
                            let w = choose|w: int|
                                0 <= w < old(self).dirs_with_changes@.len() && old(
                                    self,
                                ).dirs_with_changes@[w]@ == t;
                            assert(self.dirs_with_changes@[w]@ == t);
                        }
                    }
                    assert forall|a: int, b: int|
                        0 <= a < b < self.dirs_with_changes@.len() implies #[trigger] self
                        .dirs_with_changes@[a]@ != #[trigger] self.dirs_with_changes@[b]@ by {
                        if b == n {
                            assert(old(self).dirs_with_changes@[a]@ != root@);
                        } else {
                            assert(old(self).dirs_with_changes@[a]@ != old(
                                self,
                            ).dirs_with_changes@[b]@);
                        }
                    }
                    assert forall|i2: int|
                        0 <= i2 < self.dirs_with_changes@.len() implies old(self).has_target(
                        #[trigger] self.dirs_with_changes@[i2]@,
                    ) by {
                        if i2 < n {
                            assert(old(self).has_target(old(self).dirs_with_changes@[i2]@));
                        }
                    }
                    lemma_wf_pending_change(old(self), self);
                }
            },
        }
    }

    /// Classifies a batch of drained filesystem events. Pure reads are
    /// ignored; an event at the configuration file asks the caller for a
    /// reload (returned flag); any other event is routed through the prefix
    /// index and, when a watched root owns it, that root joins the
    /// pending-changed set. Events whose path no watched root owns are
    /// skipped, never an error.
    pub fn update_if_changed(&mut self, events: &Vec<FsEvent>) -> (reload: bool)
        requires
            old(self).wf(),
        ensures
            final(self).wf(),
            final(self).watched_dirs == old(self).watched_dirs,
            final(self).dir_trie == old(self).dir_trie,
            final(self).config_path == old(self).config_path,
            final(self).is_watching_changes == old(self).is_watching_changes,
            reload == old(self).some_event_hits_config(events@),
            forall|t: Seq<u8>|
                final(self).pending_contains(t) <==> old(self).pending_contains(t) || old(
                    self,
                ).some_event_marks(events@, t),
    {
        let ghost orig: Config = *old(self);
        let mut reload = false;
        let mut i: usize = 0;
        while i < events.len()
            invariant
                i <= events@.len(),
                self.wf(),
                self.watched_dirs == orig.watched_dirs,
                self.dir_trie == orig.dir_trie,
                self.config_path == orig.config_path,
                self.is_watching_changes == orig.is_watching_changes,
                reload == orig.hits_config_before(events@, i as int),
                pending_extended(*self, orig, events@, i as int),
            decreases events.len() - i,
        {
            let ghost pre: Config = *self;
            proof {
                assert forall|t: Seq<u8>|
                    self.pending_contains(t) <==> orig.pending_contains(t) || orig.marks_before(
                        events@,
                        i as int,
                        t,
                    ) by {
                    assert(pending_extended(*self, orig, events@, i as int));
                }
            }
            let ev = &events[i];
            let mut routed: Option<Vec<u8>> = None;
            let mut hit_config = false;
            match ev.kind {
                FsEventKind::Access => {},
                _ => {
                    if bytes_eq(&ev.path, &self.config_path) {
                        hit_config = true;
                        reload = true;
                    } else {
                        routed = self.dir_trie.lookup(&ev.path);
                    }
                },
            }
            match &routed {
                Some(owner) => {
                    proof {
                        let j = choose|j: int| #[trigger]
                            self.dir_trie.is_deepest_match(j, ev.path@) && self.dir_trie.owner_at(
                                j,
                            ) == owner@;
                        assert(self.dir_trie.is_deepest_match(j, ev.path@));
                        assert(0 <= j < self.dir_trie.spec_len());
                        assert(self.dir_trie.owner_at(j) == self.target_at(j));
                        assert(self.has_target(owner@));
                    }
                    self.note_pending(owner);
                    proof {
                        assert(orig.event_marks(events@[i as int].kind, events@[i as int].path@, owner@)) by {
                            assert(events@[i as int].path@ == ev.path@);
                            assert(pre.dir_trie == orig.dir_trie);
                        }
                        assert(self.dir_trie.wf()) by {
                            assert forall|a: int, b: int|
                                0 <= a < b < self.dir_trie.spec_len() implies #[trigger] self
                                .dir_trie.key_at(a) != #[trigger] self.dir_trie.key_at(b) by {
                                assert(self.dir_trie.key_at(a) == self.target_at(a));
                                assert(self.dir_trie.key_at(b) == self.target_at(b));
                            }
                        }
                        assert forall|t: Seq<u8>|
                            orig.event_marks(
                                events@[i as int].kind,
                                events@[i as int].path@,
                                t,
                            ) implies t == owner@ by {
                            let j1 = choose|j1: int| #[trigger]
                                orig.dir_trie.is_deepest_match(j1, events@[i as int].path@)
                                    && orig.dir_trie.owner_at(j1) == t;
                            let j2 = choose|j2: int| #[trigger]
                                self.dir_trie.is_deepest_match(j2, ev.path@) && self.dir_trie
                                .owner_at(j2) == owner@;
                            self.dir_trie.lemma_deepest_unique(ev.path@, j1, j2);
                        }
                        assert forall|t: Seq<u8>|
                            self.pending_contains(t) <==> orig.pending_contains(t)
                                || orig.marks_before(events@, i + 1 as int, t) by {
                            if self.pending_contains(t) {
                                assert(pre.pending_contains(t) || t == owner@);
                                if pre.pending_contains(t) {
                                    if orig.marks_before(events@, i as int, t) {
                                        let k = choose|k: int|
                                            0 <= k < i && orig.event_marks(
                                                #[trigger] events@[k].kind,
                                                events@[k].path@,
                                                t,
                                            );
                                        assert(orig.marks_before(events@, i + 1 as int, t));
                                    }
                                } else {
                                    assert(orig.event_marks(
                                        events@[i as int].kind,
                                        events@[i as int].path@,
                                        t,
                                    ));
                                    assert(orig.marks_before(events@, i + 1 as int, t));
                                }
                            }
                            if orig.pending_contains(t) {
                                assert(pre.pending_contains(t));
                                assert(self.pending_contains(t));
                            }
                            if orig.marks_before(events@, i + 1 as int, t) {
                                let k = choose|k: int|
                                    0 <= k < i + 1 && orig.event_marks(
                                        #[trigger] events@[k].kind,
                                        events@[k].path@,
                                        t,
                                    );
                                if k == i as int {
                                    assert(t == owner@);
                                    assert(self.pending_contains(t));
                                } else {
                                    assert(orig.marks_before(events@, i as int, t));
                                    assert(pre.pending_contains(t));
                                    assert(self.pending_contains(t));
                                }
                            }
                        }
                        assert(orig.hits_config_before(events@, i + 1 as int)
                            == orig.hits_config_before(events@, i as int)) by {
                            if orig.hits_config_before(events@, i + 1 as int)
                                && !orig.hits_config_before(events@, i as int) {
                                let k = choose|k: int|
                                    0 <= k < i + 1 && (#[trigger] events@[k].kind)
                                        != FsEventKind::Access && events@[k].path@
                                        == orig.config_path@;
                                assert(k == i as int);
                                assert(ev.path@ != orig.config_path@);
                                assert(false);
                            }
                            if orig.hits_config_before(events@, i as int) {
                                let k = choose|k: int|
                                    0 <= k < i && (#[trigger] events@[k].kind)
                                        != FsEventKind::Access && events@[k].path@
                                        == orig.config_path@;
                                assert(orig.hits_config_before(events@, i + 1 as int));
                            }
                        }
                    }
                },
                None => {
                    proof {
                        assert forall|t: Seq<u8>|
                            orig.marks_before(events@, i + 1 as int, t) implies orig.marks_before(
                            events@,
                            i as int,
                            t,
                        ) by {
                            let k = choose|k: int|
                                0 <= k < i + 1 && orig.event_marks(
                                    #[trigger] events@[k].kind,
                                    events@[k].path@,
                                    t,
                                );
                            if k == i as int {
                                assert(events@[k].kind != FsEventKind::Access);
                                assert(events@[k].path@ == ev.path@);
                                if hit_config {
                                    assert(events@[k].path@ == orig.config_path@);
                                } else {
                                    match ev.kind {
                                        FsEventKind::Access => {},
                                        _ => {
                                            let j = choose|j: int| #[trigger]
                                                orig.dir_trie.is_deepest_match(j, events@[k].path@)
                                                    && orig.dir_trie.owner_at(j) == t;
                                            assert(is_path_ancestor(
                                                orig.dir_trie.key_at(j),
                                                ev.path@,
                                            ));
                                            assert(false);
                                        },
                                    }
                                }
                            }
                        }
                        assert forall|t: Seq<u8>|
                            orig.marks_before(events@, i as int, t) implies orig.marks_before(
                            events@,
                            i + 1 as int,
                            t,
                        ) by {
                            let k = choose|k: int|
                                0 <= k < i && orig.event_marks(
                                    #[trigger] events@[k].kind,
                                    events@[k].path@,
                                    t,
                                );
                        }
                        assert forall|t: Seq<u8>|
                            self.pending_contains(t) <==> orig.pending_contains(t)
                                || orig.marks_before(events@, i + 1 as int, t) by {
                            assert(self.pending_contains(t) <==> orig.pending_contains(t)
                                || orig.marks_before(events@, i as int, t));
                        }
                        if hit_config {
                            assert(orig.hits_config_before(events@, i + 1 as int));
                        } else {
                            assert(orig.hits_config_before(events@, i + 1 as int)
                                == orig.hits_config_before(events@, i as int)) by {
                                if orig.hits_config_before(events@, i + 1 as int)
                                    && !orig.hits_config_before(events@, i as int) {
                                    let k = choose|k: int|
                                        0 <= k < i + 1 && (#[trigger] events@[k].kind)
                                            != FsEventKind::Access && events@[k].path@
                                            == orig.config_path@;
                                    assert(k == i as int);
                                    match ev.kind {
                                        FsEventKind::Access => {
                                            assert(false);
                                        },
                                        _ => {
                                            assert(ev.path@ != orig.config_path@);
                                            assert(false);
                                        },
                                    }
                                }
                                if orig.hits_config_before(events@, i as int) {
                                    let k = choose|k: int|
                                        0 <= k < i && (#[trigger] events@[k].kind)
                                            != FsEventKind::Access && events@[k].path@
                                            == orig.config_path@;
                                    assert(orig.hits_config_before(events@, i + 1 as int));
                                }
                            }
                        }
                    }
                },
            }
            proof {
                assert(pending_extended(*self, orig, events@, i + 1 as int)) by {
                    assert forall|t: Seq<u8>|
                        self.pending_contains(t) <==> orig.pending_contains(t)
                            || orig.marks_before(events@, i + 1 as int, t) by {
                        assert(self.pending_contains(t) <==> orig.pending_contains(t)
                            || orig.marks_before(events@, i + 1 as int, t));
                    }
                }
            }
            i += 1;
        }
        proof {
            assert forall|t: Seq<u8>|
                self.pending_contains(t) <==> old(self).pending_contains(t) || old(
                    self,
                ).some_event_marks(events@, t) by {
                assert(pending_extended(*self, orig, events@, events@.len() as int));
            }
        }
        reload
    }

    /// Merges configuration entries re-read from disk: every target absent
    /// from the registry is inserted and returned (the caller owes each a
    /// filesystem subscription); entries already watched are left untouched,
    /// even if the file changed them, and targets removed from the file are
    /// not un-watched.
    pub fn merge_loaded(&mut self, loaded: Vec<WatchDir>) -> (added: Vec<Vec<u8>>)
        requires
            old(self).wf(),
            forall|i: int| 0 <= i < loaded@.len() ==> #[trigger] loaded@[i].wf(),
        ensures
            final(self).wf(),
            final(self).config_path == old(self).config_path,
            final(self).is_watching_changes == old(self).is_watching_changes,
            final(self).dirs_with_changes == old(self).dirs_with_changes,
            old(self).num_dirs() <= final(self).num_dirs(),
            forall|i: int|
                0 <= i < old(self).num_dirs() ==> #[trigger] final(self).watched_dirs@[i] == old(
                    self,
                ).watched_dirs@[i],
            forall|t: Seq<u8>|
                final(self).has_target(t) <==> old(self).has_target(t) || loaded_has(loaded@, t),
            forall|t: Seq<u8>|
                seq_holds(added@, t) <==> !old(self).has_target(t) && loaded_has(loaded@, t),
            merged_pinned(*final(self), *old(self), loaded@),
    {
        let ghost orig: Config = *old(self);
        let ghost all: Seq<WatchDir> = loaded@;
        let mut rest = loaded;
        let mut added: Vec<Vec<u8>> = Vec::new();
        let ghost mut processed: int = 0;
        while rest.len() > 0
            invariant
                0 <= processed,
                processed + rest@.len() == all.len(),
                rest@ == all.subrange(processed, all.len() as int),
                forall|i: int| 0 <= i < all.len() ==> #[trigger] all[i].wf(),
                self.wf(),
                self.config_path == orig.config_path,
                self.is_watching_changes == orig.is_watching_changes,
                self.dirs_with_changes == orig.dirs_with_changes,
                orig.num_dirs() <= self.num_dirs(),
                forall|i: int|
                    0 <= i < orig.num_dirs() ==> #[trigger] self.watched_dirs@[i]
                        == orig.watched_dirs@[i],
                targets_extended(*self, orig, all, processed),
                added_matches(added@, orig, all, processed),
                forall|k: int| 0 <= k < processed ==> self.has_target(#[trigger] all[k].target_dir@),
                merged_pinned(*self, orig, all),
            decreases rest.len(),
        {
            let ghost pre: Config = *self;
            let ghost added_pre: Seq<Vec<u8>> = added@;
            let wd = rest.remove(0);
            proof {
                assert(wd == all[processed]);
                assert(wd.wf());
                assert(all.subrange(processed, all.len() as int).subrange(
                    1,
                    (all.len() - processed) as int,
                ) =~= all.subrange(processed + 1, all.len() as int));
                assert(all.subrange(0, processed + 1) =~= all.subrange(0, processed).push(
                    all[processed],
                ));
            }
            let found = find_watched(&self.watched_dirs, &wd.target_dir);
            match found {
                Some(fi) => {
                    proof {
                        assert(self.target_at(fi as int) == wd.target_dir@);
                        assert(self.has_target(wd.target_dir@));
                        assert(orig.has_target(wd.target_dir@) || loaded_has(
                            all.subrange(0, processed),
                            wd.target_dir@,
                        ));
                        assert forall|t: Seq<u8>| self.has_target(t) <==> orig.has_target(t)
                            || loaded_has(all.subrange(0, processed + 1), t) by {
                            lemma_loaded_has_extend(all, processed, t);
                            assert(self.has_target(t) <==> orig.has_target(t) || loaded_has(
                                all.subrange(0, processed),
                                t,
                            ));
                        }
                        assert(targets_extended(*self, orig, all, processed + 1));
                        assert forall|t: Seq<u8>| seq_holds(added@, t) <==> !orig.has_target(t)
                            && loaded_has(all.subrange(0, processed + 1), t) by {
                            lemma_loaded_has_extend(all, processed, t);
                            assert(seq_holds(added@, t) <==> !orig.has_target(t) && loaded_has(
                                all.subrange(0, processed),
                                t,
                            ));
                            assert(orig.has_target(wd.target_dir@) || loaded_has(
                                all.subrange(0, processed),
                                wd.target_dir@,
                            ));
                        }
                        assert(added_matches(added@, orig, all, processed + 1));
                        assert forall|k: int| 0 <= k < processed + 1 implies self.has_target(
                            #[trigger] all[k].target_dir@,
                        ) by {
                            if k == processed {
                                assert(self.has_target(wd.target_dir@));
                            }
                        }
                        processed = processed + 1;
                    }
                },
                None => {
                    let key = bytes_clone(&wd.target_dir);
                    let owner = bytes_clone(&wd.target_dir);
                    proof {
                        assert(self.dir_trie.wf()) by {
                            assert forall|a: int, b: int|
                                0 <= a < b < self.dir_trie.spec_len() implies #[trigger] self
                                .dir_trie.key_at(a) != #[trigger] self.dir_trie.key_at(b) by {
                                assert(self.dir_trie.key_at(a) == self.target_at(a));
                                assert(self.dir_trie.key_at(b) == self.target_at(b));
                            }
                        }
                        assert(!self.dir_trie.has_key(wd.target_dir@)) by {
                            if self.dir_trie.has_key(wd.target_dir@) {
                                let w = choose|w: int|
                                    0 <= w < self.dir_trie.spec_len() && self.dir_trie.key_at(w)
                                        == wd.target_dir@;
                                assert(self.target_at(w) == wd.target_dir@);
                            }
                        }
                    }
                    self.dir_trie.insert(key, owner);
                    added.push(bytes_clone(&wd.target_dir));
                    self.watched_dirs.push(wd);
                    proof {
                        assert(self.target_at(self.num_dirs() - 1) == wd.target_dir@);
                        assert forall|a: int, b: int| 0 <= a < b < self.num_dirs() implies self
                            .target_at(a) != self.target_at(b) by {
                            if b == self.num_dirs() - 1 {
                                assert(pre.target_at(a) != wd.target_dir@);
                                assert(self.target_at(a) == pre.target_at(a));
                            } else {
                                assert(pre.target_at(a) != pre.target_at(b));
                            }
                        }
                        assert forall|i2: int|
                            0 <= i2 < self.dirs_with_changes@.len() implies self.has_target(
                            #[trigger] self.dirs_with_changes@[i2]@,
                        ) by {
                            assert(pre.has_target(pre.dirs_with_changes@[i2]@));
                            let w = choose|w: int|
                                0 <= w < pre.num_dirs() && pre.target_at(w)
                                    == pre.dirs_with_changes@[i2]@;
                            assert(self.target_at(w) == self.dirs_with_changes@[i2]@);
                        }
                        assert forall|t: Seq<u8>| self.has_target(t) <==> orig.has_target(t)
                            || loaded_has(all.subrange(0, processed + 1), t) by {
                            lemma_loaded_has_extend(all, processed, t);
                            assert(pre.has_target(t) <==> orig.has_target(t) || loaded_has(
                                all.subrange(0, processed),
                                t,
                            ));
                            if self.has_target(t) {
                                let w = choose|w: int|
                                    0 <= w < self.num_dirs() && self.target_at(w) == t;
                                if w < pre.num_dirs() {
                                    assert(pre.target_at(w) == t);
                                    assert(pre.has_target(t));
                                } else {
                                    assert(t == wd.target_dir@);
                                }
                            }
                            if orig.has_target(t) || (!orig.has_target(t) && loaded_has(
                                all.subrange(0, processed),
                                t,
                            )) {
                                assert(pre.has_target(t));
                                let w = choose|w: int|
                                    0 <= w < pre.num_dirs() && pre.target_at(w) == t;
                                assert(self.target_at(w) == t);
                            }
                            if t == wd.target_dir@ {
                                assert(self.target_at(self.num_dirs() - 1) == t);
                            }
                        }
                        assert(targets_extended(*self, orig, all, processed + 1));
                        assert(added_matches(added@, orig, all, processed + 1)) by {
                            assert forall|t: Seq<u8>|
                            #![trigger seq_holds(added@, t)]
                            #![trigger loaded_has(all.subrange(0, processed + 1), t)]
                            seq_holds(added@, t) <==> !orig.has_target(t)
                            && loaded_has(all.subrange(0, processed + 1), t) by {
                            lemma_loaded_has_extend(all, processed, t);
                            assert(seq_holds(added_pre, t) <==> !orig.has_target(t) && loaded_has(
                                all.subrange(0, processed),
                                t,
                            ));
                            assert(added@[added@.len() - 1]@ == wd.target_dir@);
                            if seq_holds(added@, t) {
                                let w = choose|w: int|
                                    #![trigger added@[w]]
                                    0 <= w < added@.len() && added@[w]@ == t;
                                if w < added_pre.len() {
                                    assert(added_pre[w]@ == t);
                                    assert(seq_holds(added_pre, t));
                                } else {
                                    assert(t == wd.target_dir@);
                                    if orig.has_target(t) {
                                        let w2 = choose|w2: int|
                                            0 <= w2 < orig.num_dirs() && orig.target_at(w2) == t;
                                        assert(pre.target_at(w2) == t);
                                        assert(false);
                                    }
                                }
                            }
                            if seq_holds(added_pre, t) {
                                let w = choose|w: int|
                                    #![trigger added_pre[w]]
                                    0 <= w < added_pre.len() && added_pre[w]@ == t;
                                assert(added@[w]@ == t);
                            }
                        }
                        }
                        assert forall|k: int| 0 <= k < processed + 1 implies self.has_target(
                            #[trigger] all[k].target_dir@,
                        ) by {
                            if k < processed {
                                assert(pre.has_target(all[k].target_dir@));
                                let w = choose|w: int|
                                    0 <= w < pre.num_dirs() && pre.target_at(w)
                                        == all[k].target_dir@;
                                assert(self.target_at(w) == all[k].target_dir@);
                            } else {
                                assert(self.target_at(self.num_dirs() - 1) == wd.target_dir@);
                            }
                        }
                        assert(merged_pinned(*self, orig, all)) by {
                        assert forall|i2: int|
                            orig.num_dirs() <= i2 < self.num_dirs() implies exists|j: int|
                            loaded_first_at(
                                all,
                                (#[trigger] self.watched_dirs@[i2]).target_dir@,
                                j,
                            ) && self.watched_dirs@[i2] == all[j] by {
                            assert(merged_pinned(pre, orig, all));
                            if i2 < pre.num_dirs() {
                                assert(self.watched_dirs@[i2] == pre.watched_dirs@[i2]);
                                let j = choose|j: int|
                                    loaded_first_at(all, pre.watched_dirs@[i2].target_dir@, j)
                                        && pre.watched_dirs@[i2] == all[j];
                                assert(loaded_first_at(
                                    all,
                                    self.watched_dirs@[i2].target_dir@,
                                    j,
                                ) && self.watched_dirs@[i2] == all[j]);
                            } else {
                                assert(self.watched_dirs@[i2] == wd);
                                assert forall|k: int| 0 <= k < processed implies all[k].target_dir@
                                    != wd.target_dir@ by {
                                    if all[k].target_dir@ == wd.target_dir@ {
                                        assert(pre.has_target(all[k].target_dir@));
                                        let w = choose|w: int|
                                            0 <= w < pre.num_dirs() && pre.target_at(w)
                                                == all[k].target_dir@;
                                    }
                                }
                                assert(loaded_first_at(all, wd.target_dir@, processed));
                                assert(self.watched_dirs@[i2] == all[processed]);
                            }
                        }
                        }
                        processed = processed + 1;
                    }
                },
            }
        }
        proof {
            assert(all.subrange(0, all.len() as int) =~= all);
            assert(merged_pinned(*self, *old(self), loaded@)) by {
                assert(merged_pinned(*self, orig, all));
            }
        }
        added
    }

    /// The configuration file's content for the watched policies: one JSON
    /// object mapping each target directory to its policy. Writing these
    /// bytes to the file is the caller's part.
    pub fn flush_config(&self) -> (r: Vec<u8>)
        ensures
            r@ == crate::confjson::spec_config_json(self.watched_dirs@),
    {
        crate::confjson::config_json(&self.watched_dirs)
    }

    /// A copy of the pending-changed set, without draining it.
    pub fn iter_changed_paths(&self) -> (r: Vec<Vec<u8>>)
        ensures
            r@.len() == self.dirs_with_changes@.len(),
            forall|i: int| 0 <= i < r@.len() ==> #[trigger] r@[i]@ == self.dirs_with_changes@[i]@,
    {
        let mut out: Vec<Vec<u8>> = Vec::new();
        let mut i: usize = 0;
        while i < self.dirs_with_changes.len()
            invariant
                i <= self.dirs_with_changes@.len(),
                out@.len() == i,
                forall|j: int| 0 <= j < i ==> #[trigger] out@[j]@ == self.dirs_with_changes@[j]@,
            decreases self.dirs_with_changes.len() - i,
        {
            out.push(bytes_clone(&self.dirs_with_changes[i]));
            i += 1;
        }
        out
    }

    /// Drains the pending-changed set, returning what it held.
    pub fn take_changed_paths(&mut self) -> (r: Vec<Vec<u8>>)
        requires
            old(self).wf(),
        ensures
            final(self).wf(),
            final(self).watched_dirs == old(self).watched_dirs,
            final(self).dir_trie == old(self).dir_trie,
            final(self).config_path == old(self).config_path,
            final(self).is_watching_changes == old(self).is_watching_changes,
            final(self).dirs_with_changes@.len() == 0,
            r@.len() == old(self).dirs_with_changes@.len(),
            forall|i: int|
                0 <= i < r@.len() ==> #[trigger] r@[i]@ == old(self).dirs_with_changes@[i]@,
    {
        let out = self.iter_changed_paths();
        self.dirs_with_changes.clear();
        proof {
            lemma_wf_pending_change(old(self), self);
        }
        out
    }

    /// Removes `target` from the pending-changed set: a root stays pending
    /// until a commit for it actually happens, and this is the one place
    /// that clears it.
    pub fn mark_snapshotted(&mut self, target: &Vec<u8>)
        requires
            old(self).wf(),
        ensures
            final(self).wf(),
            final(self).watched_dirs == old(self).watched_dirs,
            final(self).dir_trie == old(self).dir_trie,
            final(self).config_path == old(self).config_path,
            final(self).is_watching_changes == old(self).is_watching_changes,
            !final(self).pending_contains(target@),
            forall|t: Seq<u8>|
                t != target@ ==> (final(self).pending_contains(t) <==> old(self).pending_contains(
                    t,
                )),
    {
        let found = find_bytes(&self.dirs_with_changes, target);
        match found {
            None => {
                proof {
                    assert(!self.pending_contains(target@));
                }
            },
            Some(i) => {
                self.dirs_with_changes.remove(i);
                proof {
                    let pre = old(self).dirs_with_changes@;
                    let post = self.dirs_with_changes@;
                    assert(post =~= pre.remove(i as int));
                    assert(!self.pending_contains(target@)) by {
                        if self.pending_contains(target@) {
                            let w = choose|w: int|
                                0 <= w < post.len() && post[w]@ == target@;
                            if w < i as int {
                                assert(pre[w]@ == target@);
                                assert(pre[w]@ != pre[i as int]@);
                            } else {
                                assert(pre[w + 1]@ == target@);
                                assert(pre[i as int]@ != pre[w + 1]@);
                            }
                        }
                    }
                    assert forall|t: Seq<u8>| t != target@ implies (self.pending_contains(t)
                        <==> old(self).pending_contains(t)) by {
                        if self.pending_contains(t) {
                            let w = choose|w: int|
                                0 <= w < post.len() && post[w]@ == t;
                            if w < i as int {
                                assert(pre[w]@ == t);
                            } else {
                                assert(pre[w + 1]@ == t);
                            }
                        }
                        if old(self).pending_contains(t) {
                            let w = choose|w: int|
                                0 <= w < pre.len() && pre[w]@ == t;
                            assert(w != i as int);
                            if w < i as int {
                                assert(post[w]@ == t);
                            } else {
                                assert(post[w - 1]@ == t);
                            }
                        }
                    }
                    assert forall|a: int, b: int|
                        0 <= a < b < post.len() implies #[trigger] post[a]@ != #[trigger] post[b]@ by {
                        let a2: int = if a < i as int { a } else { a + 1 };
                        let b2: int = if b < i as int { b } else { b + 1 };
                        assert(pre[a2]@ == post[a]@);
                        assert(pre[b2]@ == post[b]@);
                        assert(pre[a2]@ != pre[b2]@);
                    }
                    assert forall|i2: int|
                        0 <= i2 < post.len() implies old(self).has_target(
                        #[trigger] post[i2]@,
                    ) by {
                        let w: int = if i2 < i as int { i2 } else { i2 + 1 };
                        assert(pre[w]@ == post[i2]@);
                        assert(old(self).has_target(pre[w]@));
                    }
                    lemma_wf_pending_change(old(self), self);
                }
            },
        }
    }

    /// The policy watching exactly `path`, if any.
    pub fn get_watched_dir(&self, path: &Vec<u8>) -> (r: Option<&WatchDir>)
        ensures
            match r {
                Some(wd) => wd.target_dir@ == path@ && exists|i: int|
                    0 <= i < self.num_dirs() && self.watched_dirs@[i] == *wd,
                None => !self.has_target(path@),
            },
    {
        let found = find_watched(&self.watched_dirs, path);
        match found {
            Some(i) => {
                proof {
                    assert(self.watched_dirs@[i as int] == self.watched_dirs@[i as int]);
                }
                Some(&self.watched_dirs[i])
            },
            None => {
                proof {
                    if self.has_target(path@) {
                        let w = choose|w: int|
                            0 <= w < self.num_dirs() && self.target_at(w) == path@;
                    }
                }
                None
            },
        }
    }

    /// All watched policies, in registration order.
    pub fn iter_watched_dirs(&self) -> (r: &Vec<WatchDir>)
        ensures
            *r == self.watched_dirs,
    {
        &self.watched_dirs
    }

    /// Takes a snapshot for the watched root `target`, and clears it from
    /// the pending-changed set exactly when a commit was created. The
    /// snapshot itself follows the store's gates: the frequency gate unless
    /// forced, and the commit-iff-changed gate.
    pub fn snapshot_root(
        &mut self,
        target: &Vec<u8>,
        force: bool,
        now: u64,
        entries: &Vec<FsEntry>,
    ) -> (r: Result<bool, StoreError>)
        requires
            old(self).wf(),
        ensures
            final(self).wf(),
            final(self).config_path == old(self).config_path,
            final(self).is_watching_changes == old(self).is_watching_changes,
            final(self).dir_trie == old(self).dir_trie,
            final(self).num_dirs() == old(self).num_dirs(),
            !old(self).has_target(target@) ==> (r matches Err(StoreError::NotWatched)
                && *final(self) == *old(self)),
            forall|i: int|
                0 <= i < old(self).num_dirs() ==> #[trigger] final(self).watched_dirs@[i]
                    .same_policy(&old(self).watched_dirs@[i]),
            r != Result::<bool, StoreError>::Ok(true) ==> final(self).watched_dirs@
                == old(self).watched_dirs@ && final(self).dirs_with_changes
                == old(self).dirs_with_changes,
            r == Result::<bool, StoreError>::Ok(true) ==> !final(self).pending_contains(target@)
                && (forall|t: Seq<u8>|
                t != target@ ==> (final(self).pending_contains(t) <==> old(self).pending_contains(
                    t,
                ))) && forall|i: int|
                0 <= i < old(self).num_dirs() && old(self).target_at(i) == target@
                    ==> #[trigger] final(self).watched_dirs@[i].last_snapshot_time == now,
            old(self).has_target(target@) ==> !(r matches Err(StoreError::NotWatched)),
            r matches Err(e) ==> e is NotWatched || e is Backend,
    {
        let found = find_watched(&self.watched_dirs, target);
        let i = match found {
            Some(i) => i,
            None => {
                return Err(StoreError::NotWatched);
            },
        };
        let ghost pre: Config = *self;
        let mut wd = self.watched_dirs.remove(i);
        let res = wd.snapshot(force, now, entries);
        self.watched_dirs.insert(i, wd);
        proof {
            assert(self.watched_dirs@ =~= pre.watched_dirs@.update(i as int, wd));
            assert forall|j: int| 0 <= j < self.num_dirs() implies #[trigger] self.watched_dirs@[j]
                .same_policy(&pre.watched_dirs@[j]) by {
                if j != i as int {
                    assert(self.watched_dirs@[j] == pre.watched_dirs@[j]);
                    assert(self.watched_dirs@[j].same_policy(&pre.watched_dirs@[j]));
                }
            }
            assert forall|a: int, b: int| 0 <= a < b < self.num_dirs() implies self.target_at(a)
                != self.target_at(b) by {
                assert(self.target_at(a) == pre.target_at(a));
                assert(self.target_at(b) == pre.target_at(b));
                assert(pre.target_at(a) != pre.target_at(b));
            }
            assert forall|j: int|
                #![trigger self.dir_trie.key_at(j)]
                #![trigger self.dir_trie.owner_at(j)]
                0 <= j < self.num_dirs() implies self.dir_trie.key_at(j) == self.target_at(j)
                && self.dir_trie.owner_at(j) == self.target_at(j) by {
                assert(pre.dir_trie.key_at(j) == pre.target_at(j));
                assert(pre.dir_trie.owner_at(j) == pre.target_at(j));
                assert(self.target_at(j) == pre.target_at(j));
            }
            assert forall|j: int| 0 <= j < self.num_dirs() implies #[trigger] self.watched_dirs@[j]
                .wf() by {
                if j != i as int {
                    assert(pre.watched_dirs@[j].wf());
                }
            }
            assert forall|i2: int|
                0 <= i2 < self.dirs_with_changes@.len() implies self.has_target(
                #[trigger] self.dirs_with_changes@[i2]@,
            ) by {
                assert(pre.has_target(pre.dirs_with_changes@[i2]@));
                let w = choose|w: int|
                    0 <= w < pre.num_dirs() && pre.target_at(w) == pre.dirs_with_changes@[i2]@;
                assert(self.target_at(w) == self.dirs_with_changes@[i2]@);
            }
            assert(self.wf());
            if res != Result::<bool, StoreError>::Ok(true) {
                assert(self.watched_dirs@ =~= pre.watched_dirs@);
            }
        }
        proof {
            assert(old(self).target_at(i as int) == target@);
            assert(old(self).has_target(target@));
        }
        if let Ok(true) = res {
            self.mark_snapshotted(target);
            proof {
                assert(self.watched_dirs@[i as int].last_snapshot_time == now);
                assert forall|j: int|
                    0 <= j < old(self).num_dirs() && old(self).target_at(j) == target@
                        implies #[trigger] self.watched_dirs@[j].last_snapshot_time == now by {
                    if j != i as int {
                        if j < i as int {
                            assert(old(self).target_at(j) != old(self).target_at(i as int));
                        } else {
                            assert(old(self).target_at(i as int) != old(self).target_at(j));
                        }
                    }
                }
            }
        }
        res
    }

    /// How long the daemon may block before the soonest watched policy is
    /// due again: the minimum over all policies of their remaining time,
    /// capped at thirty seconds and floored at one.
    pub fn next_due_secs(&self, now: u64) -> (r: u64)
        ensures
            1 <= r <= 30,
            forall|i: int|
                0 <= i < self.num_dirs() ==> r <= spec_remaining(
                    (#[trigger] self.watched_dirs@[i]).last_snapshot_time,
                    self.watched_dirs@[i].frequency_secs,
                    now,
                ),
            r == 30 || exists|i: int|
                0 <= i < self.num_dirs() && r == spec_remaining(
                    (#[trigger] self.watched_dirs@[i]).last_snapshot_time,
                    self.watched_dirs@[i].frequency_secs,
                    now,
                ),
    {
        let mut soonest: u64 = 30;
        let mut i: usize = 0;
        while i < self.watched_dirs.len()
            invariant
                i <= self.watched_dirs@.len(),
                1 <= soonest <= 30,
                forall|j: int|
                    0 <= j < i ==> soonest <= spec_remaining(
                        (#[trigger] self.watched_dirs@[j]).last_snapshot_time,
                        self.watched_dirs@[j].frequency_secs,
                        now,
                    ),
                soonest == 30 || exists|j: int|
                    0 <= j < i && soonest == spec_remaining(
                        (#[trigger] self.watched_dirs@[j]).last_snapshot_time,
                        self.watched_dirs@[j].frequency_secs,
                        now,
                    ),
            decreases self.watched_dirs.len() - i,
        {
            let last = self.watched_dirs[i].last_snapshot_time;
            let frequency = self.watched_dirs[i].frequency_secs;
            let due: u64 = if last > u64::MAX - frequency {
                u64::MAX
            } else {
                last + frequency
            };
            let gap: u64 = if due > now {
                due - now
            } else {
                0
            };
            let remaining: u64 = if gap < 1 {
                1
            } else {
                gap
            };
            proof {
                assert(remaining == spec_remaining(last, frequency, now));
            }
            if remaining < soonest {
                soonest = remaining;
            }
            i += 1;
        }
        soonest
    }

    /// A file under a watched root `t1` never marks an unrelated watched
    /// root `t2` as changed — not even when one target path is a textual
    /// byte-prefix of the other without being a path-ancestor.
    pub proof fn lemma_event_isolation(
        &self,
        t1: Seq<u8>,
        t2: Seq<u8>,
        kind: FsEventKind,
        p: Seq<u8>,
    )
        requires
            self.wf(),
            self.has_target(t1),
            self.has_target(t2),
            !is_path_ancestor(t1, t2),
            !is_path_ancestor(t2, t1),
            is_path_ancestor(t1, p),
        ensures
            !self.event_marks(kind, p, t2),
    {
        if self.event_marks(kind, p, t2) {
            let j = choose|j: int| #[trigger]
                self.dir_trie.is_deepest_match(j, p) && self.dir_trie.owner_at(j) == t2;
            let w = choose|w: int| 0 <= w < self.num_dirs() && self.target_at(w) == t1;
            assert(self.dir_trie.key_at(w) == t1);
            assert(self.dir_trie.has_key(t1));
            self.dir_trie.lemma_prefix_isolation(t1, t2, p);
            assert(self.dir_trie.key_at(j) != t2);
            assert(self.dir_trie.owner_at(j) == self.target_at(j));
            assert(self.dir_trie.key_at(j) == self.target_at(j));
        }
    }
}

} // verus!
