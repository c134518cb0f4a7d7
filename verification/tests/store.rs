use std::io::Write;
use timem::{bytes_eq, Config, FsEntry, FsEvent, FsEventKind, LineTag, StoreError, WatchDir};

fn b(s: &str) -> Vec<u8> {
    s.as_bytes().to_vec()
}

fn bytes_of_path(p: &std::path::Path) -> Vec<u8> {
    p.to_str().unwrap().as_bytes().to_vec()
}

/// Writes `content` under `name` in `dir`, replacing any previous file.
fn write_file(dir: &std::path::Path, name: &str, content: &str) {
    let mut f = tempfile::NamedTempFile::new_in(dir).unwrap();
    f.write_all(content.as_bytes()).unwrap();
    f.persist(dir.join(name)).unwrap();
}

struct Fixture {
    _root: tempfile::TempDir,
    target: tempfile::TempDir,
    store: tempfile::TempDir,
}

impl Fixture {
    fn target_bytes(&self) -> Vec<u8> {
        bytes_of_path(self.target.path())
    }

    fn store_bytes(&self) -> Vec<u8> {
        bytes_of_path(self.store.path())
    }

    fn watchdir(&self, frequency_secs: u64, max_file_size: u64, now: u64) -> WatchDir {
        WatchDir::new(self.target_bytes(), self.store_bytes(), frequency_secs, max_file_size, now)
            .expect("store init")
    }
}

fn fixture() -> Fixture {
    let root = tempfile::tempdir().unwrap();
    let target = tempfile::Builder::new().prefix("proj").tempdir_in(root.path()).unwrap();
    let store = tempfile::Builder::new().prefix("stores").tempdir_in(root.path()).unwrap();
    Fixture { _root: root, target, store }
}

fn entry(name: &str, size: u64) -> FsEntry {
    FsEntry { rel_path: b(name), size }
}

#[test]
fn first_snapshot_commits_even_when_empty() {
    let fx = fixture();
    let mut wd = fx.watchdir(300, 0, 1000);
    let committed = wd.snapshot(true, 1000, &Vec::new()).expect("snapshot");
    assert!(committed);
    assert_eq!(wd.iter_oids().unwrap().len(), 1);
}

#[test]
fn unchanged_tree_never_commits_again() {
    let fx = fixture();
    write_file(fx.target.path(), "a.txt", "hello\n");
    let mut wd = fx.watchdir(300, 0, 1000);
    let entries = vec![entry("a.txt", 6)];
    assert!(wd.snapshot(true, 1000, &entries).unwrap());
    // Same content, even forced: the change gate refuses a second commit.
    assert!(!wd.snapshot(true, 1001, &entries).unwrap());
    assert_eq!(wd.iter_oids().unwrap().len(), 1);
}

#[test]
fn frequency_gate_rate_limits_unforced_snapshots() {
    let fx = fixture();
    write_file(fx.target.path(), "a.txt", "v1\n");
    let mut wd = fx.watchdir(300, 0, 1000);
    let entries = vec![entry("a.txt", 3)];
    // Within the interval of the load time: not due, no evaluation at all.
    assert!(!wd.snapshot(false, 1001, &entries).unwrap());
    assert_eq!(wd.iter_oids().unwrap().len(), 0);
    // Forced: always evaluated.
    assert!(wd.snapshot(true, 1001, &entries).unwrap());
    // Changed content but within the interval of the last commit: gated.
    write_file(fx.target.path(), "a.txt", "v2\n");
    assert!(!wd.snapshot(false, 1002, &entries).unwrap());
    // Once the interval has elapsed, the change is committed.
    assert!(wd.snapshot(false, 1301, &entries).unwrap());
    assert_eq!(wd.iter_oids().unwrap().len(), 2);
}

#[test]
fn oversized_entries_are_not_staged() {
    let fx = fixture();
    write_file(fx.target.path(), "small.txt", "ok\n");
    write_file(fx.target.path(), "big.bin", &"x".repeat(1000));
    let mut wd = fx.watchdir(300, 100, 1000);
    let entries = vec![entry("small.txt", 3), entry("big.bin", 1000)];
    assert!(wd.snapshot(true, 1000, &entries).unwrap());
    // Growing the oversized file changes nothing staged: no new commit.
    write_file(fx.target.path(), "big.bin", &"y".repeat(2000));
    let entries2 = vec![entry("small.txt", 3), entry("big.bin", 2000)];
    assert!(!wd.snapshot(true, 1001, &entries2).unwrap());
    assert_eq!(wd.iter_oids().unwrap().len(), 1);
}

#[test]
fn diff_of_first_commit_has_no_parent() {
    let fx = fixture();
    write_file(fx.target.path(), "a.txt", "v1\n");
    let mut wd = fx.watchdir(300, 0, 1000);
    assert!(wd.snapshot(true, 1000, &vec![entry("a.txt", 3)]).unwrap());
    let head = wd.get_head_commit().unwrap();
    assert!(matches!(wd.diff(&head, None), Err(StoreError::NoParent)));
}

#[test]
fn scenario_watch_snapshot_modify_diff() {
    // Watch a project directory with a five-minute frequency; create a
    // file; snapshot forced; snapshot again a second later unforced;
    // modify; snapshot forced; inspect history and diff.
    let fx = fixture();
    write_file(fx.target.path(), "a.txt", "one\n");
    let mut wd = fx.watchdir(300, 0, 10_000);
    let entries = vec![entry("a.txt", 4)];

    assert!(wd.snapshot(true, 10_000, &entries).unwrap());
    assert_eq!(wd.iter_oids().unwrap().len(), 1);

    assert!(!wd.snapshot(false, 10_001, &entries).unwrap());

    write_file(fx.target.path(), "a.txt", "two\n");
    assert!(wd.snapshot(true, 10_002, &entries).unwrap());
    let oids = wd.iter_oids().unwrap();
    assert_eq!(oids.len(), 2);

    let head = wd.get_head_commit().unwrap();
    let lines = wd.diff(&head, None).unwrap();
    let all: Vec<u8> = lines.iter().flat_map(|l| l.content.iter().copied()).collect();
    let text = String::from_utf8_lossy(&all);
    assert!(text.contains("a.txt"));
    assert!(lines.iter().any(|l| l.tag == LineTag::Addition && l.content == b("two\n")));
    assert!(lines.iter().any(|l| l.tag == LineTag::Removal && l.content == b("one\n")));
}

#[test]
fn diff_reports_only_entries_that_differ() {
    let fx = fixture();
    write_file(fx.target.path(), "a.txt", "alpha-first\n");
    write_file(fx.target.path(), "b.txt", "beta-stable\n");
    let mut wd = fx.watchdir(300, 0, 1000);
    let entries = vec![entry("a.txt", 12), entry("b.txt", 12)];
    assert!(wd.snapshot(true, 1000, &entries).unwrap());
    write_file(fx.target.path(), "a.txt", "alpha-second\n");
    assert!(wd.snapshot(true, 1001, &entries).unwrap());

    let head = wd.get_head_commit().unwrap();
    let lines = wd.diff(&head, None).unwrap();
    let all: Vec<u8> = lines.iter().flat_map(|l| l.content.iter().copied()).collect();
    let text = String::from_utf8_lossy(&all);
    assert!(text.contains("a.txt"));
    assert!(!text.contains("b.txt"));
    assert!(!text.contains("beta-stable"));
}

#[test]
fn restore_then_forced_snapshot_is_a_no_op() {
    let fx = fixture();
    write_file(fx.target.path(), "a.txt", "v1\n");
    let mut wd = fx.watchdir(300, 0, 1000);
    let entries = vec![entry("a.txt", 3)];
    assert!(wd.snapshot(true, 1000, &entries).unwrap());
    let first = wd.get_head_commit().unwrap();

    write_file(fx.target.path(), "a.txt", "v2\n");
    assert!(wd.snapshot(true, 1001, &entries).unwrap());
    assert_eq!(wd.iter_oids().unwrap().len(), 2);

    wd.restore_snapshot(&first, None, true).expect("restore");
    // The head is now the restored commit, so the history listed from it
    // is its own ancestry alone.
    assert_eq!(wd.get_head_commit().unwrap(), first);
    assert_eq!(wd.iter_oids().unwrap().len(), 1);

    // Restoring then re-snapshotting a quiescent tree creates no commit:
    // the materialized content is exactly the restored commit's tree.
    assert!(!wd.snapshot(true, 1002, &entries).unwrap());
    assert_eq!(wd.iter_oids().unwrap().len(), 1);
}

#[test]
fn unforced_restore_refuses_to_overwrite_dirty_files() {
    let fx = fixture();
    write_file(fx.target.path(), "a.txt", "v1\n");
    let mut wd = fx.watchdir(300, 0, 1000);
    let entries = vec![entry("a.txt", 3)];
    assert!(wd.snapshot(true, 1000, &entries).unwrap());
    let first = wd.get_head_commit().unwrap();
    write_file(fx.target.path(), "a.txt", "v2\n");
    assert!(wd.snapshot(true, 1001, &entries).unwrap());

    // The working copy drifts from the latest snapshot; an unforced
    // restore must refuse to clobber it.
    write_file(fx.target.path(), "a.txt", "uncommitted\n");
    assert!(wd.restore_snapshot(&first, None, false).is_err());

    // A forced restore overwrites unconditionally; afterwards the tree is
    // exactly the first commit's, so a forced snapshot is a no-op.
    wd.restore_snapshot(&first, None, true).expect("forced restore");
    assert!(!wd.snapshot(true, 1002, &entries).unwrap());
}

#[test]
fn restore_to_another_directory() {
    let fx = fixture();
    write_file(fx.target.path(), "a.txt", "payload\n");
    let mut wd = fx.watchdir(300, 0, 1000);
    let entries = vec![entry("a.txt", 8)];
    assert!(wd.snapshot(true, 1000, &entries).unwrap());
    let head = wd.get_head_commit().unwrap();

    let elsewhere = tempfile::tempdir().unwrap();
    let dest = bytes_of_path(elsewhere.path());
    wd.restore_snapshot(&head, Some(&dest), true).expect("restore elsewhere");
    // A restore never creates a commit.
    assert_eq!(wd.iter_oids().unwrap().len(), 1);
}

#[test]
fn commit_references_resolve() {
    let fx = fixture();
    write_file(fx.target.path(), "a.txt", "v1\n");
    let mut wd = fx.watchdir(300, 0, 1000);
    let entries = vec![entry("a.txt", 3)];
    assert!(wd.snapshot(true, 1000, &entries).unwrap());
    write_file(fx.target.path(), "a.txt", "v2\n");
    assert!(wd.snapshot(true, 1001, &entries).unwrap());

    let oids = wd.iter_oids().unwrap();
    assert_eq!(oids.len(), 2);
    let head = wd.get_commit(&b("HEAD")).unwrap();
    assert_eq!(head, oids[0]);
    assert_eq!(wd.get_commit(&b("h")).unwrap(), oids[0]);
    assert_eq!(wd.get_commit(&b("-1")).unwrap(), oids[1]);
    assert_eq!(wd.get_commit(&b("+0")).unwrap(), oids[0]);
    assert_eq!(wd.get_commit(&oids[1].clone()).unwrap(), oids[1]);
    assert!(matches!(wd.get_commit(&b("-5")), Err(StoreError::OffsetOutOfRange)));
    assert!(matches!(wd.get_commit(&b("+1")), Err(StoreError::OffsetOutOfRange)));
    assert!(matches!(wd.get_commit(&b("-x")), Err(StoreError::MalformedReference)));
    assert!(wd.get_commit(&b("zzzz")).is_err());
}

#[test]
fn histories_reopen_from_saved_policies() {
    let fx = fixture();
    write_file(fx.target.path(), "a.txt", "v1\n");
    let dotgit;
    {
        let mut wd = fx.watchdir(300, 0, 1000);
        let entries = vec![entry("a.txt", 3)];
        assert!(wd.snapshot(true, 1000, &entries).unwrap());
        dotgit = wd.dotgit_dir.clone();
    }
    // Another process loads the persisted policy and sees the history.
    let wd2 = WatchDir::from_saved(fx.target_bytes(), dotgit, 300, 0, 2000).expect("reopen");
    assert_eq!(wd2.iter_oids().unwrap().len(), 1);
    let metas = wd2.iter_commits().unwrap();
    assert_eq!(metas.len(), 1);
    assert!(metas[0].seconds > 0);
}

#[test]
fn registry_snapshot_clears_pending_only_on_commit() {
    let fx = fixture();
    write_file(fx.target.path(), "a.txt", "v1\n");
    let mut config = Config::new(b("/cfg/config.json"), true);
    let wd = fx.watchdir(300, 0, 1000);
    config.add_watched_dir(wd);

    let mut file_path = fx.target_bytes();
    file_path.extend_from_slice(b"/a.txt");
    let events = vec![FsEvent { kind: FsEventKind::Modify, path: file_path }];
    config.update_if_changed(&events);
    assert_eq!(config.iter_changed_paths().len(), 1);

    let entries = vec![entry("a.txt", 3)];
    // Unforced and not yet due: no commit, the root stays pending.
    let committed = config.snapshot_root(&fx.target_bytes(), false, 1001, &entries).unwrap();
    assert!(!committed);
    assert_eq!(config.iter_changed_paths().len(), 1);

    // Once due, the commit happens and the root leaves the pending set.
    let committed2 = config.snapshot_root(&fx.target_bytes(), false, 1301, &entries).unwrap();
    assert!(committed2);
    assert_eq!(config.iter_changed_paths().len(), 0);
    let pending_root = config.iter_changed_paths();
    assert!(pending_root.iter().all(|p| !bytes_eq(p, &fx.target_bytes())));
}

#[test]
fn empty_history_has_no_head() {
    let fx = fixture();
    let wd = fx.watchdir(300, 0, 1000);
    assert!(matches!(wd.get_head_commit(), Err(StoreError::UnresolvedReference)));
    assert_eq!(wd.iter_oids().unwrap().len(), 0);
}

#[test]
fn snapshot_of_unwatched_root_is_refused() {
    let fx = fixture();
    let mut config = Config::new(b("/cfg/config.json"), true);
    let entries: Vec<FsEntry> = Vec::new();
    let r = config.snapshot_root(&fx.target_bytes(), true, 1000, &entries);
    assert!(matches!(r, Err(StoreError::NotWatched)));
}

#[test]
fn restore_rejects_destination_with_nul_byte() {
    let fx = fixture();
    write_file(fx.target.path(), "a.txt", "v1\n");
    let mut wd = fx.watchdir(300, 0, 1000);
    assert!(wd.snapshot(true, 1000, &vec![entry("a.txt", 3)]).unwrap());
    let head = wd.get_head_commit().unwrap();

    let mut bad_dest = fx.target_bytes();
    bad_dest.push(0);
    let r = wd.restore_snapshot(&head, Some(&bad_dest), true);
    assert!(matches!(r, Err(StoreError::InvalidPath)));
}
