use timem::{bytes_eq, Config, FsEvent, FsEventKind, WatchDir};

fn b(s: &str) -> Vec<u8> {
    s.as_bytes().to_vec()
}

fn bytes_of_path(p: &std::path::Path) -> Vec<u8> {
    p.to_str().unwrap().as_bytes().to_vec()
}

/// Creates a directory with exactly this name under `parent`.
fn named_dir(parent: &std::path::Path, name: &str) -> tempfile::TempDir {
    tempfile::Builder::new().prefix(name).rand_bytes(0).tempdir_in(parent).unwrap()
}

struct Fixture {
    _base: tempfile::TempDir,
    store: tempfile::TempDir,
    dirs: Vec<tempfile::TempDir>,
}

fn fixture(names: &[&str]) -> Fixture {
    let base = tempfile::tempdir().unwrap();
    let store = tempfile::Builder::new().prefix("stores").tempdir_in(base.path()).unwrap();
    let dirs = names.iter().map(|n| named_dir(base.path(), n)).collect();
    Fixture { _base: base, store, dirs }
}

impl Fixture {
    fn target(&self, i: usize) -> Vec<u8> {
        bytes_of_path(self.dirs[i].path())
    }

    fn under(&self, i: usize, rest: &str) -> Vec<u8> {
        let mut p = self.target(i);
        p.extend_from_slice(rest.as_bytes());
        p
    }

    fn policy(&self, i: usize, frequency_secs: u64) -> WatchDir {
        WatchDir::new(self.target(i), bytes_of_path(self.store.path()), frequency_secs, 0, 1000)
            .expect("store init")
    }
}

#[test]
fn add_watched_dir_is_new_only_once() {
    let fx = fixture(&["data", "database"]);
    let mut config = Config::new(b("/cfg/config.json"), true);
    assert!(config.add_watched_dir(fx.policy(0, 100)));
    assert!(!config.add_watched_dir(fx.policy(0, 200)));
    assert!(config.add_watched_dir(fx.policy(1, 100)));
    let wd = config.get_watched_dir(&fx.target(0)).expect("watched");
    assert_eq!(wd.frequency_secs, 200);
    assert_eq!(config.iter_watched_dirs().len(), 2);
}

#[test]
fn events_route_to_owning_root_only() {
    // `data` is a textual byte-prefix of `database`, but no path-ancestor
    // of it: activity under one must never mark the other.
    let fx = fixture(&["data", "database"]);
    let mut config = Config::new(b("/cfg/config.json"), true);
    config.add_watched_dir(fx.policy(0, 100));
    config.add_watched_dir(fx.policy(1, 100));

    let events = vec![
        FsEvent { kind: FsEventKind::Modify, path: fx.under(0, "/file.txt") },
        FsEvent { kind: FsEventKind::Access, path: fx.under(1, "/read.txt") },
        FsEvent { kind: FsEventKind::Create, path: b("/elsewhere/x") },
    ];
    let reload = config.update_if_changed(&events);
    assert!(!reload);
    let pending = config.iter_changed_paths();
    assert_eq!(pending.len(), 1);
    assert!(bytes_eq(&pending[0], &fx.target(0)));
}

#[test]
fn config_file_event_asks_for_reload() {
    let fx = fixture(&["data"]);
    let mut config = Config::new(b("/cfg/config.json"), true);
    config.add_watched_dir(fx.policy(0, 100));
    let events = vec![FsEvent { kind: FsEventKind::Modify, path: b("/cfg/config.json") }];
    assert!(config.update_if_changed(&events));
    assert_eq!(config.iter_changed_paths().len(), 0);

    let access_only = vec![FsEvent { kind: FsEventKind::Access, path: b("/cfg/config.json") }];
    assert!(!config.update_if_changed(&access_only));
}

#[test]
fn merge_keeps_existing_and_adds_new_roots() {
    let fx = fixture(&["data", "fresh"]);
    let mut config = Config::new(b("/cfg/config.json"), true);
    config.add_watched_dir(fx.policy(0, 100));

    // The file was hand-edited: the first root now claims another
    // frequency, and a brand-new root appears. The existing root must stay
    // untouched; only the new one is added and owed a subscription.
    let loaded = vec![fx.policy(0, 5), fx.policy(1, 60)];
    let added = config.merge_loaded(loaded);
    assert_eq!(added.len(), 1);
    assert!(bytes_eq(&added[0], &fx.target(1)));
    assert_eq!(config.get_watched_dir(&fx.target(0)).unwrap().frequency_secs, 100);
    assert_eq!(config.get_watched_dir(&fx.target(1)).unwrap().frequency_secs, 60);

    // Removal from disk is never reflected: merging an empty load keeps all.
    let added2 = config.merge_loaded(Vec::new());
    assert_eq!(added2.len(), 0);
    assert_eq!(config.iter_watched_dirs().len(), 2);
}

#[test]
fn new_root_from_merge_becomes_routable() {
    let fx = fixture(&["proj"]);
    let mut config = Config::new(b("/cfg/config.json"), true);
    let added = config.merge_loaded(vec![fx.policy(0, 60)]);
    assert_eq!(added.len(), 1);
    let events = vec![FsEvent { kind: FsEventKind::Create, path: fx.under(0, "/new.txt") }];
    config.update_if_changed(&events);
    let pending = config.iter_changed_paths();
    assert_eq!(pending.len(), 1);
    assert!(bytes_eq(&pending[0], &fx.target(0)));
}

#[test]
fn pending_set_dedupes_and_drains() {
    let fx = fixture(&["data"]);
    let mut config = Config::new(b("/cfg/config.json"), true);
    config.add_watched_dir(fx.policy(0, 100));
    let events = vec![
        FsEvent { kind: FsEventKind::Modify, path: fx.under(0, "/a") },
        FsEvent { kind: FsEventKind::Modify, path: fx.under(0, "/b") },
        FsEvent { kind: FsEventKind::Remove, path: fx.under(0, "/a") },
    ];
    config.update_if_changed(&events);
    assert_eq!(config.iter_changed_paths().len(), 1);

    let drained = config.take_changed_paths();
    assert_eq!(drained.len(), 1);
    assert!(bytes_eq(&drained[0], &fx.target(0)));
    assert_eq!(config.iter_changed_paths().len(), 0);
}

#[test]
fn mark_snapshotted_clears_one_root() {
    let fx = fixture(&["data", "other"]);
    let mut config = Config::new(b("/cfg/config.json"), true);
    config.add_watched_dir(fx.policy(0, 100));
    config.add_watched_dir(fx.policy(1, 100));
    let events = vec![
        FsEvent { kind: FsEventKind::Modify, path: fx.under(0, "/a") },
        FsEvent { kind: FsEventKind::Modify, path: fx.under(1, "/b") },
    ];
    config.update_if_changed(&events);
    assert_eq!(config.iter_changed_paths().len(), 2);
    config.mark_snapshotted(&fx.target(0));
    let pending = config.iter_changed_paths();
    assert_eq!(pending.len(), 1);
    assert!(bytes_eq(&pending[0], &fx.target(1)));
}

#[test]
fn unwatched_target_is_not_found() {
    let config = Config::new(b("/cfg/config.json"), false);
    assert!(config.get_watched_dir(&b("/nowhere")).is_none());
}

#[test]
fn flushed_config_round_trips_through_json() {
    let fx = fixture(&["data", "database"]);
    let mut config = Config::new(b("/cfg/config.json"), true);
    config.add_watched_dir(fx.policy(0, 300));
    config.add_watched_dir(fx.policy(1, 60));

    let rendered = config.flush_config();
    let value: serde_json::Value =
        serde_json::from_str(&String::from_utf8(rendered).unwrap()).unwrap();
    let obj = value.as_object().unwrap();
    assert_eq!(obj.len(), 2);

    let key0 = String::from_utf8(fx.target(0)).unwrap();
    let entry0 = obj.get(&key0).unwrap();
    assert_eq!(entry0.get("target_dir").unwrap().as_str().unwrap(), key0);
    assert_eq!(entry0.get("frequency").unwrap().get("secs").unwrap().as_u64(), Some(300));
    assert_eq!(entry0.get("frequency").unwrap().get("nanos").unwrap().as_u64(), Some(0));
    assert_eq!(entry0.get("max_file_size").unwrap().as_u64(), Some(0));
    let dotgit = entry0.get("dotgit_dir").unwrap().as_str().unwrap();
    assert!(dotgit.ends_with("data"));

    let key1 = String::from_utf8(fx.target(1)).unwrap();
    assert_eq!(obj.get(&key1).unwrap().get("frequency").unwrap().get("secs").unwrap().as_u64(), Some(60));
}

#[test]
fn json_escaping_matches_parsers() {
    let mut out: Vec<u8> = Vec::new();
    timem::json_escape_into(&mut out, &b("plain/path"));
    assert_eq!(out, b("plain/path"));

    let mut out2: Vec<u8> = Vec::new();
    timem::json_escape_into(&mut out2, &vec![b'a', b'"', b'\\', 0x1b, b'z']);
    assert_eq!(out2, b("a\\\"\\\\\\u001bz"));

    // A quoted string built from the escape survives a real JSON parser.
    let mut quoted: Vec<u8> = vec![b'"'];
    quoted.extend_from_slice(&out2);
    quoted.push(b'"');
    let parsed: serde_json::Value =
        serde_json::from_str(&String::from_utf8(quoted).unwrap()).unwrap();
    assert_eq!(parsed.as_str().unwrap(), "a\"\\\u{1b}z");
}

#[test]
fn daemon_wait_tracks_soonest_due_policy() {
    let fx = fixture(&["data", "other"]);
    let mut config = Config::new(b("/cfg/config.json"), true);
    // With nothing watched the wait is the coarse default.
    assert_eq!(config.next_due_secs(1000), 30);

    // Policies created at time 1000 with frequencies 300 and 40.
    config.add_watched_dir(fx.policy(0, 300));
    config.add_watched_dir(fx.policy(1, 40));
    // Long before anything is due, the default still caps the wait.
    assert_eq!(config.next_due_secs(1000), 30);
    // The sooner policy (due at 1040) bounds the wait.
    assert_eq!(config.next_due_secs(1030), 10);
    // A policy past due floors the wait at one second.
    assert_eq!(config.next_due_secs(2000), 1);
}
