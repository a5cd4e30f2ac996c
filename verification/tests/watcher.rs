use std::path::PathBuf;
use std::sync::Arc;

use ztunnel::watcher::{
    AsyncFileWatcher, EntryAction, FileAction, FileEvent, FileOutcome, FileStore, LoadPhase,
    LoadStep, LoopAction, LoopEvent, ReadOutcome, Scan, ScanError, StartError, StartPhase,
    StartStep, WalkEntry, WatchLoop, WatchPhase, DEFAULT_DEBOUNCE_MS, RESCAN_INTERVAL_SECS,
};

type Store = FileStore<String, String>;

fn store() -> Store {
    FileStore::new(PathBuf::from("/watched"))
}

fn file(key: &str) -> WalkEntry<String> {
    WalkEntry::Found { is_file: true, key: Some(key.to_string()) }
}

fn directory(key: &str) -> WalkEntry<String> {
    WalkEntry::Found { is_file: false, key: Some(key.to_string()) }
}

fn content(text: &str) -> ReadOutcome {
    ReadOutcome::Content(text.to_string())
}

/// Scans files given by key and content, in traversal order.
fn scanned(files: &[(&str, &str)]) -> Result<Scan<String, String>, ScanError> {
    let walk = files.iter().map(|(key, _)| file(key)).collect();
    FileStore::scan(walk, |i| content(files[i].1), Ok::<String, ()>)
}

fn texts(store: &Store) -> Vec<String> {
    store.values().iter().map(|v| v.to_string()).collect()
}

fn first(store: &Store) -> Option<String> {
    store.first().map(|v| v.to_string())
}

#[test]
fn refresh_reconciles_duplicate_keys_and_directory_removal() {
    let mut store = store();
    let walk = vec![
        directory("watched"),
        directory("a-old"),
        file("token"),
        directory("b-new"),
        file("token"),
    ];
    let read = |i: usize| content(if i == 2 { "old" } else { "new" });
    store.load(FileStore::scan(walk, read, Ok::<String, ()>)).unwrap();
    assert_eq!(first(&store), Some("old".to_string()));
    store.load(scanned(&[("token", "new")])).unwrap();
    assert_eq!(first(&store), Some("new".to_string()));
    store.load(scanned(&[])).unwrap();
    assert!(store.first().is_none());
}

#[test]
fn failed_scan_preserves_complete_snapshot_and_retries() {
    let mut store = store();
    store.load(scanned(&[("a", "first"), ("b", "second")])).unwrap();
    let snapshot = store.values();
    let failed = FileStore::scan(vec![file("b")], |_| ReadOutcome::Unreadable, Ok::<String, ()>);
    assert_eq!(store.load(failed), Err(ScanError::Read));
    assert_eq!(store.values().len(), 2);
    for (before, after) in snapshot.iter().zip(store.values().iter()) {
        assert!(Arc::ptr_eq(before, after));
    }
    store.load(scanned(&[("b", "updated")])).unwrap();
    assert_eq!(store.values().len(), 1);
    assert_eq!(first(&store), Some("updated".to_string()));
}

#[test]
fn rescans_select_a_stable_first_key_and_cache_hits_skip_io() {
    let mut store = store();
    for files in [
        [("b", "second"), ("a", "first")],
        [("a", "first"), ("b", "second")],
        [("b", "second"), ("a", "first")],
    ] {
        store.load(scanned(&files)).unwrap();
        assert_eq!(first(&store), Some("first".to_string()));
    }
    let cached = store.first().unwrap();
    for phase in [LoadPhase::Start, LoadPhase::Locked, LoadPhase::Loaded] {
        match store.get_or_load(phase) {
            LoadStep::Return(Some(value)) => assert!(Arc::ptr_eq(&cached, &value)),
            step => panic!("{step:?}"),
        }
    }
}

#[test]
fn empty_snapshots_are_loaded_under_the_lock() {
    let store = store();
    assert!(matches!(store.get_or_load(LoadPhase::Start), LoadStep::Lock));
    assert!(matches!(store.get_or_load(LoadPhase::Locked), LoadStep::Load));
    assert!(matches!(store.get_or_load(LoadPhase::Loaded), LoadStep::Return(None)));
    assert!(matches!(
        store.get_or_load(LoadPhase::Failed(ScanError::Walk)),
        LoadStep::Fail(ScanError::Walk)
    ));
}

#[test]
fn snapshots_are_in_key_order() {
    let mut store = store();
    assert_eq!(store.path(), &PathBuf::from("/watched"));
    let files = [("m", "3"), ("\u{e9}", "6"), ("a", "1"), ("z", "5"), ("ab", "2"), ("mm", "4")];
    store.load(scanned(&files)).unwrap();
    assert_eq!(texts(&store), ["1", "2", "3", "4", "5", "6"]);
    for (key, value) in files {
        assert_eq!(store.get(&key.to_string()).unwrap().as_str(), value);
    }
    assert!(store.get(&"".to_string()).is_none());
    assert!(store.get(&"b".to_string()).is_none());
    assert!(store.get(&"zz".to_string()).is_none());
}

#[test]
fn scans_leave_out_what_is_gone_or_no_file() {
    let walk = vec![
        WalkEntry::Failed { not_found: true },
        directory("d"),
        WalkEntry::Found { is_file: true, key: None },
        file("gone"),
        file("kept"),
    ];
    let read = |i: usize| match i {
        3 => ReadOutcome::NotFound,
        4 => content("value"),
        _ => panic!("entry {i} is not to be read"),
    };
    let mut store = store();
    store.load(FileStore::scan(walk, read, Ok::<String, ()>)).unwrap();
    assert_eq!(texts(&store), ["value"]);
}

#[test]
fn a_file_that_is_gone_leaves_its_key_to_the_next_path() {
    let read = |i: usize| if i == 0 { ReadOutcome::NotFound } else { content("next") };
    let mut store = store();
    store.load(FileStore::scan(vec![file("k"), file("k")], read, Ok::<String, ()>)).unwrap();
    assert_eq!(first(&store), Some("next".to_string()));
}

#[test]
fn scans_fail_with_the_first_failure() {
    let fails = |walk, read: fn(usize) -> ReadOutcome| {
        let transform = |s: String| if s == "bad" { Err(()) } else { Ok(s) };
        FileStore::scan(walk, read, transform).err()
    };
    let broken = WalkEntry::Failed { not_found: false };
    assert_eq!(fails(vec![broken], |_| panic!("nothing to read")), Some(ScanError::Walk));
    assert_eq!(fails(vec![file("a")], |_| ReadOutcome::Unreadable), Some(ScanError::Read));
    assert_eq!(fails(vec![file("a")], |_| content("bad")), Some(ScanError::Transform));
    assert_eq!(
        fails(vec![file("a"), WalkEntry::Failed { not_found: false }], |_| content("bad")),
        Some(ScanError::Transform)
    );
    // Content is transformed before the key is found to be taken.
    assert_eq!(
        fails(vec![file("a"), file("a")], |i| content(if i == 0 { "good" } else { "bad" })),
        Some(ScanError::Transform)
    );
    assert_eq!(fails(vec![file("a")], |_| content("good")), None);
}

#[test]
fn files_are_taken_once_per_key() {
    let mut scan: Scan<String, u8> = Scan::new();
    let key = || "k".to_string();
    assert!(matches!(scan.entry(file("k")), EntryAction::Read(k) if k == "k"));
    assert!(matches!(scan.entry(directory("k")), EntryAction::Skip));
    assert!(matches!(
        scan.entry(WalkEntry::Failed { not_found: false }),
        EntryAction::Fail(ScanError::Walk)
    ));
    assert_eq!(scan.file(key(), FileOutcome::NotFound), FileAction::Skipped);
    assert_eq!(scan.file(key(), FileOutcome::Value(1)), FileAction::Taken);
    assert_eq!(scan.file(key(), FileOutcome::Value(2)), FileAction::Duplicate);
    assert_eq!(scan.file(key(), FileOutcome::Unreadable), FileAction::Fail(ScanError::Read));
    assert_eq!(scan.file(key(), FileOutcome::Rejected), FileAction::Fail(ScanError::Transform));
    let mut store: FileStore<String, u8> = FileStore::new(PathBuf::from("x"));
    store.load(Ok(scan)).unwrap();
    assert_eq!(store.first().as_deref(), Some(&1));
}

#[test]
fn watchers_start_with_the_watch() {
    let watcher = AsyncFileWatcher::new("store");
    assert_eq!(watcher.debounce_ms, DEFAULT_DEBOUNCE_MS);
    assert_eq!(DEFAULT_DEBOUNCE_MS, 500);
    assert_eq!(RESCAN_INTERVAL_SECS, 30);
    let watcher = watcher.with_debounce_ms(10);
    assert_eq!(watcher.store, "store");
    assert_eq!(watcher.start(StartPhase::Begin), StartStep::InstallWatch);
    assert_eq!(watcher.start(StartPhase::Watched(false)), StartStep::Fail(StartError::Watch));
    assert_eq!(watcher.start(StartPhase::Watched(true)), StartStep::Scan);
    assert_eq!(watcher.start(StartPhase::Scanned(false)), StartStep::Run);
    assert_eq!(watcher.start(StartPhase::Scanned(true)), StartStep::Run);
    let idle = watcher.with_debounce_ms(0);
    assert_eq!(idle.start(StartPhase::Begin), StartStep::Fail(StartError::ZeroDebounce));
}

fn running() -> WatchLoop {
    AsyncFileWatcher::new(()).with_debounce_ms(20).run()
}

#[test]
fn changes_lead_to_a_debounced_scan() {
    let mut state = running();
    assert_eq!(state.step(LoopEvent::Wake), LoopAction::Wait);
    assert!(!state.change(FileEvent::Happened { access: true, need_rescan: false }));
    assert_eq!(state.step(LoopEvent::Wake), LoopAction::Wait);
    assert!(state.change(FileEvent::Happened { access: false, need_rescan: false }));
    assert_eq!(state.step(LoopEvent::Wake), LoopAction::Sleep(20));
    // What comes during the debounce is answered by the same scan.
    assert!(state.change(FileEvent::Happened { access: true, need_rescan: true }));
    assert_eq!(state.step(LoopEvent::Elapsed), LoopAction::Refresh);
    assert_eq!(state.step(LoopEvent::Refreshed), LoopAction::Wait);
    assert_eq!(state.step(LoopEvent::Wake), LoopAction::Wait);
}

#[test]
fn changes_during_a_scan_lead_to_another() {
    let mut state = running();
    assert_eq!(state.step(LoopEvent::Tick), LoopAction::Refresh);
    assert!(state.change(FileEvent::Error));
    assert!(state.change(FileEvent::Error));
    assert_eq!(state.step(LoopEvent::Wake), LoopAction::Continue);
    assert_eq!(state.step(LoopEvent::Refreshed), LoopAction::Wait);
    assert_eq!(state.step(LoopEvent::Wake), LoopAction::Sleep(20));
    assert_eq!(state.phase, WatchPhase::Debouncing);
    assert!(!state.pending);
}

#[test]
fn periodic_scan_recovers_without_notifications() {
    let mut state = running();
    for _ in 0..3 {
        assert_eq!(state.step(LoopEvent::Tick), LoopAction::Refresh);
        assert_eq!(state.step(LoopEvent::Refreshed), LoopAction::Wait);
    }
}
