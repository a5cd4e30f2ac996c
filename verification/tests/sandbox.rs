use std::path::{Path, PathBuf};
use std::sync::Arc;

use base64::Engine;
use ztunnel::sandbox::{
    sandbox_token_key, sandbox_token_transform, token_key_of_text, SandboxManager, TokenStore,
    Workload, SANDBOX_ID_HEADER, SANDBOX_LABELS_HEADER, SANDBOX_TOKEN_HEADER,
};
use ztunnel::watcher::{
    FileOutcome, FileStore, LoadPhase, LoadStep, ReadOutcome, Scan, ScanError, StartError,
    WalkEntry,
};

type Manager = SandboxManager<Arc<TokenStore>, u32, ()>;

fn store(files: &[(&str, &str)]) -> Arc<TokenStore> {
    let mut scan: Scan<String, String> = Scan::new();
    for (name, content) in files {
        let key = sandbox_token_key(Path::new(name)).unwrap();
        let value = sandbox_token_transform(content.to_string()).unwrap();
        scan.file(key, FileOutcome::Value(value));
    }
    let mut store: TokenStore = FileStore::new(PathBuf::from("/tokens"));
    store.load(Ok(scan)).unwrap();
    Arc::new(store)
}

fn manager(files: &[(&str, &str)]) -> Manager {
    SandboxManager { store: Some(store(files)), watcher_task: None, state: () }
}

#[test]
fn token_transform_base64_encodes_bytes() {
    // "hello" -> "aGVsbG8=" (standard alphabet, with padding)
    let got = sandbox_token_transform("hello".to_string()).expect("transform");
    assert_eq!(got, "aGVsbG8=");
}

#[test]
fn token_transform_handles_empty_input() {
    // Empty input must produce empty output (not error); K8s briefly writes
    // empty files during atomic remount.
    let got = sandbox_token_transform(String::new()).expect("transform");
    assert_eq!(got, "");
}

#[test]
fn token_transform_preserves_binary_content_via_base64() {
    // Round-trip through base64 to make sure non-ASCII bytes survive.
    let raw = "tok\nwith\rweird\x00bytes";
    let encoded = sandbox_token_transform(raw.to_string()).expect("transform");
    let decoded = base64::engine::general_purpose::STANDARD
        .decode(&encoded)
        .expect("decode");
    assert_eq!(decoded.as_slice(), raw.as_bytes());
}

#[test]
fn token_transform_pads_and_uses_the_standard_alphabet() {
    let token = |s: &str| sandbox_token_transform(s.to_string()).unwrap();
    assert_eq!(token("a"), "YQ==");
    assert_eq!(token("ab"), "YWI=");
    assert_eq!(token("abc"), "YWJj");
    assert_eq!(token("~~~???"), "fn5+Pz8/");
    assert_eq!(token("\u{e9}\u{4e2d}"), "w6nkuK0=");
}

#[test]
fn tokens_can_stand_in_headers() {
    for raw in ["", "x", "\r\n\r\n", "\u{0}\u{7f}", "\u{1f600}\u{1f600}"] {
        let token = sandbox_token_transform(raw.to_string()).unwrap();
        assert!(token.chars().all(|c| ('!'..='~').contains(&c)));
    }
}

#[test]
fn token_key_extracts_file_stem() {
    let key = sandbox_token_key(&PathBuf::from("/var/opt/sandbox/sb-123.token"));
    assert_eq!(key, Some("sb-123".to_string()));
}

#[test]
fn token_key_extracts_stem_for_file_without_extension() {
    let key = sandbox_token_key(&PathBuf::from("/var/opt/sandbox/sb-456"));
    assert_eq!(key, Some("sb-456".to_string()));
}

#[test]
fn token_key_handles_k8s_atomic_mount_dotfile() {
    // K8s atomic writes create directory entries like `..data` (symlink to
    // a timestamped dir). The stem of `..data` is ".". This is acceptable: "."
    // is not a valid sandbox id, so lookups for the symlink entry return None.
    let key = sandbox_token_key(&PathBuf::from("/var/opt/sandbox/..data"));
    assert_eq!(key, Some(".".to_string()));
}

#[test]
fn token_key_returns_none_for_root_path() {
    // A path without a file component has no token key.
    assert_eq!(sandbox_token_key(&PathBuf::from("/")), None);
}

#[test]
fn token_key_strips_only_final_extension() {
    // Path like `foo.tar.gz` stems to `foo.tar`; this is fine because
    // sandbox token files are named `<id>.token`, not double-extensioned.
    let key = sandbox_token_key(&PathBuf::from("foo.tar.gz"));
    assert_eq!(key, Some("foo.tar".to_string()));
}

#[test]
fn token_keys_are_file_stems() {
    for path in [
        "", ".", "..", "./", "a/.", "a/..", "a/./", "a//", "/.", "/..", "./.", "././a.b", ".hidden",
        ".hidden.txt", "a.", "a..", "..a", "...", "a.b.", "x/y.z/w", "\u{e9}.\u{e8}", "//x//y.t//",
    ] {
        let expected = Path::new(path).file_stem().map(|s| s.to_string_lossy().to_string());
        assert_eq!(sandbox_token_key(Path::new(path)), expected, "{path:?}");
        assert_eq!(token_key_of_text(path), expected, "{path:?}");
    }
}

#[test]
fn manager_new_returns_empty_state() {
    let mgr = Manager::new(());
    assert!(mgr.list_sandbox_tokens().is_empty());
    assert!(mgr.get_sandbox_token("any-id".to_string()).is_none());
}

#[test]
fn manager_lookups_before_run_are_safe() {
    // Calling lookup methods before `run()` must not panic and must return
    // empty/None - this is the failure mode we want when the watcher fails
    // to start (e.g. directory missing in an unprivileged sandbox).
    let mgr = Manager::new(());
    let tokens = mgr.list_sandbox_tokens();
    let token = mgr.get_sandbox_token("anything".to_string());
    assert!(tokens.is_empty());
    assert!(token.is_none());
}

#[test]
fn header_constants_have_expected_values() {
    // These header names are part of the on-the-wire contract with the
    // egress gateway; changing them is a breaking change.
    assert_eq!(SANDBOX_TOKEN_HEADER, "x-agentio-sandbox-token");
    assert_eq!(SANDBOX_ID_HEADER, "x-agentio-sandbox-id");
    assert_eq!(SANDBOX_LABELS_HEADER, "x-agentio-sandbox-labels");
}

#[test]
fn replacing_and_dropping_manager_stops_watchers() {
    let mut mgr = Manager::new(());
    assert_eq!(mgr.run(Ok((store(&[]), 1))), None);
    assert_eq!(mgr.run(Ok((store(&[("a", "x")]), 2))), Some(1));
    assert_eq!(mgr.list_sandbox_tokens().len(), 1);
    // A watcher that cannot start keeps the previous one.
    assert_eq!(mgr.run(Err(StartError::Watch)), None);
    assert_eq!(mgr.list_sandbox_tokens().len(), 1);
    assert_eq!(mgr.close(), Some(2));
    assert_eq!(mgr.close(), None);
}

#[test]
fn lookups_read_the_snapshot() {
    let mgr = manager(&[("b.token", "second"), ("a.token", "first")]);
    let tokens: Vec<String> = mgr.list_sandbox_tokens().iter().map(|t| t.to_string()).collect();
    assert_eq!(tokens, vec!["Zmlyc3Q=", "c2Vjb25k"]);
    assert_eq!(mgr.get_sandbox_token("b".to_string()).unwrap().as_str(), "c2Vjb25k");
    assert!(mgr.get_sandbox_token("b.token".to_string()).is_none());
}

#[test]
fn read_through_loads_a_new_file_and_reuses_the_cache() {
    let mut tokens: TokenStore = FileStore::new(PathBuf::from("/tokens"));
    assert!(matches!(tokens.get_or_load(LoadPhase::Start), LoadStep::Lock));
    assert!(matches!(tokens.get_or_load(LoadPhase::Locked), LoadStep::Load));
    assert!(matches!(tokens.get_or_load(LoadPhase::Loaded), LoadStep::Return(None)));

    let raw = "opaque-token".repeat(7000);
    let walk = vec![
        WalkEntry::Found { is_file: false, key: Some("tokens".to_string()) },
        WalkEntry::Found { is_file: false, key: Some("nested".to_string()) },
        WalkEntry::Found { is_file: true, key: Some("sandbox".to_string()) },
    ];
    let scanned = FileStore::scan(
        walk,
        |_| ReadOutcome::Content(raw.clone()),
        sandbox_token_transform,
    );
    tokens.load(scanned).unwrap();
    let token = match tokens.get_or_load(LoadPhase::Loaded) {
        LoadStep::Return(Some(token)) => token,
        step => panic!("{step:?}"),
    };
    assert_eq!(*token, sandbox_token_transform(raw).unwrap());
    assert_eq!(tokens.get(&"sandbox".to_string()), Some(token.clone()));
    // A cached token is given back without a load.
    match tokens.get_or_load(LoadPhase::Start) {
        LoadStep::Return(cached) => assert_eq!(cached, Some(token)),
        step => panic!("{step:?}"),
    }
}

#[test]
fn read_through_preserves_empty_file_contents() {
    let mgr = manager(&[("sandbox.token", "")]);
    let loaded = mgr.store.as_ref().unwrap().first();
    assert_eq!(mgr.get_or_load_token(Ok(loaded)), Some(Arc::new(String::new())));
}

#[test]
fn read_through_does_not_require_a_single_file() {
    let mgr = manager(&[("first.token", "first"), ("second.token", "second")]);
    let loaded = mgr.store.as_ref().unwrap().first();
    let token = mgr.get_or_load_token(Ok(loaded)).unwrap();
    assert_eq!(*token, sandbox_token_transform("first".to_string()).unwrap());
}

#[test]
fn failed_read_through_falls_back_to_the_cache() {
    let mgr = manager(&[("a", "cached")]);
    let token = mgr.get_or_load_token(Err(ScanError::Read)).unwrap();
    assert_eq!(token.as_str(), "Y2FjaGVk");
    assert_eq!(manager(&[]).get_or_load_token(Err(ScanError::Walk)), None);
    assert_eq!(mgr.get_or_load_token(Ok(None)), None);
    // Without a store nothing is given back, whatever was loaded.
    let loaded = Some(Arc::new("x".to_string()));
    assert_eq!(Manager::new(()).get_or_load_token(Ok(loaded)), None);
}

#[test]
fn the_first_discovered_sandbox_is_fetched() {
    let mgr: SandboxManager<Arc<TokenStore>, (), Vec<(&str, u8)>> =
        SandboxManager::new(vec![("w1", 1), ("w2", 2), ("w1", 3)]);
    let list = |state: &Vec<(&str, u8)>, uid: &str| {
        state.iter().filter(|(w, _)| *w == uid).map(|(_, s)| Arc::new(*s)).collect::<Vec<_>>()
    };
    let fetch = |uid: &str| mgr.fetch_attested_sandbox(&Workload { uid: uid.to_string() }, list);
    assert_eq!(fetch("w1"), Some(Arc::new(1)));
    assert_eq!(fetch("w2"), Some(Arc::new(2)));
    assert_eq!(fetch("w3"), None);
}
