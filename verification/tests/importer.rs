use rescue_codex::importer::{
    background_result, common_prefix_len, detect_codex_root, extension_key, file_digest, is_supported_file,
    parsed_outcome, record_index_line, FileOutcome, ImportTally,
};
use rescue_codex::json::{Json, JsonKind, JsonMember};
use rescue_codex::parsers::codex_session_jsonl::JsonLine;
use rescue_codex::parsers::SessionIndex;
use rescue_codex::state::AppState;

fn to_json(v: &serde_json::Value) -> Json {
    let text = serde_json::to_string(v).unwrap();
    let kind = match v {
        serde_json::Value::Null => JsonKind::Null,
        serde_json::Value::Bool(b) => JsonKind::Bool(*b),
        serde_json::Value::Number(n) => JsonKind::Number(n.as_i64()),
        serde_json::Value::String(s) => JsonKind::Str(s.clone()),
        serde_json::Value::Array(a) => JsonKind::Array(a.iter().map(to_json).collect()),
        serde_json::Value::Object(o) => JsonKind::Object(
            o.iter().map(|(k, v)| JsonMember { key: k.clone(), value: to_json(v) }).collect(),
        ),
    };
    Json { kind, text }
}

fn components(path: &str) -> Vec<String> {
    path.split('/').filter(|c| !c.is_empty()).map(ToOwned::to_owned).collect()
}

#[test]
fn supported_files() {
    assert!(is_supported_file(Some("JSONL")));
    assert!(is_supported_file(Some("json")));
    assert!(!is_supported_file(Some("txt")));
    assert!(!is_supported_file(None));
    assert_eq!(extension_key(Some("JsOn")), "json");
    assert_eq!(extension_key(None), "");
}

#[test]
fn file_digests_are_sha256() {
    assert_eq!(file_digest(b"abc"), "ba7816bf8f01cfea414140de5dae2223b00361a396177a9cb410ff61f20015ad");
    assert_eq!(file_digest(b""), "e3b0c44298fc1c149afbf4c8996fb92427ae41e4649b934ca495991b7852b855");
}

#[test]
fn tallies_count_every_file_once() {
    let mut t = ImportTally::new();
    assert_eq!(t.status(), "completed");
    assert_eq!(t.record(parsed_outcome(true, 0)), (Some("imported"), None));
    assert_eq!(t.status(), "completed");
    assert_eq!(t.record(FileOutcome::Empty), (Some("empty"), Some(("warning", "empty_file"))));
    assert_eq!(t.status(), "completed_with_warnings");
    assert_eq!(t.record(parsed_outcome(false, 3)), (Some("no_session"), Some(("warning", "missing_session"))));
    assert_eq!(t.record(FileOutcome::ParseFailed), (Some("failed"), Some(("error", "parse_failed"))));
    assert_eq!(t.record(FileOutcome::MetadataFailed), (None, Some(("error", "file_metadata_failed"))));
    assert_eq!(t.record(parsed_outcome(true, 2)), (Some("imported"), None));
    assert_eq!(t.status(), "completed_with_errors");
    assert_eq!(t.files_success + t.files_failed, 6);
    assert_eq!(t.files_success, 2);
    assert_eq!(t.warnings_count, 4);
    assert_eq!(t.errors_count, 2);
    t.record_startup_warning();
    assert_eq!(t.warnings_count, 5);
}

#[test]
fn codex_homes_and_common_prefixes() {
    let paths = vec![components("/home/u/.codex/sessions/a.jsonl"), components("/home/u/.codex/archived/b.jsonl")];
    assert_eq!(common_prefix_len(&paths), Some(3));
    assert_eq!(detect_codex_root(&paths), Some((0, 3)));
    let plain = vec![components("/data/a.json"), components("/other/b.json")];
    assert_eq!(common_prefix_len(&plain), None);
    assert_eq!(detect_codex_root(&plain), None);
    assert_eq!(common_prefix_len(&vec![]), None);
    let nested = vec![components("/x/.CODEX/y/.codex/z.jsonl")];
    assert_eq!(detect_codex_root(&nested), Some((0, 4)));
}

#[test]
fn index_lines_are_read_back() {
    let mut index = SessionIndex::new();
    let line = |text: &str| JsonLine {
        text: text.to_string(),
        parsed: serde_json::from_str::<serde_json::Value>(text).map(|v| to_json(&v)).map_err(|e| e.to_string()),
    };
    record_index_line(&mut index, &line(r#"{"id":"s1","thread_name":"First","updated_at":"2026-01-01"}"#));
    record_index_line(&mut index, &line(r#"{"id":"s2"}"#));
    record_index_line(&mut index, &line("   "));
    record_index_line(&mut index, &line("{broken"));
    record_index_line(&mut index, &line(r#"{"thread_name":"no id"}"#));
    record_index_line(&mut index, &line(r#"{"id":"s1","thread_name":"Second"}"#));
    let s1 = index.get("s1").unwrap();
    assert_eq!(s1.thread_name.as_deref(), Some("Second"));
    assert_eq!(s1.updated_at, None);
    assert!(index.get("s2").unwrap().thread_name.is_none());
    assert!(index.get("s3").is_none());
}

#[test]
fn background_runs_are_reported_as_running() {
    let r = background_result("Default", "/home/u/.codex".to_string());
    assert_eq!(r.status, "running");
    assert_eq!(r.files_total, 0);
    assert_eq!(r.root_path, "/home/u/.codex");
}

#[test]
fn only_one_import_runs_at_a_time() {
    let state = AppState::new(std::path::PathBuf::from("/tmp/rescue.sqlite"));
    assert_eq!(state.db_path(), &std::path::PathBuf::from("/tmp/rescue.sqlite"));
    assert!(state.try_start_import());
    assert!(!state.clone().try_start_import());
    state.finish_import();
    assert!(state.try_start_import());
}
