use std::sync::Arc;

use rescue_codex::json::{Json, JsonKind, JsonMember};
use rescue_codex::models::{ParsedMessage, ParserTarget};
use rescue_codex::parsers::codex_session_jsonl::{
    extract_codex_message, is_internal_scaffold_message, CodexSessionJsonlParser, JsonLine,
};
use rescue_codex::parsers::generic_json::GenericJsonParser;
use rescue_codex::parsers::generic_jsonl::GenericJsonlParser;
use rescue_codex::parsers::registry::{ParserRegistry, RegistryError};
use rescue_codex::parsers::{
    dedupe_messages, diff_seconds, iso_from_millis, message_hash, normalize_text, short_hash, timestamp_millis,
    timestamps_overlap, ParseContext, SessionIndex, SourceParser,
};

fn message(text: &str, ts: Option<&str>) -> ParsedMessage {
    ParsedMessage {
        role: Some("assistant".to_string()),
        kind: "message".to_string(),
        text: Some(text.to_string()),
        ts: ts.map(ToOwned::to_owned),
        ..Default::default()
    }
}

fn to_json(v: &serde_json::Value) -> Json {
    let text = serde_json::to_string(v).unwrap();
    let kind = match v {
        serde_json::Value::Null => JsonKind::Null,
        serde_json::Value::Bool(b) => JsonKind::Bool(*b),
        serde_json::Value::Number(n) => JsonKind::Number(n.as_i64()),
        serde_json::Value::String(s) => JsonKind::Str(s.clone()),
        serde_json::Value::Array(a) => JsonKind::Array(a.iter().map(to_json).collect()),
        serde_json::Value::Object(o) => JsonKind::Object(
            o.iter().map(|(k, v)| JsonMember { key: k.clone(), value: to_json(v) }).collect(),
        ),
    };
    Json { kind, text }
}

fn parse(text: &str) -> Json {
    to_json(&serde_json::from_str::<serde_json::Value>(text).unwrap())
}

fn context() -> ParseContext {
    ParseContext {
        source_id: "source".to_string(),
        import_id: "import".to_string(),
        abs_path: "/tmp/session.jsonl".to_string(),
        rel_path: Some("session.jsonl".to_string()),
        file_size: 10,
        mtime_ms: 0,
        fingerprint: "fp".to_string(),
        session_index: Arc::new(SessionIndex::new()),
    }
}

fn line(text: &str) -> JsonLine {
    JsonLine {
        text: text.to_string(),
        parsed: serde_json::from_str::<serde_json::Value>(text).map(|v| to_json(&v)).map_err(|e| e.to_string()),
    }
}

#[test]
fn dedupe_messages_collapses_nearby_duplicates() {
    let mut messages = vec![
        message("same payload", Some("2026-04-23T02:24:45.232Z")),
        message("same payload", Some("2026-04-23T02:24:45.233Z")),
    ];

    dedupe_messages(&mut messages);

    assert_eq!(messages.len(), 1);
}

#[test]
fn dedupe_messages_keeps_repeated_text_when_far_apart() {
    let mut messages = vec![
        message("same payload", Some("2026-04-23T02:24:45.232Z")),
        message("same payload", Some("2026-04-23T02:25:00.232Z")),
    ];

    dedupe_messages(&mut messages);

    assert_eq!(messages.len(), 2);
}

#[test]
fn filters_internal_response_messages() {
    let developer_payload = parse(
        r#"{"type": "message", "role": "developer", "content": [{"type": "input_text", "text": "<permissions instructions>secret</permissions instructions>"}]}"#,
    );
    assert!(extract_codex_message("response_item", &developer_payload, None).is_none());

    let user_payload = parse(
        r#"{"type": "message", "role": "user", "content": [{"type": "input_text", "text": "<environment_context>\n  <cwd>D:\\\\Codes\\\\rescue_codex</cwd>\n</environment_context>"}]}"#,
    );
    assert!(extract_codex_message("response_item", &user_payload, None).is_none());
    assert!(is_internal_scaffold_message(
        "<environment_context>\n  <cwd>D:\\Codes\\rescue_codex</cwd>\n</environment_context>"
    ));
}

#[test]
fn keeps_visible_assistant_response_messages() {
    let payload = parse(
        r##"{"type": "message", "role": "assistant", "phase": "final_answer", "content": [{"type": "output_text", "text": "<proposed_plan>\n# rescue_codex 第一阶段方案"}]}"##,
    );

    let message = extract_codex_message("response_item", &payload, None).expect("assistant response_item should be kept");

    assert_eq!(message.role.as_deref(), Some("assistant"));
    assert_eq!(message.phase.as_deref(), Some("final_answer"));
    assert_eq!(message.text.as_deref(), Some("<proposed_plan>\n# rescue_codex 第一阶段方案"));
}

#[test]
fn dedupe_is_idempotent_on_concrete_messages() {
    let mut messages = vec![
        message("a", Some("2026-04-23T02:24:45.232Z")),
        message("a", Some("2026-04-23T02:24:46.000Z")),
        message("b", Some("2026-04-23T02:24:46.000Z")),
        message("a", Some("2026-04-23T02:30:00.000Z")),
    ];
    dedupe_messages(&mut messages);
    let once: Vec<Option<String>> = messages.iter().map(|m| m.text.clone()).collect();
    assert_eq!(once, vec![Some("a".to_string()), Some("b".to_string()), Some("a".to_string())]);
    dedupe_messages(&mut messages);
    let twice: Vec<Option<String>> = messages.iter().map(|m| m.text.clone()).collect();
    assert_eq!(once, twice);
}

#[test]
fn dedupe_keeps_messages_of_different_roles() {
    let mut user = message("same", None);
    user.role = Some("user".to_string());
    let mut messages = vec![message("same", None), user, message("same", None)];
    dedupe_messages(&mut messages);
    assert_eq!(messages.len(), 2);
}

#[test]
fn normalize_text_collapses_white_space() {
    assert_eq!(normalize_text("  hello \n\t world  "), "hello world");
    assert_eq!(normalize_text(""), "");
    assert_eq!(normalize_text("   "), "");
}

#[test]
fn short_hash_takes_sixteen_characters() {
    assert_eq!(short_hash("0123456789abcdefXYZ"), "0123456789abcdef");
    assert_eq!(short_hash("short"), "short");
}

#[test]
fn message_hash_is_sha256_of_the_normalised_text() {
    assert_eq!(message_hash("  abc "), "ba7816bf8f01cfea414140de5dae2223b00361a396177a9cb410ff61f20015ad");
    assert_eq!(message_hash("hello   world"), "b94d27b9934d3e08a52e52d7da7dabfac484efe37a5380ee9088f7ace2efcde9");
}

#[test]
fn timestamps_parse_to_milliseconds() {
    assert_eq!(timestamp_millis("2026-04-23T02:24:45.232Z"), Some(1776911085232));
    assert_eq!(timestamp_millis("not a time"), None);
    assert_eq!(diff_seconds("2026-04-23T02:24:45Z", "2026-04-23T02:25:00Z"), Some(15));
    assert_eq!(diff_seconds("2026-04-23T02:25:00Z", "2026-04-23T02:24:45Z"), Some(0));
    assert_eq!(diff_seconds("x", "2026-04-23T02:24:45Z"), None);
    assert_eq!(iso_from_millis(0).as_deref(), Some("1970-01-01T00:00:00+00:00"));
    assert_eq!(iso_from_millis(1776911085232).as_deref(), Some("2026-04-23T02:24:45.232+00:00"));
}

#[test]
fn overlap_is_within_two_seconds() {
    assert!(timestamps_overlap(Some(1000), Some(3000)));
    assert!(!timestamps_overlap(Some(1000), Some(3001)));
    assert!(timestamps_overlap(None, None));
    assert!(!timestamps_overlap(Some(1), None));
}

#[test]
fn registry_picks_the_best_parser() {
    let registry = ParserRegistry::default();
    let codex = ParserTarget {
        abs_path: "/a.jsonl".to_string(),
        rel_path: None,
        extension: "jsonl".to_string(),
        sample: r#"{"type":"session_meta","payload":{}}"#.to_string(),
    };
    assert_eq!(registry.resolve(&codex).unwrap().key(), "codex_session_jsonl");
    let lines = ParserTarget { sample: "{}".to_string(), ..codex };
    assert_eq!(registry.resolve(&lines).unwrap().key(), "generic_jsonl");
    let json = ParserTarget {
        abs_path: "/a.json".to_string(),
        rel_path: None,
        extension: "json".to_string(),
        sample: "{}".to_string(),
    };
    assert_eq!(registry.resolve(&json).unwrap().key(), "generic_json");
    assert!(matches!(
        ParserRegistry::default().resolve(&json).map(|p| p.version()),
        Ok("1")
    ));
    let _ = RegistryError::NoParserAvailable;
}

#[test]
fn codex_parser_reads_a_session() {
    let lines = vec![
        line(r#"{"timestamp":"2026-04-23T02:24:40.000Z","type":"session_meta","payload":{"id":"abc-123","cwd":"/home/u/proj","originator":"codex_cli","cli_version":"1.0","timestamp":"2026-04-23T02:24:40.000Z"}}"#),
        line(r#"{"timestamp":"2026-04-23T02:24:45.000Z","type":"event_msg","payload":{"type":"user_message","message":"Fix the bug"}}"#),
        line(r#"{"timestamp":"2026-04-23T02:24:50.000Z","type":"event_msg","payload":{"type":"agent_message","message":"Done"}}"#),
        line("not json"),
    ];
    let result = CodexSessionJsonlParser.parse_lines(&context(), &lines);
    assert_eq!(result.parser_key, "codex_session_jsonl");
    let session = result.session.expect("a session");
    assert_eq!(session.id, "abc-123");
    assert_eq!(session.cwd.as_deref(), Some("/home/u/proj"));
    assert_eq!(session.user_message_count, 1);
    assert_eq!(session.assistant_message_count, 1);
    assert_eq!(session.first_user_message.as_deref(), Some("Fix the bug"));
    assert_eq!(result.events.len(), 3);
    assert_eq!(result.warnings.len(), 1);
    assert_eq!(session.warning_count, 1);
    assert_eq!(session.warnings_json, format!("[\"{}\"]", result.warnings[0].code));
    assert_eq!(session.duration_sec, 10);
}

#[test]
fn generic_parsers_read_messages() {
    let lines = vec![
        line(r#"{"role":"user","content":"hello","timestamp":"2026-04-23T02:24:45Z"}"#),
        line(r#"{"role":"assistant","content":"hi there","timestamp":"2026-04-23T02:24:47Z"}"#),
    ];
    let result = GenericJsonlParser.parse_lines(Some("chat".to_string()), &context(), &lines);
    assert_eq!(result.parser_key, "generic_jsonl");
    assert_eq!(result.messages.len(), 2);

    let doc = parse(r#"{"messages":[{"role":"user","content":"question"},{"role":"assistant","content":"answer"}]}"#);
    let result = GenericJsonParser.parse_document(Some("doc".to_string()), &context(), &doc);
    assert_eq!(result.parser_key, "generic_json");
    assert_eq!(result.messages.len(), 2);
    assert_eq!(result.messages[0].text.as_deref(), Some("question"));
}

#[test]
fn normalising_twice_changes_nothing() {
    for text in ["  hello \n\t world  ", "a\u{3000}b", "", " x ", "one  two   three"] {
        let once = normalize_text(text);
        assert_eq!(normalize_text(&once), once);
        assert_eq!(message_hash(&once), message_hash(text));
    }
}
