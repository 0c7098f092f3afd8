use rescue_codex::counts::LabelCounts;
use rescue_codex::events::{
    access_token, auth_claims_from_payload, collect_image_urls, decode_jwt_payload, extract_default_service_tier,
    extract_last_token_usage, extract_search_queries, resolve_turn_id, token_signature, tool_label,
};
use rescue_codex::json::{Json, JsonKind, JsonMember};
use rescue_codex::terms::{is_ascii_term_char, is_cjk, update_prompt_terms};
use rescue_codex::turns::{build_token_usage_summary, top_metrics_from_sessions};
use rescue_codex::models::TokenUsageSummary;

fn to_json(v: &serde_json::Value) -> Json {
    let text = serde_json::to_string(v).unwrap();
    let kind = match v {
        serde_json::Value::Null => JsonKind::Null,
        serde_json::Value::Bool(b) => JsonKind::Bool(*b),
        serde_json::Value::Number(n) => JsonKind::Number(n.as_i64()),
        serde_json::Value::String(s) => JsonKind::Str(s.clone()),
        serde_json::Value::Array(a) => JsonKind::Array(a.iter().map(to_json).collect()),
        serde_json::Value::Object(o) => JsonKind::Object(
            o.iter().map(|(k, v)| JsonMember { key: k.clone(), value: to_json(v) }).collect(),
        ),
    };
    Json { kind, text }
}

fn parse(text: &str) -> Json {
    to_json(&serde_json::from_str::<serde_json::Value>(text).unwrap())
}

#[test]
fn tool_labels_and_turn_ids() {
    let call = parse(r#"{"name":"shell","turn_id":"t9"}"#);
    assert_eq!(tool_label(Some("function_call"), &call), "shell");
    assert_eq!(tool_label(Some("custom_tool_call"), &parse("{}")), "tool_call");
    assert_eq!(tool_label(Some("web_search_call"), &call), "web_search");
    assert_eq!(tool_label(Some("other_kind"), &call), "other_kind");
    assert_eq!(tool_label(None, &call), "tool_call");
    assert_eq!(resolve_turn_id(&call, Some("t1")).as_deref(), Some("t9"));
    assert_eq!(resolve_turn_id(&parse("{}"), Some("t1")).as_deref(), Some("t1"));
    assert_eq!(resolve_turn_id(&parse("{}"), None), None);
}

#[test]
fn search_queries_and_usage() {
    let search = parse(r#"{"action":{"query":"  rust verus ","queries":["a", "  ", " b "]}}"#);
    assert_eq!(extract_search_queries(&search), vec!["rust verus", "a", "b"]);
    let usage = extract_last_token_usage(&parse(
        r#"{"info":{"last_token_usage":{"input_tokens":3,"cached_input_tokens":1,"output_tokens":2,"reasoning_output_tokens":4,"total_tokens":5}}}"#,
    ))
    .unwrap();
    assert_eq!(usage.total_tokens, 5);
    assert_eq!(token_signature(&usage), "1:3:2:4:5");
    assert!(extract_last_token_usage(&parse(r#"{"info":{}}"#)).is_none());
    let total = build_token_usage_summary(&[usage, TokenUsageSummary { total_tokens: 10, ..Default::default() }]);
    assert_eq!(total.total_tokens, 15);
    assert_eq!(total.input_tokens, 3);
}

#[test]
fn account_details() {
    let auth = parse(r#"{"tokens":{"access_token":"h.eyJlbWFpbCI6ImFAYi5jIn0.s"}}"#);
    let token = access_token(&auth).unwrap();
    assert_eq!(decode_jwt_payload(&token).as_deref(), Some(&br#"{"email":"a@b.c"}"#[..]));
    assert_eq!(decode_jwt_payload("no-dots"), None);
    assert_eq!(decode_jwt_payload("a.!!!.c"), None);
    let claims = auth_claims_from_payload(&parse(
        r#"{"https://api.openai.com/profile":{"email":"me@x.io"},"https://api.openai.com/auth":{"chatgpt_plan_type":"plus","chatgpt_user_id":"u1"}}"#,
    ));
    assert_eq!(claims.email.as_deref(), Some("me@x.io"));
    assert_eq!(claims.plan_type.as_deref(), Some("plus"));
    assert_eq!(claims.account_user_id.as_deref(), Some("u1"));
    let state = parse(r#"{"electron-persisted-atom-state":{"default-service-tier":"fast"}}"#);
    assert_eq!(extract_default_service_tier(Some(&state)).as_deref(), Some("fast"));
    assert_eq!(extract_default_service_tier(Some(&parse(r#"{"default-service-tier":"flex"}"#))).as_deref(), Some("flex"));
    assert_eq!(extract_default_service_tier(None), None);
}

#[test]
fn image_urls_are_collected_once() {
    let meta = parse(r#"{"a":["data:image/png;base64,AA","x"],"b":{"c":"data:image/png;base64,AA","d":"data:image/jpeg;base64,BB"}}"#);
    let mut urls = Vec::new();
    collect_image_urls(&meta, &mut urls);
    assert_eq!(urls, vec!["data:image/png;base64,AA", "data:image/jpeg;base64,BB"]);
}

#[test]
fn prompt_terms_are_lower_case_words_and_cjk_pairs() {
    let mut terms = LabelCounts::new();
    assert!(update_prompt_terms(&mut terms, "Fix the BUG in src/main.rs -- a 修复这个问题吧"));
    assert_eq!(terms.get("fix"), 1);
    assert_eq!(terms.get("bug"), 1);
    assert_eq!(terms.get("src/main.rs"), 1);
    assert_eq!(terms.get("a"), 0);
    assert_eq!(terms.get("修复"), 1);
    assert_eq!(terms.get("问题"), 1);
    assert!(update_prompt_terms(&mut terms, "fix 代码"));
    assert_eq!(terms.get("fix"), 2);
    assert_eq!(terms.get("代码"), 1);
    assert!(is_ascii_term_char('_'));
    assert!(!is_ascii_term_char(' '));
    assert!(is_cjk('中'));
    assert!(!is_cjk('a'));
}

#[test]
fn top_metrics_name_unknown_values() {
    let chart = top_metrics_from_sessions(&[Some("a".to_string()), None, Some("  ".to_string()), Some("a".to_string())], 6);
    let got: Vec<(String, i64)> = chart.iter().map(|d| (d.label.clone(), d.value)).collect();
    assert_eq!(got, vec![("Unknown".to_string(), 2), ("a".to_string(), 2)]);
}
