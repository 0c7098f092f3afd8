use rescue_codex::numbers::{average_i64, i64_text, parse_i64, percent, two_digit_text};
use rescue_codex::text::{
    contains_code_hint, contains_command_hint, contains_path_hint, extract_cwd_from_log, extract_toml_value,
    is_transport_error, is_transport_target, mask_email, mask_identifier, parse_function_call_exit_code,
    parse_service_tier,
};

#[test]
fn numbers_are_written_in_decimal() {
    assert_eq!(i64_text(0), "0");
    assert_eq!(i64_text(-42), "-42");
    assert_eq!(i64_text(i64::MIN), "-9223372036854775808");
    assert_eq!(two_digit_text(7), "07");
    assert_eq!(two_digit_text(23), "23");
}

#[test]
fn integers_parse_like_str_parse() {
    let chars = |s: &str| s.chars().collect::<Vec<char>>();
    assert_eq!(parse_i64(&chars("12")), Some(12));
    assert_eq!(parse_i64(&chars("-7")), Some(-7));
    assert_eq!(parse_i64(&chars("+5")), Some(5));
    assert_eq!(parse_i64(&chars("")), None);
    assert_eq!(parse_i64(&chars("1x")), None);
    assert_eq!(parse_i64(&chars("9223372036854775808")), None);
    assert_eq!(parse_i64(&chars("-9223372036854775808")), Some(i64::MIN));
}

#[test]
fn averages_round_half_away_from_zero() {
    assert_eq!(average_i64(5, 2), 3);
    assert_eq!(average_i64(-5, 2), -3);
    assert_eq!(average_i64(7, 3), 2);
    assert_eq!(average_i64(10, 0), 0);
    assert_eq!(percent(1, 3), 33);
    assert_eq!(percent(2, 3), 67);
    assert_eq!(percent(1, 0), 0);
}

#[test]
fn prompt_hints() {
    assert!(contains_code_hint("use ```rust``` here"));
    assert!(!contains_code_hint("plain words"));
    assert!(contains_path_hint("open src/main.rs please"));
    assert!(contains_command_hint("run cargo test now"));
    assert!(!contains_command_hint("hello"));
}

#[test]
fn log_bodies_are_classified() {
    assert!(is_transport_target("codex_core::transport::ws"));
    assert!(!is_transport_target("codex_core::exec"));
    assert!(is_transport_error("responses_websocket", "ERROR", "closed"));
    assert!(is_transport_error("transport", "info", "request timeout"));
    assert!(!is_transport_error("transport", "info", "connected"));
    assert!(!is_transport_error("other", "error", "timeout"));
    assert_eq!(parse_service_tier("service_tier=fast").as_deref(), Some("Fast"));
    assert_eq!(parse_service_tier("service tier: default").as_deref(), Some("Standard"));
    assert_eq!(parse_service_tier("service_tier=slow").as_deref(), Some("Slow"));
    assert_eq!(parse_service_tier("service_tier=priority").as_deref(), Some("Unknown"));
    assert_eq!(parse_service_tier("nothing"), None);
    assert_eq!(extract_cwd_from_log("turn{cwd=/home/u/app, model=x}").as_deref(), Some("/home/u/app"));
    assert_eq!(extract_cwd_from_log("cwd=  ,"), None);
    assert_eq!(extract_cwd_from_log("no directory"), None);
}

#[test]
fn tool_output_exit_codes() {
    assert_eq!(parse_function_call_exit_code("Exit code: 2\nWall time: 1s"), Some(2));
    assert_eq!(parse_function_call_exit_code("out\r\nExit code: 0\r\n"), Some(0));
    assert_eq!(parse_function_call_exit_code("Exit code: x"), None);
    assert_eq!(parse_function_call_exit_code("no code"), None);
}

#[test]
fn toml_values() {
    let text = "# comment\n[table]\nmodel = \"gpt-5\"\nservice_tier='fast'\n";
    assert_eq!(extract_toml_value(text, "model").as_deref(), Some("gpt-5"));
    assert_eq!(extract_toml_value(text, "service_tier").as_deref(), Some("'fast'"));
    assert_eq!(extract_toml_value(text, "missing"), None);
}

#[test]
fn identifiers_and_emails_are_masked() {
    assert_eq!(mask_identifier("short"), "***");
    assert_eq!(mask_identifier("abcdefghijkl"), "abcd***ijkl");
    assert_eq!(mask_email("someone@example.com"), "so***ne@example.com");
    assert_eq!(mask_email("ab@x.io"), "ab***ab@x.io");
    assert_eq!(mask_email("plainidentifier"), "plai***fier");
}
