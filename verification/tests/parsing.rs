use uipilot::jsonio::{image_data_url, parse_decision_reply, parse_point_reply, parse_validation_reply};
use uipilot::ratelimit::{
    compute_rate_limit_sleep_ms, extract_wait_ms_from_body, extract_wait_ms_from_headers,
    parse_seconds_str_to_ms, retry_backoff_ms,
};
use uipilot::text::{clean, find_sub, str_eq, strip_code_fences, trim_str};

#[test]
fn seconds_with_fraction_and_unit() {
    assert_eq!(parse_seconds_str_to_ms("1.686s"), Some(1686));
}

#[test]
fn seconds_plain_integer() {
    assert_eq!(parse_seconds_str_to_ms("2"), Some(2000));
    assert_eq!(parse_seconds_str_to_ms("  17s  "), Some(17000));
}

#[test]
fn seconds_fourth_digit_rounds_half_up() {
    assert_eq!(parse_seconds_str_to_ms("1.6865"), Some(1687));
    assert_eq!(parse_seconds_str_to_ms("1.6864"), Some(1686));
    assert_eq!(parse_seconds_str_to_ms("0.0005"), Some(1));
}

#[test]
fn seconds_fractional_only_and_trailing_dot() {
    assert_eq!(parse_seconds_str_to_ms(".5"), Some(500));
    assert_eq!(parse_seconds_str_to_ms("3."), Some(3000));
}

#[test]
fn seconds_rejects_garbage() {
    assert_eq!(parse_seconds_str_to_ms(""), None);
    assert_eq!(parse_seconds_str_to_ms("s"), None);
    assert_eq!(parse_seconds_str_to_ms("1.2.3"), None);
    assert_eq!(parse_seconds_str_to_ms("1a"), None);
    assert_eq!(parse_seconds_str_to_ms("-1"), None);
    assert_eq!(parse_seconds_str_to_ms("9999999999999999"), None);
}

#[test]
fn header_precedence_prefers_reset_requests() {
    let headers = vec![
        ("retry-after".to_string(), "9".to_string()),
        ("x-ratelimit-reset-tokens".to_string(), "5".to_string()),
        ("x-ratelimit-reset-requests".to_string(), "1.5s".to_string()),
    ];
    assert_eq!(extract_wait_ms_from_headers(&headers), Some(1500));
}

#[test]
fn unreadable_header_falls_through_to_next_name() {
    let headers = vec![
        ("x-ratelimit-reset-requests".to_string(), "soon".to_string()),
        ("retry-after".to_string(), "2".to_string()),
    ];
    assert_eq!(extract_wait_ms_from_headers(&headers), Some(2000));
}

#[test]
fn no_usable_header_gives_nothing() {
    let headers = vec![("content-type".to_string(), "application/json".to_string())];
    assert_eq!(extract_wait_ms_from_headers(&headers), None);
}

#[test]
fn body_phrase_is_parsed() {
    let body = "Rate limit reached. Please try again in 1.686s. Visit docs.";
    assert_eq!(extract_wait_ms_from_body(body), Some(1686));
}

#[test]
fn body_without_phrase_gives_nothing() {
    assert_eq!(extract_wait_ms_from_body("Too many requests"), None);
    assert_eq!(extract_wait_ms_from_body("Please try again in a while"), None);
}

#[test]
fn sleep_falls_back_to_capped_backoff() {
    let none: Vec<(String, String)> = Vec::new();
    assert_eq!(compute_rate_limit_sleep_ms(&none, "", 0), 600);
    assert_eq!(compute_rate_limit_sleep_ms(&none, "", 2), 1800);
    assert_eq!(compute_rate_limit_sleep_ms(&none, "", 50), 8000);
}

#[test]
fn sleep_prefers_headers_over_body_and_backoff() {
    let headers = vec![("retry-after".to_string(), "3".to_string())];
    let body = "Please try again in 9s.";
    assert_eq!(compute_rate_limit_sleep_ms(&headers, body, 0), 3000);
    let none: Vec<(String, String)> = Vec::new();
    assert_eq!(compute_rate_limit_sleep_ms(&none, body, 0), 9000);
}

#[test]
fn linear_backoff_grows_per_attempt() {
    assert_eq!(retry_backoff_ms(400, 0), 400);
    assert_eq!(retry_backoff_ms(400, 2), 1200);
    assert_eq!(retry_backoff_ms(0, 7), 0);
}

#[test]
fn point_reply_plain_json() {
    let r = parse_point_reply(r#"{"x": 640, "y": 360, "double": true}"#).unwrap();
    assert_eq!((r.x, r.y, r.double), (640, 360, true));
}

#[test]
fn point_reply_double_defaults_to_false() {
    let r = parse_point_reply(r#"{"x": 1, "y": 2}"#).unwrap();
    assert_eq!((r.x, r.y, r.double), (1, 2, false));
}

#[test]
fn point_reply_in_code_fences() {
    let r = parse_point_reply("```json\n{\"x\": 10, \"y\": 20, \"double\": false}\n```").unwrap();
    assert_eq!((r.x, r.y), (10, 20));
}

#[test]
fn point_reply_rejects_malformed_or_out_of_range() {
    assert_eq!(parse_point_reply("click at 10,20"), None);
    assert_eq!(parse_point_reply(r#"{"x": 1.5, "y": 2}"#), None);
    assert_eq!(parse_point_reply(r#"{"y": 2}"#), None);
    assert_eq!(parse_point_reply(r#"{"x": 99999999999, "y": 2}"#), None);
}

#[test]
fn decision_reply_with_id() {
    assert_eq!(parse_decision_reply(r#"{"id": 4, "reason": "button", "confidence": 0.9}"#), Some(Some(4)));
}

#[test]
fn decision_reply_without_id() {
    assert_eq!(parse_decision_reply(r#"{"reason": "unsure"}"#), Some(None));
    assert_eq!(parse_decision_reply(r#"{"id": null}"#), Some(None));
}

#[test]
fn decision_reply_invalid() {
    assert_eq!(parse_decision_reply("the third one"), None);
    assert_eq!(parse_decision_reply(r#"{"id": -2}"#), None);
    assert_eq!(parse_decision_reply(r#"{"id": 1.5}"#), None);
    assert_eq!(parse_decision_reply(r#"[1, 2]"#), None);
}

#[test]
fn validation_reply_answers() {
    assert_eq!(parse_validation_reply(r#"{"answer": true, "confidence": 0.8}"#), Some(true));
    assert_eq!(parse_validation_reply("```\n{\"answer\": false}\n```"), Some(false));
    assert_eq!(parse_validation_reply(r#"{"verdict": true}"#), None);
    assert_eq!(parse_validation_reply("yes"), None);
}

#[test]
fn data_url_encodes_the_bytes() {
    // a wrapper that handed its input back unchanged would fail this
    let url = image_data_url(&b"abc".to_vec());
    assert_eq!(url, "data:image/png;base64,YWJj");
    let url2 = image_data_url(&vec![0u8, 0, 0]);
    assert_eq!(url2, "data:image/png;base64,AAAA");
}

#[test]
fn clean_collapses_whitespace_runs() {
    let r: String = clean("  Create\t\tnew   invoice \n").into_iter().collect();
    assert_eq!(r, "Create new invoice");
}

#[test]
fn clean_caps_the_length() {
    let long = "x".repeat(500);
    assert_eq!(clean(&long).len(), 200);
}

#[test]
fn fences_json_tagged() {
    assert_eq!(strip_code_fences("```json\n{\"a\":1}\n```"), "{\"a\":1}");
}

#[test]
fn fences_untagged_and_absent() {
    assert_eq!(strip_code_fences("```\n42\n```"), "42");
    assert_eq!(strip_code_fences("  plain  "), "plain");
    assert_eq!(strip_code_fences("```json unclosed"), "```json unclosed");
}

#[test]
fn trim_and_eq_and_find() {
    assert_eq!(trim_str("  a b \t"), "a b");
    assert!(str_eq("retry-after", "retry-after"));
    assert!(!str_eq("retry-after", "Retry-After"));
    assert_eq!(find_sub("hello world", "o w"), Some(4));
    assert_eq!(find_sub("hello", "xyz"), None);
}
