use network_status::payload::{escape_json_string, extract_addresses, filter_address_lines, generate_login_json, strip_cidr_exec, tokenize};

#[test]
fn escape_plain_text_unchanged() {
    assert_eq!(escape_json_string("hello world"), "hello world");
}

#[test]
fn escape_backslash_and_quote() {
    assert_eq!(escape_json_string("a\\b\"c"), "a\\\\b\\\"c");
}

#[test]
fn escape_control_characters() {
    assert_eq!(escape_json_string("a\nb\rc\td"), "a\\nb\\rc\\td");
}

#[test]
fn escape_empty() {
    assert_eq!(escape_json_string(""), "");
}

#[test]
fn tokenize_splits_on_whitespace() {
    let toks = tokenize("wlp0s20  UP \t192.168.1.5/24");
    assert_eq!(toks, vec!["wlp0s20", "UP", "192.168.1.5/24"]);
}

#[test]
fn strip_cidr_cuts_at_first_slash() {
    assert_eq!(strip_cidr_exec("192.168.1.5/24"), "192.168.1.5");
    assert_eq!(strip_cidr_exec("fe80::1"), "fe80::1");
    assert_eq!(strip_cidr_exec("a/b/c"), "a");
}

#[test]
fn extract_addresses_skips_interface_and_status() {
    let lines = vec!["wlp0 UP 192.168.1.5/24 fe80::1/64".to_string()];
    let addrs = extract_addresses(&lines);
    assert_eq!(addrs, vec!["192.168.1.5", "fe80::1"]);
}

#[test]
fn extract_addresses_ignores_plain_tokens() {
    let lines = vec!["eth0 UP word 10.0.0.2/8".to_string()];
    let addrs = extract_addresses(&lines);
    assert_eq!(addrs, vec!["10.0.0.2"]);
}

#[test]
fn payload_empty_addresses_decodes_to_placeholders() {
    let json = generate_login_json("(waiting...)", "(waiting for tor...)", &vec![]);
    assert_eq!(
        json,
        "{\"pass\":\"(waiting...)\",\"tor\":\"(waiting for tor...)\",\"addrs\":[]}"
    );
}

#[test]
fn payload_with_addresses() {
    let lines = vec!["wlp0 UP 192.168.1.5/24".to_string(), "eth0 UP 10.0.0.2/8".to_string()];
    let json = generate_login_json("secret", "abc.onion", &lines);
    assert_eq!(
        json,
        "{\"pass\":\"secret\",\"tor\":\"abc.onion\",\"addrs\":[\"192.168.1.5\",\"10.0.0.2\"]}"
    );
}

#[test]
fn payload_is_deterministic() {
    let lines = vec!["wlp0 UP 192.168.1.5/24".to_string()];
    let a = generate_login_json("p", "o.onion", &lines);
    let b = generate_login_json("p", "o.onion", &lines);
    assert_eq!(a, b);
}

#[test]
fn payload_changes_with_address_order() {
    let ab = vec!["e0 UP 10.0.0.1/8".to_string(), "e1 UP 10.0.0.2/8".to_string()];
    let ba = vec!["e1 UP 10.0.0.2/8".to_string(), "e0 UP 10.0.0.1/8".to_string()];
    let a = generate_login_json("p", "o", &ab);
    let b = generate_login_json("p", "o", &ba);
    assert_ne!(a, b);
}

#[test]
fn payload_escapes_password() {
    let json = generate_login_json("a\"b", "o", &vec![]);
    assert_eq!(json, "{\"pass\":\"a\\\"b\",\"tor\":\"o\",\"addrs\":[]}");
}

#[test]
fn filter_keeps_up_non_loopback_lines() {
    let lines = vec![
        "lo UNKNOWN 127.0.0.1/8".to_string(),
        "eth0 UP 10.0.0.2/8".to_string(),
        "wlan0 DOWN".to_string(),
        "wlan1 UP 192.168.0.9/24".to_string(),
    ];
    let kept = filter_address_lines(&lines);
    assert_eq!(kept, vec!["eth0 UP 10.0.0.2/8", "wlan1 UP 192.168.0.9/24"]);
}
