use network_status::state::{DisplayState, text_or_placeholder, trim_string, vec_str_eq};

fn sample_state() -> DisplayState {
    DisplayState::new(
        "secret".to_string(),
        "abc.onion".to_string(),
        vec!["wlp0 UP 192.168.1.5/24".to_string()],
        "myhost".to_string(),
    )
}

#[test]
fn snapshot_equal_to_identical_clone_reports_no_change() {
    let a = sample_state();
    let b = sample_state();
    assert!(!a.has_changed(&b));
    assert!(!a.has_changed(&a));
}

#[test]
fn snapshot_comparison_is_symmetric() {
    let a = sample_state();
    let mut b = sample_state();
    b.hostname = "other".to_string();
    assert_eq!(a.has_changed(&b), b.has_changed(&a));
    let c = sample_state();
    assert_eq!(a.has_changed(&c), c.has_changed(&a));
}

#[test]
fn changing_password_reports_change() {
    let a = sample_state();
    let b = DisplayState::new(
        "other".to_string(),
        "abc.onion".to_string(),
        vec!["wlp0 UP 192.168.1.5/24".to_string()],
        "myhost".to_string(),
    );
    assert!(a.has_changed(&b));
}

#[test]
fn changing_onion_reports_change() {
    let a = sample_state();
    let b = DisplayState::new(
        "secret".to_string(),
        "other.onion".to_string(),
        vec!["wlp0 UP 192.168.1.5/24".to_string()],
        "myhost".to_string(),
    );
    assert!(a.has_changed(&b));
}

#[test]
fn changing_address_line_reports_change() {
    let a = sample_state();
    let b = DisplayState::new(
        "secret".to_string(),
        "abc.onion".to_string(),
        vec!["wlp0 UP 192.168.1.9/24".to_string()],
        "myhost".to_string(),
    );
    assert!(a.has_changed(&b));
}

#[test]
fn changing_hostname_reports_change() {
    let a = sample_state();
    let b = DisplayState::new(
        "secret".to_string(),
        "abc.onion".to_string(),
        vec!["wlp0 UP 192.168.1.5/24".to_string()],
        "otherhost".to_string(),
    );
    assert!(a.has_changed(&b));
}

#[test]
fn derived_payload_matches_inputs() {
    let s = sample_state();
    assert_eq!(
        s.login_json,
        "{\"pass\":\"secret\",\"tor\":\"abc.onion\",\"addrs\":[\"192.168.1.5\"]}"
    );
}

#[test]
fn vec_str_eq_compares_contents() {
    let a = vec!["x".to_string(), "y".to_string()];
    let b = vec!["x".to_string(), "y".to_string()];
    let c = vec!["x".to_string()];
    assert!(vec_str_eq(&a, &b));
    assert!(!vec_str_eq(&a, &c));
}

#[test]
fn trim_removes_surrounding_whitespace() {
    assert_eq!(trim_string("  hello \n"), "hello");
    assert_eq!(trim_string("\t\n  \r"), "");
    assert_eq!(trim_string("word"), "word");
}

#[test]
fn placeholder_used_when_read_fails() {
    assert_eq!(text_or_placeholder(None, "(waiting...)"), "(waiting...)");
    assert_eq!(
        text_or_placeholder(Some("pw123\n".to_string()), "(waiting...)"),
        "pw123"
    );
}
