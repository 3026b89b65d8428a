use network_status::qr::{QrMatrix, calculate_qr_layout, make_qr};
use network_status::surface::FramebufferConfig;

fn full_hd() -> FramebufferConfig {
    FramebufferConfig {
        width: 1920, height: 1080, stride: 1920, bytes_per_pixel: 4,
        red_offset: 2, green_offset: 1, blue_offset: 0,
    }
}

#[test]
fn layout_full_hd_version_1_baseline() {
    let (qr_size, qr_pixel_size, x_offset, y_offset) = calculate_qr_layout(&full_hd(), 21);
    assert_eq!(qr_size, 21);
    assert_eq!(qr_pixel_size, 483);
    assert_eq!(x_offset, 718);
    assert_eq!(y_offset, 172);
}

#[test]
fn layout_scale_is_at_least_one_on_tiny_surface() {
    let cfg = FramebufferConfig {
        width: 40, height: 40, stride: 40, bytes_per_pixel: 3,
        red_offset: 0, green_offset: 1, blue_offset: 2,
    };
    let (qr_size, qr_pixel_size, x_offset, y_offset) = calculate_qr_layout(&cfg, 21);
    assert_eq!(qr_size, 21);
    assert_eq!(qr_pixel_size, 21);
    assert_eq!(x_offset, (40 - 29) / 2 + 4);
    assert_eq!(y_offset, 84);
}

fn is_valid(m: &QrMatrix) -> bool {
    m.size >= 21 && m.modules.len() == m.size * m.size
}

#[test]
fn make_qr_yields_valid_matrix() {
    let m = make_qr("{\"pass\":\"(waiting...)\",\"tor\":\"(waiting for tor...)\",\"addrs\":[]}");
    assert!(is_valid(&m));
    // A real symbol holds both dark and light modules.
    assert!(m.modules.iter().any(|&b| b));
    assert!(m.modules.iter().any(|&b| !b));
}

#[test]
fn make_qr_is_deterministic() {
    let a = make_qr("same text");
    let b = make_qr("same text");
    assert_eq!(a.size, b.size);
    assert_eq!(a.modules, b.modules);
}

#[test]
fn make_qr_differs_for_different_payloads() {
    let a = make_qr("payload one");
    let b = make_qr("payload two");
    assert!(a.size != b.size || a.modules != b.modules);
}

#[test]
fn make_qr_falls_back_on_oversized_payload() {
    // Far beyond the capacity of the largest symbol: the placeholder symbol
    // is produced instead, never an error.
    let huge = "x".repeat(20000);
    let m = make_qr(&huge);
    let placeholder = make_qr("{\"status\": \"waiting\"}");
    assert!(is_valid(&m));
    assert_eq!(m.size, placeholder.size);
    assert_eq!(m.modules, placeholder.modules);
}

#[test]
fn make_qr_grows_with_payload_length() {
    let small = make_qr("a");
    let large = make_qr(&"0123456789".repeat(40));
    assert!(large.size > small.size);
}
