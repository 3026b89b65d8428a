use network_status::Color;
use network_status::compose::{draw_colored_line, render_display};
use network_status::draw::{draw_colored_text, draw_separator_line, draw_text};
use network_status::logo::{Logo, draw_logo};
use network_status::qr::{calculate_qr_layout, make_qr};
use network_status::state::DisplayState;
use network_status::surface::FramebufferConfig;

fn full_hd() -> FramebufferConfig {
    FramebufferConfig {
        width: 1920, height: 1080, stride: 1920, bytes_per_pixel: 4,
        red_offset: 2, green_offset: 1, blue_offset: 0,
    }
}

fn buffer_for(cfg: &FramebufferConfig) -> Vec<u8> {
    vec![0u8; cfg.stride * cfg.height * cfg.bytes_per_pixel]
}

fn pixel_base(cfg: &FramebufferConfig, x: usize, y: usize) -> usize {
    (y * cfg.stride + x) * cfg.bytes_per_pixel
}

fn tiny_logo() -> Logo {
    // 2 by 2: one opaque red pixel, one transparent, two opaque blue.
    let data = vec![
        255, 0, 0, 255,   0, 0, 0, 0,
        0, 0, 255, 255,   0, 0, 255, 255,
    ];
    Logo::new(2, 2, data).unwrap()
}

#[test]
fn logo_rejects_wrong_length() {
    assert!(Logo::new(2, 2, vec![0u8; 15]).is_none());
    assert!(Logo::new(2, 2, vec![0u8; 16]).is_some());
}

#[test]
fn logo_skips_transparent_pixels_and_paints_background() {
    let cfg = full_hd();
    let mut buf = buffer_for(&cfg);
    let logo = tiny_logo();
    draw_logo(&mut buf, &cfg, 30, 30, &logo);
    // Opaque red pixel at (30, 30).
    let b = pixel_base(&cfg, 30, 30);
    assert_eq!((buf[b + cfg.red_offset], buf[b + cfg.green_offset], buf[b + cfg.blue_offset]), (255, 0, 0));
    // Transparent source pixel at (31, 30) keeps the white background.
    let b = pixel_base(&cfg, 31, 30);
    assert_eq!((buf[b + cfg.red_offset], buf[b + cfg.green_offset], buf[b + cfg.blue_offset]), (255, 255, 255));
    // The padded background extends 10 pixels around.
    let b = pixel_base(&cfg, 20, 20);
    assert_eq!((buf[b + cfg.red_offset], buf[b + cfg.green_offset], buf[b + cfg.blue_offset]), (255, 255, 255));
    // Beyond the padding nothing is painted.
    let b = pixel_base(&cfg, 19, 20);
    assert_eq!((buf[b + cfg.red_offset], buf[b + cfg.green_offset], buf[b + cfg.blue_offset]), (0, 0, 0));
}

#[test]
fn drawing_a_known_glyph_paints_pixels() {
    let cfg = full_hd();
    let mut buf = buffer_for(&cfg);
    draw_text(&mut buf, &cfg, "A", 0, 0);
    assert!(buf.iter().any(|&v| v != 0));
}

#[test]
fn unmapped_character_paints_nothing() {
    let cfg = full_hd();
    let mut buf = buffer_for(&cfg);
    draw_colored_text(&mut buf, &cfg, "\u{4e2d}", 0, 0, Color { r: 255, g: 255, b: 255 });
    assert!(buf.iter().all(|&v| v == 0));
}

#[test]
fn text_beyond_the_edge_is_dropped() {
    let cfg = full_hd();
    let mut buf = buffer_for(&cfg);
    draw_text(&mut buf, &cfg, "AAAA", 1920, 0);
    draw_text(&mut buf, &cfg, "AAAA", 0, 1080);
    assert!(buf.iter().all(|&v| v == 0));
}

#[test]
fn separator_line_paints_gray_two_rows() {
    let cfg = full_hd();
    let mut buf = buffer_for(&cfg);
    draw_separator_line(&mut buf, &cfg, 50, 500, 100);
    for y in [500usize, 501] {
        let b = pixel_base(&cfg, 50, y);
        assert_eq!((buf[b + cfg.red_offset], buf[b + cfg.green_offset], buf[b + cfg.blue_offset]), (100, 100, 100));
    }
    let b = pixel_base(&cfg, 50, 502);
    assert_eq!(buf[b + cfg.red_offset], 0);
    let b = pixel_base(&cfg, 150, 500);
    assert_eq!(buf[b + cfg.red_offset], 0);
}

#[test]
fn colored_line_reports_lines_used() {
    let cfg = full_hd();
    let mut buf = buffer_for(&cfg);
    let lines = draw_colored_line(&mut buf, &cfg, "eth0 \x1b[32mUP\x1b[0m 10.0.0.2/8", 70, 600);
    assert_eq!(lines, 1);
}

#[test]
fn render_full_frame_with_placeholder_state() {
    // The end-to-end scenario: empty address list and placeholder
    // credentials render without panicking onto a full-HD surface.
    let cfg = full_hd();
    let mut buf = buffer_for(&cfg);
    let state = DisplayState::new(
        "(waiting...)".to_string(),
        "(waiting for tor...)".to_string(),
        vec![],
        "nixos".to_string(),
    );
    assert_eq!(
        state.login_json,
        "{\"pass\":\"(waiting...)\",\"tor\":\"(waiting for tor...)\",\"addrs\":[]}"
    );
    let code = make_qr(state.login_json.as_str());
    assert!(code.size >= 21);
    assert_eq!(code.modules.len(), code.size * code.size);
    let (qr_size, qr_pixel_size, x_offset, y_offset) = calculate_qr_layout(&cfg, code.size);
    let logo = tiny_logo();
    render_display(
        &mut buf, &cfg, &code, qr_size, qr_pixel_size, x_offset, y_offset, &state, &logo,
    );
    // The quiet zone above the symbol is white.
    let scale = qr_pixel_size / qr_size;
    let b = pixel_base(&cfg, x_offset, y_offset - 2 * scale);
    assert_eq!((buf[b + cfg.red_offset], buf[b + cfg.green_offset], buf[b + cfg.blue_offset]), (255, 255, 255));
    // The top-left finder pattern's corner module is dark.
    let b = pixel_base(&cfg, x_offset, y_offset);
    assert_eq!((buf[b + cfg.red_offset], buf[b + cfg.green_offset], buf[b + cfg.blue_offset]), (0, 0, 0));
    // A pixel far from everything stays black.
    let b = pixel_base(&cfg, 1919, 0);
    assert_eq!((buf[b + cfg.red_offset], buf[b + cfg.green_offset], buf[b + cfg.blue_offset]), (0, 0, 0));
}

#[test]
fn render_with_addresses_and_wide_lines() {
    let cfg = full_hd();
    let mut buf = buffer_for(&cfg);
    let long_line = format!("wlan0 UP {}", "10.0.0.1/8 ".repeat(30));
    let state = DisplayState::new(
        "pw".to_string(),
        "x.onion".to_string(),
        vec!["eth0 UP 192.168.0.7/24".to_string(), long_line],
        "host".to_string(),
    );
    let code = make_qr(state.login_json.as_str());
    let (qr_size, qr_pixel_size, x_offset, y_offset) = calculate_qr_layout(&cfg, code.size);
    render_display(
        &mut buf, &cfg, &code, qr_size, qr_pixel_size, x_offset, y_offset, &state, &tiny_logo(),
    );
    assert!(buf.iter().any(|&v| v != 0));
}

#[test]
fn colored_line_wraps_onto_second_line() {
    let cfg = full_hd();
    let mut buf = buffer_for(&cfg);
    // Two colored runs of 100 characters each are 1600 pixels wide: the
    // second cannot fit beside the first and moves whole to a second line.
    let text = format!("{}\x1b[32m{}", "a".repeat(100), "b".repeat(100));
    let lines = draw_colored_line(&mut buf, &cfg, &text, 70, 600);
    assert_eq!(lines, 2);
}
