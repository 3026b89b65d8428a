use network_status::controller::{Backend, BackendEvent, TickDecision, decide_tick, next_backend};
use network_status::probe::{
    DisplayError, PixelFormat, RawGeometry, classify_pixel_format, config_from_geometry,
    image_export_config, memory_layout,
};
use network_status::state::DisplayState;
use network_status::terminal::terminal_lines;

fn bgra_geometry() -> RawGeometry {
    RawGeometry {
        xres: 1920, yres: 1080, xres_virtual: 2048, yres_virtual: 1080,
        bits_per_pixel: 32, red_offset_bits: 16, green_offset_bits: 8,
        blue_offset_bits: 0, transp_offset_bits: 24,
    }
}

#[test]
fn valid_geometry_yields_config() {
    let cfg = config_from_geometry(&bgra_geometry()).unwrap();
    assert_eq!(cfg.width, 1920);
    assert_eq!(cfg.height, 1080);
    assert_eq!(cfg.stride, 2048);
    assert_eq!(cfg.bytes_per_pixel, 4);
    assert_eq!((cfg.red_offset, cfg.green_offset, cfg.blue_offset), (2, 1, 0));
}

#[test]
fn misaligned_offsets_are_rejected() {
    let mut g = bgra_geometry();
    g.red_offset_bits = 12;
    assert_eq!(config_from_geometry(&g).unwrap_err(), DisplayError::GeometryQueryFailed);
}

#[test]
fn unsupported_depth_is_rejected() {
    let mut g = bgra_geometry();
    g.bits_per_pixel = 16;
    assert!(config_from_geometry(&g).is_err());
}

#[test]
fn duplicate_offsets_are_rejected() {
    let mut g = bgra_geometry();
    g.green_offset_bits = 16;
    assert!(config_from_geometry(&g).is_err());
}

#[test]
fn stride_below_width_is_rejected() {
    let mut g = bgra_geometry();
    g.xres_virtual = 1000;
    assert!(config_from_geometry(&g).is_err());
}

#[test]
fn unusual_but_valid_layout_is_accepted() {
    let mut g = bgra_geometry();
    g.red_offset_bits = 8;
    g.green_offset_bits = 24;
    g.blue_offset_bits = 0;
    let cfg = config_from_geometry(&g).unwrap();
    assert_eq!((cfg.red_offset, cfg.green_offset, cfg.blue_offset), (1, 3, 0));
}

#[test]
fn classify_common_formats() {
    // The blue-green-red arm is checked before the alpha-aware ones, so a
    // layout with the alpha byte last still classifies by its color order.
    let mut g = bgra_geometry();
    assert_eq!(classify_pixel_format(&g), PixelFormat::Bgr);
    g.transp_offset_bits = 0;
    assert_eq!(classify_pixel_format(&g), PixelFormat::Bgr);
    g.red_offset_bits = 0;
    g.blue_offset_bits = 16;
    assert_eq!(classify_pixel_format(&g), PixelFormat::Rgb);
    g.green_offset_bits = 0;
    assert_eq!(classify_pixel_format(&g), PixelFormat::Custom);
}

#[test]
fn memory_layout_detects_padding() {
    let g = bgra_geometry();
    let (line, total, padding) = memory_layout(&g);
    assert_eq!(line, 2048 * 4);
    assert_eq!(total, 2048 * 4 * 1080);
    assert_eq!(padding, (2048 - 1920) * 4);
}

#[test]
fn image_export_config_is_the_fixed_canvas() {
    let cfg = image_export_config();
    assert_eq!((cfg.width, cfg.height, cfg.stride, cfg.bytes_per_pixel), (1920, 1080, 1920, 4));
    assert_eq!((cfg.red_offset, cfg.green_offset, cfg.blue_offset), (2, 1, 0));
}

#[test]
fn error_descriptions() {
    assert_eq!(DisplayError::DeviceUnavailable.describe(), "device unavailable");
    assert_eq!(DisplayError::SyncFailed.describe(), "sync failed");
}

#[test]
fn backend_transitions_fall_back_and_recover() {
    assert_eq!(next_backend(Backend::ProbingHardware, BackendEvent::HardwareReady), Backend::RenderingHardware);
    assert_eq!(next_backend(Backend::ProbingHardware, BackendEvent::DeviceAbsent), Backend::RenderingTerminal);
    assert_eq!(next_backend(Backend::ProbingHardware, BackendEvent::HardwareFailed), Backend::RenderingTerminal);
    assert_eq!(next_backend(Backend::RenderingTerminal, BackendEvent::HardwareReady), Backend::RenderingHardware);
    assert_eq!(next_backend(Backend::RenderingTerminal, BackendEvent::DeviceAbsent), Backend::RenderingTerminal);
    assert_eq!(next_backend(Backend::RenderingTerminal, BackendEvent::HardwareFailed), Backend::RenderingTerminal);
    assert_eq!(next_backend(Backend::RenderingHardware, BackendEvent::HardwareFailed), Backend::RenderingTerminal);
    assert_eq!(next_backend(Backend::RenderingHardware, BackendEvent::DeviceAbsent), Backend::RenderingHardware);
    assert_eq!(next_backend(Backend::RenderingHardware, BackendEvent::HardwareReady), Backend::RenderingHardware);
}

fn state(pass: &str, addrs: Vec<String>) -> DisplayState {
    DisplayState::new(pass.to_string(), "o.onion".to_string(), addrs, "host".to_string())
}

#[test]
fn tick_skips_unchanged_state() {
    let a = state("pw", vec!["e0 UP 10.0.0.1/8".to_string()]);
    let b = state("pw", vec!["e0 UP 10.0.0.1/8".to_string()]);
    let d = decide_tick(&a, &b);
    assert_eq!(d, TickDecision { redraw: false, reencode: false });
}

#[test]
fn tick_redraws_without_reencode_on_hostname_change() {
    let a = state("pw", vec![]);
    let mut b = state("pw", vec![]);
    b.hostname = "renamed".to_string();
    let d = decide_tick(&a, &b);
    assert!(d.redraw);
    assert!(!d.reencode);
}

#[test]
fn tick_reencodes_on_password_change() {
    let a = state("pw", vec![]);
    let b = state("new", vec![]);
    let d = decide_tick(&a, &b);
    assert!(d.redraw);
    assert!(d.reencode);
}

#[test]
fn terminal_lines_show_all_sections() {
    let s = state("pw", vec!["e0 UP 10.0.0.1/8".to_string()]);
    let lines = terminal_lines(&s);
    assert_eq!(lines[0], "Login Credentials");
    assert_eq!(lines[1], "  Root password: pw");
    assert_eq!(lines[2], "");
    assert_eq!(lines[3], "Network Information");
    assert_eq!(lines[4], "  e0 UP 10.0.0.1/8");
    assert_eq!(lines[5], "");
    assert_eq!(lines[6], "Remote Access");
    assert_eq!(lines[7], "  Tor Hidden Service: o.onion");
    assert_eq!(lines[8], "  Multicast DNS: host.local");
    assert_eq!(lines[9], "");
    assert_eq!(lines[10], "\u{2500}".repeat(80));
    assert_eq!(lines[11], "Press 'Ctrl-C' for console access");
    assert_eq!(lines.len(), 12);
}
