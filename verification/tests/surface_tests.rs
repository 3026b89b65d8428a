use network_status::Color;
use network_status::surface::{FramebufferConfig, fill_block};

fn buffer_for(cfg: &FramebufferConfig) -> Vec<u8> {
    vec![0u8; cfg.stride * cfg.height * cfg.bytes_per_pixel]
}

fn pixel_base(cfg: &FramebufferConfig, x: usize, y: usize) -> usize {
    (y * cfg.stride + x) * cfg.bytes_per_pixel
}

fn roundtrip(cfg: FramebufferConfig) {
    let mut buf = buffer_for(&cfg);
    let color = Color { r: 10, g: 20, b: 30 };
    fill_block(&mut buf, &cfg, 3, 2, 1, 1, color, 0xAB);
    let base = pixel_base(&cfg, 3, 2);
    assert_eq!(buf[base + cfg.red_offset], 10);
    assert_eq!(buf[base + cfg.green_offset], 20);
    assert_eq!(buf[base + cfg.blue_offset], 30);
    if cfg.bytes_per_pixel > 3 {
        assert_eq!(buf[base + 3], 0xAB);
    }
}

#[test]
fn pixel_roundtrip_rgb_3_bytes() {
    roundtrip(FramebufferConfig {
        width: 8, height: 4, stride: 8, bytes_per_pixel: 3,
        red_offset: 0, green_offset: 1, blue_offset: 2,
    });
}

#[test]
fn pixel_roundtrip_bgr_3_bytes() {
    roundtrip(FramebufferConfig {
        width: 8, height: 4, stride: 8, bytes_per_pixel: 3,
        red_offset: 2, green_offset: 1, blue_offset: 0,
    });
}

#[test]
fn pixel_roundtrip_bgra_4_bytes() {
    roundtrip(FramebufferConfig {
        width: 8, height: 4, stride: 10, bytes_per_pixel: 4,
        red_offset: 2, green_offset: 1, blue_offset: 0,
    });
}

#[test]
fn pixel_roundtrip_rgba_4_bytes() {
    roundtrip(FramebufferConfig {
        width: 8, height: 4, stride: 8, bytes_per_pixel: 4,
        red_offset: 0, green_offset: 1, blue_offset: 2,
    });
}

#[test]
fn clipping_at_and_beyond_edges_writes_nothing() {
    let cfg = FramebufferConfig {
        width: 8, height: 4, stride: 8, bytes_per_pixel: 4,
        red_offset: 2, green_offset: 1, blue_offset: 0,
    };
    let mut buf = buffer_for(&cfg);
    let white = Color { r: 255, g: 255, b: 255 };
    fill_block(&mut buf, &cfg, 8, 0, 5, 5, white, 0xFF);
    fill_block(&mut buf, &cfg, 0, 4, 5, 5, white, 0xFF);
    fill_block(&mut buf, &cfg, 1000, 1000, 50, 50, white, 0xFF);
    assert!(buf.iter().all(|&b| b == 0));
}

#[test]
fn fill_crossing_edge_is_cut_at_edge() {
    let cfg = FramebufferConfig {
        width: 4, height: 3, stride: 4, bytes_per_pixel: 3,
        red_offset: 0, green_offset: 1, blue_offset: 2,
    };
    let mut buf = buffer_for(&cfg);
    fill_block(&mut buf, &cfg, 3, 2, 10, 10, Color { r: 9, g: 9, b: 9 }, 0xFF);
    // Only pixel (3, 2) lies inside the surface.
    for y in 0..3 {
        for x in 0..4 {
            let base = pixel_base(&cfg, x, y);
            let expect = if x == 3 && y == 2 { 9 } else { 0 };
            assert_eq!(buf[base], expect);
        }
    }
}

#[test]
fn stride_padding_is_never_touched() {
    let cfg = FramebufferConfig {
        width: 4, height: 2, stride: 6, bytes_per_pixel: 3,
        red_offset: 0, green_offset: 1, blue_offset: 2,
    };
    let mut buf = buffer_for(&cfg);
    fill_block(&mut buf, &cfg, 0, 0, 100, 100, Color { r: 7, g: 7, b: 7 }, 0xFF);
    for y in 0..2 {
        for x in 0..6 {
            let base = (y * cfg.stride + x) * cfg.bytes_per_pixel;
            let expect = if x < 4 { 7 } else { 0 };
            assert_eq!(buf[base], expect, "pixel ({}, {})", x, y);
        }
    }
}
