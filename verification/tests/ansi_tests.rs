use network_status::ansi::{TextSegment, parse_colored_text};
use network_status::compose::layout_segments;

#[test]
fn plain_text_is_one_white_segment() {
    let segs = parse_colored_text("hello");
    assert_eq!(segs.len(), 1);
    assert_eq!(segs[0].text, "hello");
    assert_eq!((segs[0].color.r, segs[0].color.g, segs[0].color.b), (255, 255, 255));
}

#[test]
fn green_escape_colors_following_text() {
    let segs = parse_colored_text("eth0 \x1b[32mUP\x1b[0m done");
    assert_eq!(segs.len(), 3);
    assert_eq!(segs[0].text, "eth0 ");
    assert_eq!((segs[0].color.r, segs[0].color.g, segs[0].color.b), (255, 255, 255));
    assert_eq!(segs[1].text, "UP");
    assert_eq!((segs[1].color.r, segs[1].color.g, segs[1].color.b), (85, 255, 85));
    assert_eq!(segs[2].text, " done");
    assert_eq!((segs[2].color.r, segs[2].color.g, segs[2].color.b), (255, 255, 255));
}

#[test]
fn unknown_code_keeps_current_color() {
    let segs = parse_colored_text("\x1b[31mred\x1b[99mstill");
    assert_eq!(segs.len(), 2);
    assert_eq!((segs[0].color.r, segs[0].color.g, segs[0].color.b), (255, 85, 85));
    assert_eq!((segs[1].color.r, segs[1].color.g, segs[1].color.b), (255, 85, 85));
}

#[test]
fn bold_codes_map_to_white() {
    let segs = parse_colored_text("\x1b[31ma\x1b[1mb");
    assert_eq!(segs.len(), 2);
    assert_eq!((segs[1].color.r, segs[1].color.g, segs[1].color.b), (255, 255, 255));
}

#[test]
fn bright_color_codes_are_recognized() {
    let segs = parse_colored_text("\x1b[1;34mblue");
    assert_eq!(segs.len(), 1);
    assert_eq!((segs[0].color.r, segs[0].color.g, segs[0].color.b), (85, 85, 255));
}

#[test]
fn lone_escape_is_ordinary_text() {
    let segs = parse_colored_text("a\x1bb");
    assert_eq!(segs.len(), 1);
    assert_eq!(segs[0].text, "a\x1bb");
}

#[test]
fn empty_input_yields_no_segments() {
    let segs = parse_colored_text("");
    assert!(segs.is_empty());
}

fn seg(text: &str) -> TextSegment {
    TextSegment { text: text.to_string(), color: network_status::Color { r: 255, g: 255, b: 255 } }
}

#[test]
fn wrapping_never_splits_a_segment() {
    // Three runs, each 10 chars = 160 px wide, into 400 px of room: the
    // layout wraps whole runs and every run keeps its full character count.
    let segments = vec![seg("0123456789"), seg("abcdefghij"), seg("ABCDEFGHIJ")];
    let placed = layout_segments(&segments, 50, 400);
    assert_eq!(placed.len(), segments.len());
    let drawn: usize = segments.iter().map(|s| s.text.chars().count()).sum();
    assert_eq!(drawn, 30);
    // First run fits at the left edge; the second still fits; the third
    // moves whole to the next line at the wrap indent.
    assert_eq!(placed[0], (50, 0));
    assert_eq!(placed[1], (210, 0));
    assert_eq!(placed[2], (70, 1));
}

#[test]
fn oversized_segment_is_drawn_whole() {
    // One run wider than the whole line is still given a single placement.
    let segments = vec![seg("aaaaaaaaaaaaaaaaaaaaaaaaaaaaaa"), seg("bb")];
    let placed = layout_segments(&segments, 50, 100);
    assert_eq!(placed.len(), 2);
    assert_eq!(placed[0], (50, 0));
    assert_eq!(placed[1], (70, 1));
}
