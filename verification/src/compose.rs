//! Laying colored runs out on the surface: greedy word-wrap that never
//! splits a run, and the whole-frame composition of quiet zone, QR symbol,
//! logo, text sections and footer.

use vstd::prelude::*;
use crate::Color;
use crate::ansi::{
    TextSegment, parse_colored_spec, parse_colored_text, lemma_parse_colored_bounds, segs_view,
    total_chars,
};
use crate::draw::{draw_colored_text, draw_text, draw_text_spec};
use crate::logo::{Logo, draw_logo, draw_logo_spec};
use crate::qr::{QrMatrix, draw_qr, draw_qr_spec, lemma_div_mul_le};
use crate::state::DisplayState;
use crate::surface::{FramebufferConfig, buf_matches, fill_block, fill_block_spec};

verus! {

/// Where each run of a line is drawn: the x position and the line index, in
/// order of the runs. A run that would cross the right margin moves whole to
/// the head of the next line, indented 20 pixels; a run is never split.
pub open spec fn placements_from(
    segs: Seq<(Seq<char>, Color)>,
    i: int,
    cx: int,
    line: int,
    x: int,
    maxw: int,
) -> Seq<(int, int)>
    decreases segs.len() - i,
{
    if i < 0 || i >= segs.len() {
        Seq::empty()
    } else {
        let w = segs[i].0.len() * 16;
        let wrap = cx + w > x + maxw && cx > x;
        let cx2 = if wrap {
            x + 20
        } else {
            cx
        };
        let l2 = if wrap {
            line + 1
        } else {
            line
        };
        seq![(cx2, l2)] + placements_from(segs, i + 1, cx2 + w, l2, x, maxw)
    }
}

/// The placements of a line's runs, starting at `x` on line 0.
pub open spec fn seg_placements(segs: Seq<(Seq<char>, Color)>, x: int, maxw: int) -> Seq<
    (int, int),
> {
    placements_from(segs, 0, x, 0, x, maxw)
}

/// The line index after laying out the runs from `i` onward.
pub open spec fn lines_after(
    segs: Seq<(Seq<char>, Color)>,
    i: int,
    cx: int,
    line: int,
    x: int,
    maxw: int,
) -> int
    decreases segs.len() - i,
{
    if i < 0 || i >= segs.len() {
        line
    } else {
        let w = segs[i].0.len() * 16;
        let wrap = cx + w > x + maxw && cx > x;
        let cx2 = if wrap {
            x + 20
        } else {
            cx
        };
        let l2 = if wrap {
            line + 1
        } else {
            line
        };
        lines_after(segs, i + 1, cx2 + w, l2, x, maxw)
    }
}

/// How many lines the layout of a run list consumes.
pub open spec fn spec_lines_used(segs: Seq<(Seq<char>, Color)>, x: int, maxw: int) -> int {
    lines_after(segs, 0, x, 0, x, maxw) + 1
}

/// Wrapping never splits a run: the layout assigns every run exactly one
/// place, so the glyph cells drawn across all produced lines cover exactly
/// the runs' combined character count.
pub proof fn lemma_wrap_never_splits(segs: Seq<(Seq<char>, Color)>, x: int, maxw: int)
    ensures
        seg_placements(segs, x, maxw).len() == segs.len(),
{
    lemma_placements_len(segs, 0, x, 0, x, maxw);
}

/// Each suffix of the layout yields one placement per remaining run.
proof fn lemma_placements_len(
    segs: Seq<(Seq<char>, Color)>,
    i: int,
    cx: int,
    line: int,
    x: int,
    maxw: int,
)
    requires
        0 <= i <= segs.len(),
    ensures
        placements_from(segs, i, cx, line, x, maxw).len() == segs.len() - i,
    decreases segs.len() - i,
{
    if i < segs.len() {
        let w = segs[i].0.len() * 16;
        let wrap = cx + w > x + maxw && cx > x;
        let cx2 = if wrap {
            x + 20
        } else {
            cx
        };
        let l2 = if wrap {
            line + 1
        } else {
            line
        };
        lemma_placements_len(segs, i + 1, cx2 + w, l2, x, maxw);
    }
}

/// Combined character count of the first `i` runs.
pub open spec fn chars_upto(segs: Seq<(Seq<char>, Color)>, i: int) -> int {
    total_chars(segs.take(i))
}

/// The character counts of prefixes grow one run at a time.
proof fn lemma_chars_upto_step(segs: Seq<(Seq<char>, Color)>, i: int)
    requires
        0 <= i < segs.len(),
    ensures
        chars_upto(segs, i + 1) == chars_upto(segs, i) + segs[i].0.len(),
{
    assert(segs.take(i + 1).drop_last() =~= segs.take(i));
    assert(segs.take(i + 1).last() == segs[i]);
}

/// Character counts are never negative.
proof fn lemma_total_chars_nonneg(segs: Seq<(Seq<char>, Color)>)
    ensures
        total_chars(segs) >= 0,
    decreases segs.len(),
{
    if segs.len() > 0 {
        lemma_total_chars_nonneg(segs.drop_last());
    }
}

/// Lay the runs of a line out: the x position and line index where each run
/// is drawn whole, wrapping before any run that would cross `x + max_width`.
pub fn layout_segments(segments: &Vec<TextSegment>, x: usize, max_width: usize) -> (r: Vec<
    (usize, usize),
>)
    requires
        x + 20 + 16 * total_chars(segs_view(segments@)) <= usize::MAX,
        x + max_width <= usize::MAX,
        forall|k: int| 0 <= k < segments@.len() ==> #[trigger] segs_view(segments@)[k].0.len()
            >= 0,
    ensures
        r@.map_values(|p: (usize, usize)| (p.0 as int, p.1 as int)) == seg_placements(
            segs_view(segments@),
            x as int,
            max_width as int,
        ),
        r@.len() == segments@.len(),
        forall|k: int| 0 <= k < r@.len() ==> #[trigger] r@[k].1 <= k,
{
    let ghost segs = segs_view(segments@);
    let mut out: Vec<(usize, usize)> = Vec::new();
    let mut cx: usize = x;
    let mut line: usize = 0;
    let mut i: usize = 0;
    proof {
        lemma_total_chars_nonneg(segs);
        assert(segs.take(0) =~= Seq::<(Seq<char>, Color)>::empty());
        assert(out@.map_values(|p: (usize, usize)| (p.0 as int, p.1 as int)) =~= Seq::<(int, int)>::empty());
    }
    while i < segments.len()
        invariant
            segs == segs_view(segments@),
            i <= segments@.len(),
            x + 20 + 16 * total_chars(segs) <= usize::MAX,
            x + max_width <= usize::MAX,
            cx <= x + 20 + 16 * chars_upto(segs, i as int),
            x <= cx,
            line <= i,
            i == 0 ==> line == 0 && cx == x,
            i >= 1 ==> line + 1 <= i,
            out@.len() == i,
            seg_placements(segs, x as int, max_width as int) == out@.map_values(
                |p: (usize, usize)| (p.0 as int, p.1 as int),
            ) + placements_from(segs, i as int, cx as int, line as int, x as int, max_width as int),
            forall|k: int| 0 <= k < out@.len() ==> #[trigger] out@[k].1 <= k,
        decreases segments@.len() - i,
    {
        proof {
            lemma_total_chars_nonneg(segs);
            lemma_total_chars_nonneg(segs.take(i as int));
            lemma_total_chars_nonneg(segs.take(i as int + 1));
            lemma_chars_upto_step(segs, i as int);
            lemma_chars_upto_le_total(segs, i as int + 1);
        }
        let w = segments[i].text.as_str().unicode_len() * 16;
        let wrap = cx + w > x + max_width && cx > x;
        if wrap {
            cx = x + 20;
            line = line + 1;
        }
        let ghost before = out@;
        out.push((cx, line));
        proof {
            let pv = |p: (usize, usize)| (p.0 as int, p.1 as int);
            assert(out@.map_values(pv) =~= before.map_values(pv).push((cx as int, line as int)));
            assert(before.map_values(pv).push((cx as int, line as int)) + placements_from(
                segs,
                i as int + 1,
                cx as int + w,
                line as int,
                x as int,
                max_width as int,
            ) =~= before.map_values(pv) + (seq![(cx as int, line as int)] + placements_from(
                segs,
                i as int + 1,
                cx as int + w,
                line as int,
                x as int,
                max_width as int,
            )));
        }
        cx = cx + w;
        i += 1;
    }
    proof {
        assert(segs.take(segs.len() as int) =~= segs);
        assert(seg_placements(segs, x as int, max_width as int) =~= out@.map_values(
            |p: (usize, usize)| (p.0 as int, p.1 as int),
        ));
    }
    out
}

/// A prefix holds no more characters than the whole.
proof fn lemma_chars_upto_le_total(segs: Seq<(Seq<char>, Color)>, i: int)
    requires
        0 <= i <= segs.len(),
    ensures
        chars_upto(segs, i) <= total_chars(segs),
    decreases segs.len() - i,
{
    if i < segs.len() {
        lemma_chars_upto_step(segs, i);
        lemma_chars_upto_le_total(segs, i + 1);
    } else {
        assert(segs.take(i) =~= segs);
    }
}

/// The surface after drawing the runs from `i` onward at their wrapped
/// positions, each line 20 pixels below the last.
pub open spec fn line_stage_from(
    buf: Seq<u8>,
    cfg: FramebufferConfig,
    segs: Seq<(Seq<char>, Color)>,
    i: int,
    cx: int,
    line: int,
    x: int,
    maxw: int,
    y: int,
) -> Seq<u8>
    decreases segs.len() - i,
{
    if i < 0 || i >= segs.len() {
        buf
    } else {
        let w = segs[i].0.len() * 16;
        let wrap = cx + w > x + maxw && cx > x;
        let cx2 = if wrap {
            x + 20
        } else {
            cx
        };
        let l2 = if wrap {
            line + 1
        } else {
            line
        };
        line_stage_from(
            draw_text_spec(buf, cfg, segs[i].0, cx2, y + l2 * 20, segs[i].1),
            cfg,
            segs,
            i + 1,
            cx2 + w,
            l2,
            x,
            maxw,
            y,
        )
    }
}

/// The surface after drawing one raw address line at `(x, y)`: its colored
/// runs, wrapped at `width - 100`.
pub open spec fn draw_colored_line_spec(
    buf: Seq<u8>,
    cfg: FramebufferConfig,
    text: Seq<char>,
    x: int,
    y: int,
) -> Seq<u8> {
    let segs = parse_colored_spec(text);
    line_stage_from(buf, cfg, segs, 0, x, 0, x, cfg.width - 100, y)
}

/// How many display lines one raw address line consumes.
pub open spec fn line_count_spec(cfg: FramebufferConfig, text: Seq<char>, x: int) -> int {
    spec_lines_used(parse_colored_spec(text), x, cfg.width - 100)
}

/// Draw one raw address line at `(x, y)`: parse its colored runs and draw
/// each whole at its wrapped position. Returns how many display lines were
/// used.
pub fn draw_colored_line(
    buffer: &mut Vec<u8>,
    cfg: &FramebufferConfig,
    text: &str,
    x: usize,
    y: usize,
) -> (lines: usize)
    requires
        cfg.wf(),
        buf_matches(*cfg, old(buffer)@),
        cfg.width >= 100,
        x + cfg.width <= usize::MAX,
        x + 20 + 16 * text@.len() <= usize::MAX,
        y + 20 * text@.len() + 36 <= usize::MAX,
    ensures
        final(buffer)@ == draw_colored_line_spec(old(buffer)@, *cfg, text@, x as int, y as int),
        lines == line_count_spec(*cfg, text@, x as int),
        1 <= lines <= text@.len() + 1,
{
    let ghost orig: Seq<u8> = buffer@;
    let ghost segs = parse_colored_spec(text@);
    let ghost maxw = cfg.width - 100;
    proof {
        lemma_parse_colored_bounds(text@);
        lemma_total_chars_nonneg(segs);
        assert(segs.take(0) =~= Seq::<(Seq<char>, Color)>::empty());
    }
    let segments = parse_colored_text(text);
    let max_width = cfg.width - 100;
    let mut cx: usize = x;
    let mut line: usize = 0;
    let mut i: usize = 0;
    while i < segments.len()
        invariant
            cfg.wf(),
            buf_matches(*cfg, orig),
            segs == parse_colored_spec(text@),
            segs == segs_view(segments@),
            maxw == max_width,
            max_width == cfg.width - 100,
            total_chars(segs) <= text@.len(),
            segs.len() <= text@.len(),
            x + cfg.width <= usize::MAX,
            x + 20 + 16 * text@.len() <= usize::MAX,
            y + 20 * text@.len() + 36 <= usize::MAX,
            i <= segments@.len(),
            cx <= x + 20 + 16 * chars_upto(segs, i as int),
            x <= cx,
            line <= i,
            i == 0 ==> line == 0 && cx == x,
            i >= 1 ==> line + 1 <= i,
            buffer@.len() == orig.len(),
            line_stage_from(
                buffer@,
                *cfg,
                segs,
                i as int,
                cx as int,
                line as int,
                x as int,
                maxw as int,
                y as int,
            ) == draw_colored_line_spec(orig, *cfg, text@, x as int, y as int),
            lines_after(segs, i as int, cx as int, line as int, x as int, maxw as int)
                == lines_after(segs, 0, x as int, 0, x as int, maxw as int),
        decreases segments@.len() - i,
    {
        proof {
            lemma_total_chars_nonneg(segs);
            lemma_total_chars_nonneg(segs.take(i as int));
            lemma_total_chars_nonneg(segs.take(i as int + 1));
            lemma_chars_upto_step(segs, i as int);
            lemma_chars_upto_le_total(segs, i as int + 1);
        }
        let w = segments[i].text.as_str().unicode_len() * 16;
        let wrap = cx + w > x + max_width && cx > x;
        if wrap {
            cx = x + 20;
            line = line + 1;
        }
        draw_colored_text(
            buffer,
            cfg,
            segments[i].text.as_str(),
            cx,
            y + line * 20,
            segments[i].color,
        );
        proof {
            assert(segments@[i as int].text@ == segs[i as int].0);
            assert(segments@[i as int].color == segs[i as int].1);
        }
        cx = cx + w;
        i += 1;
    }
    proof {
        lemma_lines_after_bound(segs, 0, x as int, 0, x as int, maxw as int);
    }
    line + 1
}

/// Drawing a line of runs never changes the buffer's length.
proof fn lemma_line_stage_len(
    buf: Seq<u8>,
    cfg: FramebufferConfig,
    segs: Seq<(Seq<char>, Color)>,
    i: int,
    cx: int,
    line: int,
    x: int,
    maxw: int,
    y: int,
)
    ensures
        line_stage_from(buf, cfg, segs, i, cx, line, x, maxw, y).len() == buf.len(),
    decreases segs.len() - i,
{
    if 0 <= i < segs.len() {
        let w = segs[i].0.len() * 16;
        let wrap = cx + w > x + maxw && cx > x;
        let cx2 = if wrap {
            x + 20
        } else {
            cx
        };
        let l2 = if wrap {
            line + 1
        } else {
            line
        };
        lemma_line_stage_len(
            draw_text_spec(buf, cfg, segs[i].0, cx2, y + l2 * 20, segs[i].1),
            cfg,
            segs,
            i + 1,
            cx2 + w,
            l2,
            x,
            maxw,
            y,
        );
    }
}

/// The layout never consumes more lines than it has runs left plus its
/// starting line.
proof fn lemma_lines_after_bound(
    segs: Seq<(Seq<char>, Color)>,
    i: int,
    cx: int,
    line: int,
    x: int,
    maxw: int,
)
    requires
        0 <= i <= segs.len(),
    ensures
        line <= lines_after(segs, i, cx, line, x, maxw) <= line + segs.len() - i,
    decreases segs.len() - i,
{
    if i < segs.len() {
        let w = segs[i].0.len() * 16;
        let wrap = cx + w > x + maxw && cx > x;
        let cx2 = if wrap {
            x + 20
        } else {
            cx
        };
        let l2 = if wrap {
            line + 1
        } else {
            line
        };
        lemma_lines_after_bound(segs, i + 1, cx2 + w, l2, x, maxw);
    }
}


/// A buffer of the given length holding only zero bytes: the cleared
/// surface.
pub open spec fn zero_bytes(len: nat) -> Seq<u8> {
    Seq::new(len, |j: int| 0u8)
}

/// Zero the whole buffer: the black background.
pub fn clear_buffer(buffer: &mut Vec<u8>)
    ensures
        final(buffer)@ == zero_bytes(old(buffer)@.len()),
{
    let n = buffer.len();
    let mut i: usize = 0;
    while i < n
        invariant
            n == buffer@.len(),
            i <= n,
            forall|j: int| 0 <= j < i ==> buffer@[j] == 0u8,
        decreases n - i,
    {
        buffer.set(i, 0);
        i += 1;
    }
    proof {
        assert(buffer@ =~= zero_bytes(buffer@.len()));
    }
}

/// One more than the character count of each remaining raw address line,
/// summed: an upper bound on the display lines their wrapped rendering can
/// consume.
pub open spec fn lines_budget(lines: Seq<Seq<char>>, i: int) -> int
    decreases lines.len() - i,
{
    if i < 0 || i >= lines.len() {
        0
    } else {
        lines[i].len() + 1 + lines_budget(lines, i + 1)
    }
}

/// The budget is nonnegative and shrinks as lines are consumed.
proof fn lemma_budget_bounds(lines: Seq<Seq<char>>, i: int)
    requires
        0 <= i <= lines.len(),
    ensures
        lines_budget(lines, i) >= 0,
        i < lines.len() ==> lines[i].len() + 1 + lines_budget(lines, i + 1) == lines_budget(
            lines,
            i,
        ),
    decreases lines.len() - i,
{
    if i < lines.len() {
        lemma_budget_bounds(lines, i + 1);
    }
}

/// The surface and the display-line offset after drawing the raw address
/// lines from `i` onward, each at the indent of 70 pixels, `22 * offset`
/// pixels below `base_y`.
pub open spec fn addrs_stage(
    buf: Seq<u8>,
    cfg: FramebufferConfig,
    lines: Seq<Seq<char>>,
    i: int,
    line_offset: int,
    base_y: int,
) -> (Seq<u8>, int)
    decreases lines.len() - i,
{
    if i < 0 || i >= lines.len() {
        (buf, line_offset)
    } else {
        let b2 = draw_colored_line_spec(buf, cfg, lines[i], 70, base_y + 22 * line_offset);
        let lo2 = line_offset + line_count_spec(cfg, lines[i], 70);
        addrs_stage(b2, cfg, lines, i + 1, lo2, base_y)
    }
}

/// The full frame: cleared surface, white quiet zone, QR symbol, logo, the
/// three labeled text sections with the wrapped address lines, and the
/// footer with its separator bar.
pub open spec fn render_spec(
    buf: Seq<u8>,
    cfg: FramebufferConfig,
    m: QrMatrix,
    qr_size: int,
    qr_pixel_size: int,
    x_offset: int,
    y_offset: int,
    pass: Seq<char>,
    onion: Seq<char>,
    addr_lines: Seq<Seq<char>>,
    host: Seq<char>,
    logo: Logo,
) -> Seq<u8> {
    let white = Color { r: 255, g: 255, b: 255 };
    let scale = qr_pixel_size / qr_size;
    let qzp = 4 * scale;
    let total = qr_pixel_size + 2 * qzp;
    let b1 = zero_bytes(buf.len());
    let b2 = fill_block_spec(b1, cfg, x_offset - qzp, y_offset - qzp, total, total, white, 0xFF);
    let b3 = draw_qr_spec(b2, cfg, m, x_offset, y_offset, scale);
    let b4 = draw_logo_spec(b3, cfg, logo, 30, 30);
    let tys = y_offset + qr_pixel_size + 50;
    let b5 = draw_text_spec(b4, cfg, "Login Credentials"@, 50, tys, white);
    let b6 = draw_text_spec(b5, cfg, "  Root password: "@ + pass, 50, tys + 30, white);
    let net_y = tys + 60;
    let b7 = draw_text_spec(b6, cfg, "Network Information"@, 50, net_y, white);
    let folded = addrs_stage(b7, cfg, addr_lines, 0, 1, net_y + 30);
    let remote_y = net_y + 30 + 22 * folded.1 + 10;
    let b9 = draw_text_spec(folded.0, cfg, "Remote Access"@, 50, remote_y, white);
    let b10 = draw_text_spec(b9, cfg, "  Tor Hidden Service: "@ + onion, 50, remote_y + 30, white);
    let b11 = draw_text_spec(
        b10,
        cfg,
        "  Multicast DNS: "@ + host + ".local"@,
        50,
        remote_y + 52,
        white,
    );
    let footer_y = remote_y + 94;
    let b12 = fill_block_spec(
        b11,
        cfg,
        50,
        footer_y,
        cfg.width - 100,
        2,
        (Color { r: 100, g: 100, b: 100 }),
        0xFF,
    );
    draw_text_spec(b12, cfg, "Press 'Ctrl-C' for console access"@, 50, footer_y + 20, white)
}

/// Render one full frame into the surface buffer: clear it, draw the quiet
/// zone and QR symbol, the logo, the credential, network and remote-access
/// sections, and the footer. Every pixel at or beyond the surface edges is
/// silently dropped.
pub fn render_display(
    buffer: &mut Vec<u8>,
    fb_config: &FramebufferConfig,
    code: &QrMatrix,
    qr_size: usize,
    qr_pixel_size: usize,
    x_offset: usize,
    y_offset: usize,
    state: &DisplayState,
    logo: &Logo,
)
    requires
        fb_config.wf(),
        buf_matches(*fb_config, old(buffer)@),
        code.wf(),
        qr_size == code.size,
        qr_size >= 1,
        logo.wf(),
        fb_config.width >= 100,
        fb_config.width <= usize::MAX - 100,
        qr_pixel_size <= usize::MAX / 16,
        x_offset <= usize::MAX / 4,
        y_offset <= usize::MAX / 4,
        x_offset >= 4 * (qr_pixel_size as int / qr_size as int),
        y_offset >= 4 * (qr_pixel_size as int / qr_size as int),
        logo.width <= usize::MAX / 4,
        logo.height <= usize::MAX / 4,
        state.root_password@.len() <= usize::MAX / 64,
        state.onion_hostname@.len() <= usize::MAX / 64,
        state.hostname@.len() <= usize::MAX / 64,
        y_offset + qr_pixel_size + 400 + 22 * (1 + lines_budget(state.ip_addrs.deep_view(), 0))
            <= usize::MAX,
    ensures
        final(buffer)@ == render_spec(
            old(buffer)@,
            *fb_config,
            *code,
            qr_size as int,
            qr_pixel_size as int,
            x_offset as int,
            y_offset as int,
            state.root_password@,
            state.onion_hostname@,
            state.ip_addrs.deep_view(),
            state.hostname@,
            *logo,
        ),
{
    let ghost orig: Seq<u8> = buffer@;
    let ghost lines = state.ip_addrs.deep_view();
    let white = Color { r: 255, g: 255, b: 255 };
    proof {
        lemma_budget_bounds(lines, 0);
        reveal_strlit("Login Credentials");
        reveal_strlit("  Root password: ");
        reveal_strlit("Network Information");
        reveal_strlit("Remote Access");
        reveal_strlit("  Tor Hidden Service: ");
        reveal_strlit("  Multicast DNS: ");
        reveal_strlit(".local");
        reveal_strlit("Press 'Ctrl-C' for console access");
    }
    // Quiet zone geometry.
    let scale = qr_pixel_size / qr_size;
    proof {
        lemma_div_mul_le(qr_pixel_size as int, qr_size as int, scale as int);
        assert(scale <= scale * qr_size) by (nonlinear_arith)
            requires scale >= 0 && qr_size >= 1;
        assert(code.size * scale <= qr_pixel_size) by (nonlinear_arith)
            requires scale * qr_size <= qr_pixel_size && code.size == qr_size;
    }
    let quiet_zone_pixels = 4 * scale;
    let total_size = qr_pixel_size + quiet_zone_pixels * 2;
    let qz_start_x = x_offset - quiet_zone_pixels;
    let qz_start_y = y_offset - quiet_zone_pixels;
    clear_buffer(buffer);
    fill_block(buffer, fb_config, qz_start_x, qz_start_y, total_size, total_size, white, 0xFF);
    let ghost b2 = buffer@;
    if scale >= 1 {
        draw_qr(buffer, fb_config, code, x_offset, y_offset, scale);
    } else {
        proof {
            assert(buffer@ =~= draw_qr_spec(b2, *fb_config, *code, x_offset as int, y_offset as int, 0));
        }
    }
    draw_logo(buffer, fb_config, 30, 30, logo);
    // Text sections below the symbol.
    let text_y_start = y_offset + qr_pixel_size + 50;
    draw_text(buffer, fb_config, "Login Credentials", 50, text_y_start);
    let mut pass_line = String::new();
    pass_line.append("  Root password: ");
    pass_line.append(state.root_password.as_str());
    draw_text(buffer, fb_config, pass_line.as_str(), 50, text_y_start + 30);
    let network_section_y = text_y_start + 60;
    draw_text(buffer, fb_config, "Network Information", 50, network_section_y);
    let ghost b7 = buffer@;
    let ghost base_y = network_section_y as int + 30;
    let mut line_offset: usize = 1;
    let mut i: usize = 0;
    while i < state.ip_addrs.len()
        invariant
            fb_config.wf(),
            buf_matches(*fb_config, orig),
            lines == state.ip_addrs.deep_view(),
            i <= lines.len(),
            fb_config.width >= 100,
            fb_config.width <= usize::MAX - 100,
            y_offset + qr_pixel_size + 400 + 22 * (1 + lines_budget(lines, 0)) <= usize::MAX,
            network_section_y == y_offset + qr_pixel_size + 110,
            base_y == y_offset + qr_pixel_size + 140,
            buffer@.len() == orig.len(),
            line_offset >= 1,
            line_offset + lines_budget(lines, i as int) <= 1 + lines_budget(lines, 0),
            addrs_stage(buffer@, *fb_config, lines, i as int, line_offset as int, base_y)
                == addrs_stage(b7, *fb_config, lines, 0, 1, base_y),
        decreases lines.len() - i,
    {
        proof {
            lemma_budget_bounds(lines, i as int);
            lemma_budget_bounds(lines, i as int + 1);
            assert(state.ip_addrs@[i as int]@ == lines[i as int]);
            lemma_line_stage_len(
                buffer@,
                *fb_config,
                parse_colored_spec(lines[i as int]),
                0,
                70,
                0,
                70,
                fb_config.width - 100,
                base_y + 22 * line_offset,
            );
        }
        let y = network_section_y + 30 + 22 * line_offset;
        let lines_used = draw_colored_line(
            buffer,
            fb_config,
            state.ip_addrs[i].as_str(),
            70,
            y,
        );
        line_offset = line_offset + lines_used;
        i += 1;
    }
    let remote_section_y = network_section_y + 30 + 22 * line_offset + 10;
    draw_text(buffer, fb_config, "Remote Access", 50, remote_section_y);
    let mut tor_line = String::new();
    tor_line.append("  Tor Hidden Service: ");
    tor_line.append(state.onion_hostname.as_str());
    draw_text(buffer, fb_config, tor_line.as_str(), 50, remote_section_y + 30);
    let mut dns_line = String::new();
    dns_line.append("  Multicast DNS: ");
    dns_line.append(state.hostname.as_str());
    dns_line.append(".local");
    draw_text(buffer, fb_config, dns_line.as_str(), 50, remote_section_y + 52);
    let footer_y = remote_section_y + 94;
    fill_block(
        buffer,
        fb_config,
        50,
        footer_y,
        fb_config.width - 100,
        2,
        Color { r: 100, g: 100, b: 100 },
        0xFF,
    );
    draw_text(buffer, fb_config, "Press 'Ctrl-C' for console access", 50, footer_y + 20);
}

} // verus!
