//! Text and logo drawing: 8x8 bitmap glyphs scaled 2x, blitted through the
//! surface model with silent clipping at the surface edges.

use vstd::prelude::*;
use vstd::arithmetic::div_mod::{
    lemma_fundamental_div_mod, lemma_fundamental_div_mod_converse,
};
use crate::Color;
use crate::surface::{
    FramebufferConfig, buf_matches, channel_byte, fill_block, fill_block_spec,
    lemma_coords_of_byte,
};

verus! {

/// The 8-byte row pattern that the basic glyph table assigns to a character,
/// if it assigns one; a fixed function of the character.
pub uninterp spec fn glyph_of(c: char) -> Option<Seq<u8>>;

/// Relies on font8x8's `BASIC_FONTS.get`: a lookup in a fixed table of
/// 8-byte glyph patterns, a function of the character alone.
#[verifier::external_body]
fn glyph_lookup(c: char) -> (r: Option<[u8; 8]>)
    ensures
        r is Some <==> glyph_of(c) is Some,
        r is Some ==> r->0@ == glyph_of(c)->0 && glyph_of(c)->0.len() == 8,
{
    font8x8::UnicodeFonts::get(&font8x8::BASIC_FONTS, c)
}

/// Whether bit `col` of a glyph row is set; bit 0 is the leftmost pixel.
pub open spec fn glyph_bit(row: u8, col: usize) -> bool {
    row & (1u8 << col) != 0
}

/// Whether the point `(dx, dy)`, relative to a glyph's top-left corner, lies
/// on a set bit of the glyph `g` drawn at `scale` pixels per bit.
pub open spec fn glyph_covered(g: Seq<u8>, scale: int, dx: int, dy: int) -> bool {
    &&& 0 <= dx < 8 * scale
    &&& 0 <= dy < 8 * scale
    &&& glyph_bit(g[dy / scale], (dx / scale) as usize)
}

/// The surface after blitting glyph `g` at `(x, y)`, `scale` pixels per bit:
/// every visible pixel on a set bit takes `color` (alpha 255), every other
/// byte is unchanged.
pub open spec fn draw_glyph_spec(
    buf: Seq<u8>,
    cfg: FramebufferConfig,
    g: Seq<u8>,
    x: int,
    y: int,
    scale: int,
    color: Color,
) -> Seq<u8> {
    Seq::new(
        buf.len(),
        |j: int|
            if cfg.byte_x(j) < cfg.width && glyph_covered(g, scale, cfg.byte_x(j) - x, cfg.byte_y(j) - y) {
                channel_byte(cfg, color, 0xFF, cfg.byte_channel(j), buf[j])
            } else {
                buf[j]
            },
    )
}

/// A value in `[base * scale, (base + 1) * scale)` divides by `scale` to
/// exactly `base`.
proof fn lemma_div_block(base: int, scale: int, t: int)
    requires
        scale > 0,
        base * scale <= t,
        t < (base + 1) * scale,
    ensures
        t / scale == base,
{
    assert(t == scale * base + (t - base * scale) && 0 <= t - base * scale < scale)
        by (nonlinear_arith)
        requires base * scale <= t && t < (base + 1) * scale && scale > 0;
    lemma_fundamental_div_mod_converse(t, scale, base, t - base * scale);
}

/// Conversely, `t / scale == base` puts `t` inside that block.
proof fn lemma_block_of_div(scale: int, t: int)
    requires
        scale > 0,
        t >= 0,
    ensures
        (t / scale) * scale <= t < (t / scale + 1) * scale,
        t / scale >= 0,
{
    lemma_fundamental_div_mod(t, scale);
    assert((t / scale) * scale <= t < (t / scale + 1) * scale && t / scale >= 0)
        by (nonlinear_arith)
        requires t == scale * (t / scale) + t % scale && 0 <= t % scale < scale && t >= 0 && scale > 0;
}

/// Blit one 8x8 glyph at `(x, y)`, each set bit as a `scale` by `scale`
/// block of `color`; clipped at the surface edges.
pub fn draw_glyph(
    buffer: &mut Vec<u8>,
    cfg: &FramebufferConfig,
    g: &[u8; 8],
    x: usize,
    y: usize,
    scale: usize,
    color: Color,
)
    requires
        cfg.wf(),
        buf_matches(*cfg, old(buffer)@),
        scale >= 1,
        x + 8 * scale <= usize::MAX,
        y + 8 * scale <= usize::MAX,
    ensures
        final(buffer)@ == draw_glyph_spec(old(buffer)@, *cfg, g@, x as int, y as int, scale as int, color),
{
    let ghost orig: Seq<u8> = buffer@;
    let mut row: usize = 0;
    while row < 8
        invariant
            cfg.wf(),
            buf_matches(*cfg, orig),
            scale >= 1,
            x + 8 * scale <= usize::MAX,
            y + 8 * scale <= usize::MAX,
            row <= 8,
            buffer@.len() == orig.len(),
            forall|j: int|
                0 <= j < orig.len() ==> buffer@[j] == (
                    if cfg.byte_x(j) < cfg.width
                        && glyph_covered(g@, scale as int, cfg.byte_x(j) - x, cfg.byte_y(j) - y)
                        && (cfg.byte_y(j) - y) / (scale as int) < row {
                        channel_byte(*cfg, color, 0xFF, cfg.byte_channel(j), orig[j])
                    } else {
                        orig[j]
                    }
                ),
        decreases 8 - row,
    {
        let mut col: usize = 0;
        while col < 8
            invariant
                cfg.wf(),
                buf_matches(*cfg, orig),
                scale >= 1,
                x + 8 * scale <= usize::MAX,
                y + 8 * scale <= usize::MAX,
                row < 8,
                col <= 8,
                buffer@.len() == orig.len(),
                forall|j: int|
                    0 <= j < orig.len() ==> buffer@[j] == (
                        if cfg.byte_x(j) < cfg.width
                            && glyph_covered(g@, scale as int, cfg.byte_x(j) - x, cfg.byte_y(j) - y)
                            && ((cfg.byte_y(j) - y) / (scale as int) < row
                                || ((cfg.byte_y(j) - y) / (scale as int) == row
                                    && (cfg.byte_x(j) - x) / (scale as int) < col)) {
                            channel_byte(*cfg, color, 0xFF, cfg.byte_channel(j), orig[j])
                        } else {
                            orig[j]
                        }
                    ),
            decreases 8 - col,
        {
            proof {
                assert(col * scale <= 7 * scale && row * scale <= 7 * scale) by (nonlinear_arith)
                    requires col <= 7 && row <= 7 && scale >= 0;
            }
            let bit = g[row] & (1u8 << col) != 0;
            if bit {
                fill_block(buffer, cfg, x + col * scale, y + row * scale, scale, scale, color, 0xFF);
            }
            proof {
                let sc = scale as int;
                let bx0 = x + col * scale;
                let by0 = y + row * scale;
                assert forall|j: int| 0 <= j < orig.len() implies buffer@[j] == (
                    if cfg.byte_x(j) < cfg.width
                        && glyph_covered(g@, sc, cfg.byte_x(j) - x, cfg.byte_y(j) - y)
                        && ((cfg.byte_y(j) - y) / sc < row
                            || ((cfg.byte_y(j) - y) / sc == row
                                && (cfg.byte_x(j) - x) / sc < col + 1)) {
                        channel_byte(*cfg, color, 0xFF, cfg.byte_channel(j), orig[j])
                    } else {
                        orig[j]
                    }
                ) by {
                    lemma_coords_of_byte(*cfg, j);
                    let dx = cfg.byte_x(j) - x;
                    let dy = cfg.byte_y(j) - y;
                    assert((col as int + 1) * sc == col as int * sc + sc) by (nonlinear_arith);
                    assert((row as int + 1) * sc == row as int * sc + sc) by (nonlinear_arith);
                    if dx >= 0 && dy >= 0 {
                        lemma_block_of_div(sc, dx);
                        lemma_block_of_div(sc, dy);
                    }
                    if bx0 <= cfg.byte_x(j) < bx0 + scale && by0 <= cfg.byte_y(j) < by0 + scale {
                        lemma_div_block(col as int, sc, dx);
                        lemma_div_block(row as int, sc, dy);
                    }
                }
            }
            col += 1;
        }
        proof {
            assert forall|j: int| 0 <= j < orig.len() implies (
                (cfg.byte_x(j) < cfg.width
                    && glyph_covered(g@, scale as int, cfg.byte_x(j) - x, cfg.byte_y(j) - y)
                    && ((cfg.byte_y(j) - y) / (scale as int) < row
                        || ((cfg.byte_y(j) - y) / (scale as int) == row
                            && (cfg.byte_x(j) - x) / (scale as int) < 8)))
                    == (cfg.byte_x(j) < cfg.width
                    && glyph_covered(g@, scale as int, cfg.byte_x(j) - x, cfg.byte_y(j) - y)
                    && (cfg.byte_y(j) - y) / (scale as int) < row + 1)
            ) by {
                let dx = cfg.byte_x(j) - x;
                let dy = cfg.byte_y(j) - y;
                if glyph_covered(g@, scale as int, dx, dy) {
                    lemma_div_block_bound(scale as int, dx);
                    lemma_div_block_bound(scale as int, dy);
                }
            }
        }
        row += 1;
    }
    proof {
        let gsp = draw_glyph_spec(orig, *cfg, g@, x as int, y as int, scale as int, color);
        assert forall|j: int| 0 <= j < orig.len() implies buffer@[j] == gsp[j] by {
            let dy = cfg.byte_y(j) - y;
            let dx = cfg.byte_x(j) - x;
            if glyph_covered(g@, scale as int, dx, dy) {
                lemma_div_block_bound(scale as int, dy);
            }
        }
        assert(buffer@ =~= gsp);
    }
}

/// A point inside an 8-bit glyph row or column divides by the scale to a
/// value below 8.
proof fn lemma_div_block_bound(scale: int, t: int)
    requires
        scale > 0,
        0 <= t < 8 * scale,
    ensures
        0 <= t / scale < 8,
{
    lemma_block_of_div(scale, t);
    assert(t / scale < 8) by (nonlinear_arith)
        requires (t / scale) * scale <= t && t < 8 * scale && scale > 0 && t / scale >= 0;
}


/// Whether the point `(px, py)` lies on a set glyph bit of the text `s`
/// drawn at `(x, y)` in 16-pixel cells (8x8 glyphs scaled 2x): characters
/// without a glyph occupy their cell but paint nothing.
pub open spec fn text_covered(s: Seq<char>, x: int, y: int, px: int, py: int) -> bool {
    &&& px >= x
    &&& (px - x) / 16 < s.len()
    &&& glyph_of(s[(px - x) / 16]) is Some
    &&& glyph_covered(glyph_of(s[(px - x) / 16])->0, 2, (px - x) % 16, py - y)
}

/// The surface after drawing the text `s` at `(x, y)` in `color`: every
/// visible pixel on a set glyph bit takes the color (alpha 255), every other
/// byte is unchanged.
pub open spec fn draw_text_spec(
    buf: Seq<u8>,
    cfg: FramebufferConfig,
    s: Seq<char>,
    x: int,
    y: int,
    color: Color,
) -> Seq<u8> {
    Seq::new(
        buf.len(),
        |j: int|
            if cfg.byte_x(j) < cfg.width && text_covered(s, x, y, cfg.byte_x(j), cfg.byte_y(j)) {
                channel_byte(cfg, color, 0xFF, cfg.byte_channel(j), buf[j])
            } else {
                buf[j]
            },
    )
}

/// Draw `text` at `(x, y)` in `color`, 8x8 glyphs scaled 2x, one 16-pixel
/// cell per character; characters without a glyph are skipped, and pixels at
/// or beyond the surface edges are silently dropped.
pub fn draw_colored_text(
    buffer: &mut Vec<u8>,
    cfg: &FramebufferConfig,
    text: &str,
    x: usize,
    y: usize,
    color: Color,
)
    requires
        cfg.wf(),
        buf_matches(*cfg, old(buffer)@),
        x + 16 * text@.len() <= usize::MAX,
        y + 16 <= usize::MAX,
    ensures
        final(buffer)@ == draw_text_spec(old(buffer)@, *cfg, text@, x as int, y as int, color),
{
    let ghost orig: Seq<u8> = buffer@;
    let n = text.unicode_len();
    let mut ci: usize = 0;
    while ci < n
        invariant
            cfg.wf(),
            buf_matches(*cfg, orig),
            n == text@.len(),
            x + 16 * n <= usize::MAX,
            y + 16 <= usize::MAX,
            ci <= n,
            buffer@.len() == orig.len(),
            forall|j: int|
                0 <= j < orig.len() ==> buffer@[j] == (
                    if cfg.byte_x(j) < cfg.width
                        && text_covered(text@, x as int, y as int, cfg.byte_x(j), cfg.byte_y(j))
                        && (cfg.byte_x(j) - x) / 16 < ci {
                        channel_byte(*cfg, color, 0xFF, cfg.byte_channel(j), orig[j])
                    } else {
                        orig[j]
                    }
                ),
        decreases n - ci,
    {
        let ch = text.get_char(ci);
        let char_x = x + ci * 16;
        let glyph = glyph_lookup(ch);
        match glyph {
            Some(gl) => {
                draw_glyph(buffer, cfg, &gl, char_x, y, 2, color);
            },
            None => {},
        }
        proof {
            assert forall|j: int| 0 <= j < orig.len() implies buffer@[j] == (
                if cfg.byte_x(j) < cfg.width
                    && text_covered(text@, x as int, y as int, cfg.byte_x(j), cfg.byte_y(j))
                    && (cfg.byte_x(j) - x) / 16 < ci + 1 {
                    channel_byte(*cfg, color, 0xFF, cfg.byte_channel(j), orig[j])
                } else {
                    orig[j]
                }
            ) by {
                lemma_coords_of_byte(*cfg, j);
                let t = cfg.byte_x(j) - x;
                if t >= 0 {
                    lemma_block_of_div(16, t);
                    if t / 16 == ci {
                        lemma_fundamental_div_mod(t, 16);
                    }
                }
                if char_x <= cfg.byte_x(j) < char_x + 16 {
                    lemma_div_block(ci as int, 16, t);
                    lemma_fundamental_div_mod(t, 16);
                }
            }
        }
        ci += 1;
    }
    proof {
        let gsp = draw_text_spec(orig, *cfg, text@, x as int, y as int, color);
        assert forall|j: int| 0 <= j < orig.len() implies buffer@[j] == gsp[j] by {
            let t = cfg.byte_x(j) - x;
            if text_covered(text@, x as int, y as int, cfg.byte_x(j), cfg.byte_y(j)) {
                assert((t / 16) < n);
            }
        }
        assert(buffer@ =~= gsp);
    }
}

/// Draw `text` at `(x, y)` in white.
pub fn draw_text(buffer: &mut Vec<u8>, cfg: &FramebufferConfig, text: &str, x: usize, y: usize)
    requires
        cfg.wf(),
        buf_matches(*cfg, old(buffer)@),
        x + 16 * text@.len() <= usize::MAX,
        y + 16 <= usize::MAX,
    ensures
        final(buffer)@ == draw_text_spec(
            old(buffer)@,
            *cfg,
            text@,
            x as int,
            y as int,
            Color { r: 255, g: 255, b: 255 },
        ),
{
    draw_colored_text(buffer, cfg, text, x, y, Color { r: 255, g: 255, b: 255 });
}

/// Draw a horizontal gray separator bar of the given `length`, two pixels
/// thick, at `(x, y)`; clipped at the surface edges.
pub fn draw_separator_line(
    buffer: &mut Vec<u8>,
    cfg: &FramebufferConfig,
    x: usize,
    y: usize,
    length: usize,
)
    requires
        cfg.wf(),
        buf_matches(*cfg, old(buffer)@),
        x + length <= usize::MAX,
        y + 2 <= usize::MAX,
    ensures
        final(buffer)@ == fill_block_spec(
            old(buffer)@,
            *cfg,
            x as int,
            y as int,
            length as int,
            2,
            Color { r: 100, g: 100, b: 100 },
            0xFF,
        ),
{
    fill_block(buffer, cfg, x, y, length, 2, Color { r: 100, g: 100, b: 100 }, 0xFF);
}

} // verus!
