//! The pixel-format-agnostic surface model: a destination surface is a flat
//! byte buffer addressed through a `FramebufferConfig`, and every drawing
//! primitive reduces to `fill_block`, a clipped rectangle fill.

use vstd::prelude::*;
use vstd::arithmetic::div_mod::{
    lemma_fundamental_div_mod, lemma_fundamental_div_mod_converse,
};
use crate::Color;

verus! {

/// Describes a destination surface: visible width and height in pixels, row
/// stride in pixels (which may exceed the width), bytes per pixel, and the
/// byte offset of each color channel within a pixel.
#[derive(Clone, Copy, Debug)]
pub struct FramebufferConfig {
    pub width: usize,
    pub height: usize,
    pub stride: usize,
    pub bytes_per_pixel: usize,
    pub red_offset: usize,
    pub green_offset: usize,
    pub blue_offset: usize,
}

impl FramebufferConfig {
    /// The surface invariant: the stride covers the visible width, a pixel is
    /// 3 or 4 bytes, the channel offsets are distinct and lie within a pixel,
    /// and the whole surface fits in memory.
    pub open spec fn wf(self) -> bool {
        &&& self.stride >= self.width
        &&& (self.bytes_per_pixel == 3 || self.bytes_per_pixel == 4)
        &&& self.red_offset < self.bytes_per_pixel
        &&& self.green_offset < self.bytes_per_pixel
        &&& self.blue_offset < self.bytes_per_pixel
        &&& self.red_offset != self.green_offset
        &&& self.red_offset != self.blue_offset
        &&& self.green_offset != self.blue_offset
        &&& self.stride * self.height * self.bytes_per_pixel <= usize::MAX
    }

    /// Number of bytes of a buffer that holds the whole surface.
    pub open spec fn surface_len(self) -> int {
        self.stride * self.height * self.bytes_per_pixel
    }

    /// Number of bytes of one surface row, padding included.
    pub open spec fn row_bytes(self) -> int {
        self.stride * self.bytes_per_pixel
    }

    /// First byte of the pixel at `(x, y)`.
    pub open spec fn pixel_index(self, x: int, y: int) -> int {
        (y * self.stride + x) * self.bytes_per_pixel
    }

    /// The x coordinate of the pixel that byte `j` belongs to; it lies in the
    /// padding region when it is `>= self.width`.
    pub open spec fn byte_x(self, j: int) -> int {
        (j % self.row_bytes()) / (self.bytes_per_pixel as int)
    }

    /// The y coordinate of the pixel that byte `j` belongs to.
    pub open spec fn byte_y(self, j: int) -> int {
        j / self.row_bytes()
    }

    /// Which byte of its pixel byte `j` is.
    pub open spec fn byte_channel(self, j: int) -> int {
        j % (self.bytes_per_pixel as int)
    }

    /// Whether `(x, y)` is a visible pixel coordinate.
    pub open spec fn in_bounds(self, x: int, y: int) -> bool {
        0 <= x < self.width && 0 <= y < self.height
    }
}

/// A buffer holds the surface described by `cfg` when it has exactly the
/// surface's size.
pub open spec fn buf_matches(cfg: FramebufferConfig, buf: Seq<u8>) -> bool {
    buf.len() == cfg.surface_len()
}

/// Value of channel byte `k` of a pixel painted with color `c` and alpha `a`,
/// given the byte's previous value: red, green and blue are written at their
/// offsets, the alpha byte (byte 3 of a 4-byte pixel) is written last and so
/// wins over a channel placed there, and any other byte keeps its previous
/// value.
pub open spec fn channel_byte(cfg: FramebufferConfig, c: Color, a: u8, k: int, prev: u8) -> u8 {
    if cfg.bytes_per_pixel > 3 && k == 3 {
        a
    } else if k == cfg.red_offset {
        c.r
    } else if k == cfg.green_offset {
        c.g
    } else if k == cfg.blue_offset {
        c.b
    } else {
        prev
    }
}

/// Whether byte `j` belongs to a visible pixel inside the rectangle of width
/// `w` and height `h` at `(x0, y0)`.
pub open spec fn in_block(cfg: FramebufferConfig, x0: int, y0: int, w: int, h: int, j: int) -> bool {
    let px = cfg.byte_x(j);
    let py = cfg.byte_y(j);
    &&& px < cfg.width
    &&& x0 <= px < x0 + w
    &&& y0 <= py < y0 + h
}

/// The surface after a clipped fill of the rectangle at `(x0, y0)` of size
/// `w` by `h` with color `c` and alpha `a`: every byte of a visible pixel in
/// the rectangle takes its channel value, every other byte is unchanged.
pub open spec fn fill_block_spec(
    buf: Seq<u8>,
    cfg: FramebufferConfig,
    x0: int,
    y0: int,
    w: int,
    h: int,
    c: Color,
    a: u8,
) -> Seq<u8> {
    Seq::new(
        buf.len(),
        |j: int|
            if in_block(cfg, x0, y0, w, h, j) {
                channel_byte(cfg, c, a, cfg.byte_channel(j), buf[j])
            } else {
                buf[j]
            },
    )
}

/// The bytes of the pixel at `(x, y)` are exactly those indexed
/// `pixel_index(x, y) + k` for `k < bytes_per_pixel`, and each lies inside
/// the surface.
pub proof fn lemma_byte_coords(cfg: FramebufferConfig, x: int, y: int, k: int)
    requires
        cfg.wf(),
        0 <= x < cfg.stride,
        0 <= y < cfg.height,
        0 <= k < cfg.bytes_per_pixel,
    ensures
        0 <= cfg.pixel_index(x, y) + k < cfg.surface_len(),
        cfg.byte_x(cfg.pixel_index(x, y) + k) == x,
        cfg.byte_y(cfg.pixel_index(x, y) + k) == y,
        cfg.byte_channel(cfg.pixel_index(x, y) + k) == k,
{
    let s = cfg.stride as int;
    let b = cfg.bytes_per_pixel as int;
    let hgt = cfg.height as int;
    let r = s * b;
    let j = cfg.pixel_index(x, y) + k;
    assert(j == y * r + (x * b + k)) by (nonlinear_arith)
        requires j == (y * s + x) * b + k && r == s * b;
    assert(0 <= x * b + k < r) by (nonlinear_arith)
        requires 0 <= x < s && 0 <= k < b && r == s * b;
    assert(0 <= y * r) by (nonlinear_arith)
        requires 0 <= y && r > 0;
    lemma_fundamental_div_mod_converse(j, r, y, x * b + k);
    assert(cfg.byte_y(j) == y);
    assert(j % r == x * b + k);
    lemma_fundamental_div_mod_converse(x * b + k, b, x, k);
    assert(cfg.byte_x(j) == x);
    assert(j == (y * s + x) * b + k);
    assert(0 <= y * s + x) by (nonlinear_arith)
        requires 0 <= y && 0 <= x && s >= 0;
    lemma_fundamental_div_mod_converse(j, b, y * s + x, k);
    assert(cfg.byte_channel(j) == k);
    assert(j < cfg.surface_len()) by (nonlinear_arith)
        requires
            j == y * (s * b) + (x * b + k),
            x * b + k < s * b,
            y < hgt,
            s * b >= 0,
            cfg.surface_len() == s * hgt * b;
}

/// Every byte of the surface belongs to exactly one pixel coordinate and
/// channel, recovered by `byte_x`, `byte_y` and `byte_channel`.
pub proof fn lemma_coords_of_byte(cfg: FramebufferConfig, j: int)
    requires
        cfg.wf(),
        0 <= j < cfg.surface_len(),
    ensures
        0 <= cfg.byte_x(j) < cfg.stride,
        0 <= cfg.byte_y(j) < cfg.height,
        0 <= cfg.byte_channel(j) < cfg.bytes_per_pixel,
        j == cfg.pixel_index(cfg.byte_x(j), cfg.byte_y(j)) + cfg.byte_channel(j),
{
    let s = cfg.stride as int;
    let b = cfg.bytes_per_pixel as int;
    let hgt = cfg.height as int;
    let r = s * b;
    assert(r > 0 && hgt > 0) by (nonlinear_arith)
        requires 0 <= j < s * hgt * b && r == s * b && s >= 0 && hgt >= 0 && b > 0;
    lemma_fundamental_div_mod(j, r);
    let y = j / r;
    let rem = j % r;
    assert(0 <= rem < r);
    assert(0 <= y) by (nonlinear_arith)
        requires j >= 0 && r > 0 && j == r * y + rem && rem < r;
    assert(y < hgt) by (nonlinear_arith)
        requires j == r * y + rem && 0 <= rem && j < s * hgt * b && r == s * b && r > 0;
    lemma_fundamental_div_mod(rem, b);
    let x = rem / b;
    let k = rem % b;
    assert(0 <= x < s) by (nonlinear_arith)
        requires rem == b * x + k && 0 <= k < b && 0 <= rem < s * b && b > 0;
    assert(cfg.byte_x(j) == x);
    assert(cfg.byte_y(j) == y);
    // byte_channel(j) == k: j == y * (s * b) + b * x + k == (y * s + x) * b + k
    assert(j == (y * s + x) * b + k) by (nonlinear_arith)
        requires j == (s * b) * y + rem && rem == b * x + k;
    assert(0 <= y * s + x) by (nonlinear_arith)
        requires 0 <= y && 0 <= x && s >= 0;
    lemma_fundamental_div_mod_converse(j, b, y * s + x, k);
    assert(cfg.byte_channel(j) == k);
    assert(cfg.pixel_index(x, y) + k == j) by (nonlinear_arith)
        requires j == (y * s + x) * b + k && cfg.pixel_index(x, y) == (y * s + x) * b;
}

/// Fill the rectangle of size `w` by `h` at `(x, y)` with `color`, writing
/// `alpha` into the fourth byte of each 4-byte pixel. Pixels at or beyond the
/// visible width or height are silently dropped; no other byte of the buffer
/// changes.
pub fn fill_block(
    buffer: &mut Vec<u8>,
    cfg: &FramebufferConfig,
    x: usize,
    y: usize,
    w: usize,
    h: usize,
    color: Color,
    alpha: u8,
)
    requires
        cfg.wf(),
        buf_matches(*cfg, old(buffer)@),
        x + w <= usize::MAX,
        y + h <= usize::MAX,
    ensures
        final(buffer)@ == fill_block_spec(
            old(buffer)@,
            *cfg,
            x as int,
            y as int,
            w as int,
            h as int,
            color,
            alpha,
        ),
{
    let ghost orig: Seq<u8> = buffer@;
    let ghost gspec: Seq<u8> = fill_block_spec(orig, *cfg, x as int, y as int, w as int, h as int, color, alpha);
    let y_end = if y + h > cfg.height { cfg.height } else { y + h };
    let x_end = if x + w > cfg.width { cfg.width } else { x + w };
    if y >= y_end || x >= x_end {
        proof {
            assert forall|j: int| 0 <= j < orig.len() implies !in_block(*cfg, x as int, y as int, w as int, h as int, j) by {
                lemma_coords_of_byte(*cfg, j);
            }
            assert(buffer@ =~= gspec);
        }
        return;
    }
    let mut py = y;
    while py < y_end
        invariant
            cfg.wf(),
            buf_matches(*cfg, orig),
            x < x_end <= cfg.width,
            x_end <= x + w,
            x_end == x + w || x_end == cfg.width,
            y <= py <= y_end <= cfg.height,
            y_end <= y + h,
            buffer@.len() == orig.len(),
            forall|j: int|
                0 <= j < orig.len() ==> buffer@[j] == (
                    if in_block(*cfg, x as int, y as int, w as int, h as int, j)
                        && cfg.byte_y(j) < py {
                        channel_byte(*cfg, color, alpha, cfg.byte_channel(j), orig[j])
                    } else {
                        orig[j]
                    }
                ),
        decreases y_end - py,
    {
        let mut px = x;
        while px < x_end
            invariant
                cfg.wf(),
                buf_matches(*cfg, orig),
                x < x_end <= cfg.width,
                x_end <= x + w,
                x_end == x + w || x_end == cfg.width,
                y <= py < y_end <= cfg.height,
                y_end <= y + h,
                x <= px <= x_end,
                buffer@.len() == orig.len(),
                forall|j: int|
                    0 <= j < orig.len() ==> buffer@[j] == (
                        if in_block(*cfg, x as int, y as int, w as int, h as int, j)
                            && (cfg.byte_y(j) < py
                                || (cfg.byte_y(j) == py && cfg.byte_x(j) < px)) {
                            channel_byte(*cfg, color, alpha, cfg.byte_channel(j), orig[j])
                        } else {
                            orig[j]
                        }
                    ),
            decreases x_end - px,
        {
            proof {
                lemma_byte_coords(*cfg, px as int, py as int, 0);
                lemma_byte_coords(*cfg, px as int, py as int, cfg.red_offset as int);
                lemma_byte_coords(*cfg, px as int, py as int, cfg.green_offset as int);
                lemma_byte_coords(*cfg, px as int, py as int, cfg.blue_offset as int);
                if cfg.bytes_per_pixel > 3 {
                    lemma_byte_coords(*cfg, px as int, py as int, 3);
                }
                let t = py as int * cfg.stride as int + px as int;
                assert(t <= t * cfg.bytes_per_pixel) by (nonlinear_arith)
                    requires t >= 0 && cfg.bytes_per_pixel >= 1;
                assert(t * cfg.bytes_per_pixel == cfg.pixel_index(px as int, py as int));
            }
            let ghost before: Seq<u8> = buffer@;
            let base = (py * cfg.stride + px) * cfg.bytes_per_pixel;
            buffer.set(base + cfg.red_offset, color.r);
            buffer.set(base + cfg.green_offset, color.g);
            buffer.set(base + cfg.blue_offset, color.b);
            if cfg.bytes_per_pixel > 3 {
                buffer.set(base + 3, alpha);
            }
            proof {
                assert forall|j: int| 0 <= j < orig.len() implies buffer@[j] == (
                    if in_block(*cfg, x as int, y as int, w as int, h as int, j)
                        && (cfg.byte_y(j) < py
                            || (cfg.byte_y(j) == py && cfg.byte_x(j) < px + 1)) {
                        channel_byte(*cfg, color, alpha, cfg.byte_channel(j), orig[j])
                    } else {
                        orig[j]
                    }
                ) by {
                    lemma_coords_of_byte(*cfg, j);
                }
            }
            px += 1;
        }
        proof {
            assert forall|j: int| 0 <= j < orig.len() implies (
                (in_block(*cfg, x as int, y as int, w as int, h as int, j)
                    && (cfg.byte_y(j) < py || (cfg.byte_y(j) == py && cfg.byte_x(j) < x_end)))
                    == (in_block(*cfg, x as int, y as int, w as int, h as int, j)
                    && cfg.byte_y(j) < py + 1)
            ) by {
                lemma_coords_of_byte(*cfg, j);
            }
        }
        py += 1;
    }
    proof {
        assert forall|j: int| 0 <= j < orig.len() implies buffer@[j] == gspec[j] by {
            lemma_coords_of_byte(*cfg, j);
        }
        assert(buffer@ =~= gspec);
    }
}

/// Painting a visible pixel and reading the channel bytes back through the
/// same configuration yields the painted color, whatever the channel order.
/// A 4-byte pixel must keep its channels in the first three bytes: the
/// fourth byte is the alpha byte and is overwritten last.
pub proof fn lemma_pixel_round_trip(
    buf: Seq<u8>,
    cfg: FramebufferConfig,
    x: int,
    y: int,
    c: Color,
    a: u8,
)
    requires
        cfg.wf(),
        buf_matches(cfg, buf),
        cfg.in_bounds(x, y),
        cfg.bytes_per_pixel == 3 || (cfg.red_offset != 3 && cfg.green_offset != 3
            && cfg.blue_offset != 3),
    ensures
        ({
            let out = fill_block_spec(buf, cfg, x, y, 1, 1, c, a);
            let base = cfg.pixel_index(x, y);
            &&& out[base + cfg.red_offset] == c.r
            &&& out[base + cfg.green_offset] == c.g
            &&& out[base + cfg.blue_offset] == c.b
        }),
{
    lemma_byte_coords(cfg, x, y, cfg.red_offset as int);
    lemma_byte_coords(cfg, x, y, cfg.green_offset as int);
    lemma_byte_coords(cfg, x, y, cfg.blue_offset as int);
}


/// Clipping: a fill whose rectangle starts at or beyond the visible width or
/// height writes nothing at all.
pub proof fn lemma_clip_out_of_bounds(
    buf: Seq<u8>,
    cfg: FramebufferConfig,
    x: int,
    y: int,
    w: int,
    h: int,
    c: Color,
    a: u8,
)
    requires
        cfg.wf(),
        buf_matches(cfg, buf),
        x >= cfg.width || y >= cfg.height,
    ensures
        fill_block_spec(buf, cfg, x, y, w, h, c, a) == buf,
{
    assert forall|j: int| 0 <= j < buf.len() implies !in_block(cfg, x, y, w, h, j) by {
        lemma_coords_of_byte(cfg, j);
    }
    assert(fill_block_spec(buf, cfg, x, y, w, h, c, a) =~= buf);
}

} // verus!
