//! The pre-rasterized logo bitmap: a fixed-size RGBA pixel block drawn onto a
//! white padded background; fully transparent source pixels are skipped.

use vstd::prelude::*;
use crate::Color;
use crate::surface::{
    FramebufferConfig, buf_matches, channel_byte, fill_block, lemma_coords_of_byte,
};

verus! {

/// A pre-rasterized bitmap in row-major RGBA order, four bytes per pixel.
pub struct Logo {
    pub width: usize,
    pub height: usize,
    pub data: Vec<u8>,
}

impl Logo {
    /// The bitmap invariant: the data holds exactly four bytes per pixel.
    pub open spec fn wf(self) -> bool {
        self.data@.len() == self.width * self.height * 4
    }

    /// Byte `k` of the source pixel at `(lx, ly)`: red, green, blue, alpha.
    pub open spec fn texel(self, lx: int, ly: int, k: int) -> u8 {
        self.data@[(ly * self.width + lx) * 4 + k]
    }

    /// Wrap a row-major RGBA byte vector as a bitmap; rejects a vector whose
    /// length is not exactly four bytes per pixel.
    pub fn new(width: usize, height: usize, data: Vec<u8>) -> (r: Option<Logo>)
        ensures
            r is Some <==> data@.len() == width * height * 4,
            r is Some ==> r->0.wf() && r->0.width == width && r->0.height == height
                && r->0.data@ == data@,
    {
        let n = data.len();
        let px = match width.checked_mul(height) {
            Some(p) => p,
            None => {
                proof {
                    lemma_len_small(width as int, height as int, n as int);
                }
                return None;
            },
        };
        let bytes = match px.checked_mul(4) {
            Some(b) => b,
            None => {
                proof {
                    lemma_len_small(width as int, height as int, n as int);
                }
                return None;
            },
        };
        if n == bytes {
            Some(Logo { width, height, data })
        } else {
            None
        }
    }
}

/// A byte count that fits in memory is below the size of any overflowing
/// pixel grid.
proof fn lemma_len_small(w: int, h: int, len: int)
    requires
        0 <= w,
        0 <= h,
        len <= usize::MAX,
        w * h > usize::MAX || w * h * 4 > usize::MAX,
    ensures
        len != w * h * 4,
{
    assert(w * h * 4 > usize::MAX) by (nonlinear_arith)
        requires 0 <= w && 0 <= h && (w * h > usize::MAX || w * h * 4 > usize::MAX);
}

/// The index of byte `k` of source pixel `(lx, ly)` lies inside the bitmap
/// data.
proof fn lemma_texel_index(w: int, h: int, lx: int, ly: int, k: int)
    requires
        0 <= lx < w,
        0 <= ly < h,
        0 <= k < 4,
    ensures
        0 <= ly * w + lx,
        ly * w + lx <= (ly * w + lx) * 4,
        0 <= (ly * w + lx) * 4 + k < w * h * 4,
{
    assert(0 <= ly * w + lx && ly * w + lx <= (ly * w + lx) * 4
        && (ly * w + lx) * 4 + k < w * h * 4) by (nonlinear_arith)
        requires 0 <= lx < w && 0 <= ly < h && 0 <= k < 4;
}

/// The surface after drawing `logo` at `(x, y)`: a white rectangle with a
/// 10-pixel padding on each side (clamped at the surface origin), and on top
/// of it every source pixel with a nonzero alpha, written with its own alpha
/// byte; everything else is unchanged.
pub open spec fn draw_logo_spec(
    buf: Seq<u8>,
    cfg: FramebufferConfig,
    logo: Logo,
    x: int,
    y: int,
) -> Seq<u8> {
    let bx0 = if x >= 10 { x - 10 } else { 0 };
    let by0 = if y >= 10 { y - 10 } else { 0 };
    Seq::new(
        buf.len(),
        |j: int| {
            let px = cfg.byte_x(j);
            let py = cfg.byte_y(j);
            let k = cfg.byte_channel(j);
            if px < cfg.width && x <= px < x + logo.width && y <= py < y + logo.height
                && logo.texel(px - x, py - y, 3) > 0 {
                channel_byte(
                    cfg,
                    (Color {
                        r: logo.texel(px - x, py - y, 0),
                        g: logo.texel(px - x, py - y, 1),
                        b: logo.texel(px - x, py - y, 2),
                    }),
                    logo.texel(px - x, py - y, 3),
                    k,
                    buf[j],
                )
            } else if px < cfg.width && bx0 <= px < bx0 + logo.width + 20
                && by0 <= py < by0 + logo.height + 20 {
                channel_byte(cfg, (Color { r: 255, g: 255, b: 255 }), 0xFF, k, buf[j])
            } else {
                buf[j]
            }
        },
    )
}

/// Draw the logo bitmap at `(x, y)`: first a white background rectangle with
/// 10 pixels of padding, then each source pixel whose alpha is nonzero;
/// clipped at the surface edges.
pub fn draw_logo(
    buffer: &mut Vec<u8>,
    cfg: &FramebufferConfig,
    x: usize,
    y: usize,
    logo: &Logo,
)
    requires
        cfg.wf(),
        buf_matches(*cfg, old(buffer)@),
        logo.wf(),
        x + logo.width + 20 <= usize::MAX,
        y + logo.height + 20 <= usize::MAX,
    ensures
        final(buffer)@ == draw_logo_spec(old(buffer)@, *cfg, *logo, x as int, y as int),
{
    let ghost orig: Seq<u8> = buffer@;
    let _data_len = logo.data.len();
    let bx0 = if x >= 10 { x - 10 } else { 0 };
    let by0 = if y >= 10 { y - 10 } else { 0 };
    fill_block(
        buffer,
        cfg,
        bx0,
        by0,
        logo.width + 20,
        logo.height + 20,
        Color { r: 255, g: 255, b: 255 },
        0xFF,
    );
    let mut ly: usize = 0;
    while ly < logo.height
        invariant
            cfg.wf(),
            buf_matches(*cfg, orig),
            logo.wf(),
            x + logo.width + 20 <= usize::MAX,
            y + logo.height + 20 <= usize::MAX,
            bx0 == (if x >= 10 { x - 10 } else { 0 }),
            by0 == (if y >= 10 { y - 10 } else { 0 }),
            ly <= logo.height,
            logo.data@.len() <= usize::MAX,
            buffer@.len() == orig.len(),
            forall|j: int|
                0 <= j < orig.len() ==> buffer@[j] == logo_progress(
                    orig,
                    *cfg,
                    *logo,
                    x as int,
                    y as int,
                    0,
                    ly as int,
                )[j],
        decreases logo.height - ly,
    {
        let mut lx: usize = 0;
        while lx < logo.width
            invariant
                cfg.wf(),
                buf_matches(*cfg, orig),
                logo.wf(),
                x + logo.width + 20 <= usize::MAX,
                y + logo.height + 20 <= usize::MAX,
                bx0 == (if x >= 10 { x - 10 } else { 0 }),
                by0 == (if y >= 10 { y - 10 } else { 0 }),
                ly < logo.height,
                lx <= logo.width,
                logo.data@.len() <= usize::MAX,
                buffer@.len() == orig.len(),
                forall|j: int|
                    0 <= j < orig.len() ==> buffer@[j] == logo_progress(
                        orig,
                        *cfg,
                        *logo,
                        x as int,
                        y as int,
                        lx as int,
                        ly as int,
                    )[j],
            decreases logo.width - lx,
        {
            proof {
                lemma_texel_index(logo.width as int, logo.height as int, lx as int, ly as int, 0);
            }
            let off = (ly * logo.width + lx) * 4;
            let a = logo.data[off + 3];
            if a > 0 {
                let c = Color {
                    r: logo.data[off],
                    g: logo.data[off + 1],
                    b: logo.data[off + 2],
                };
                fill_block(buffer, cfg, x + lx, y + ly, 1, 1, c, a);
            }
            proof {
                assert forall|j: int| 0 <= j < orig.len() implies buffer@[j] == logo_progress(
                    orig,
                    *cfg,
                    *logo,
                    x as int,
                    y as int,
                    lx as int + 1,
                    ly as int,
                )[j] by {
                    lemma_coords_of_byte(*cfg, j);
                }
            }
            lx += 1;
        }
        proof {
            assert forall|j: int| 0 <= j < orig.len() implies logo_progress(
                orig,
                *cfg,
                *logo,
                x as int,
                y as int,
                logo.width as int,
                ly as int,
            )[j] == logo_progress(orig, *cfg, *logo, x as int, y as int, 0, ly as int + 1)[j] by {
            }
        }
        ly += 1;
    }
    proof {
        let gsp = draw_logo_spec(orig, *cfg, *logo, x as int, y as int);
        assert forall|j: int| 0 <= j < orig.len() implies buffer@[j] == gsp[j] by {
        }
        assert(buffer@ =~= gsp);
    }
}

/// The surface part way through drawing the logo: the white background is
/// complete, and the source pixels strictly before `(lx, ly)` in row-major
/// order are drawn.
pub open spec fn logo_progress(
    buf: Seq<u8>,
    cfg: FramebufferConfig,
    logo: Logo,
    x: int,
    y: int,
    lx: int,
    ly: int,
) -> Seq<u8> {
    let bx0 = if x >= 10 { x - 10 } else { 0 };
    let by0 = if y >= 10 { y - 10 } else { 0 };
    Seq::new(
        buf.len(),
        |j: int| {
            let px = cfg.byte_x(j);
            let py = cfg.byte_y(j);
            let k = cfg.byte_channel(j);
            if px < cfg.width && x <= px < x + logo.width && y <= py < y + logo.height
                && (py - y < ly || (py - y == ly && px - x < lx))
                && logo.texel(px - x, py - y, 3) > 0 {
                channel_byte(
                    cfg,
                    (Color {
                        r: logo.texel(px - x, py - y, 0),
                        g: logo.texel(px - x, py - y, 1),
                        b: logo.texel(px - x, py - y, 2),
                    }),
                    logo.texel(px - x, py - y, 3),
                    k,
                    buf[j],
                )
            } else if px < cfg.width && bx0 <= px < bx0 + logo.width + 20
                && by0 <= py < by0 + logo.height + 20 {
                channel_byte(cfg, (Color { r: 255, g: 255, b: 255 }), 0xFF, k, buf[j])
            } else {
                buf[j]
            }
        },
    )
}

} // verus!
