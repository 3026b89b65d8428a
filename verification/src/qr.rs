//! The QR symbol: an N by N grid of dark and light modules produced by the
//! outside encoder, its placement and scale on the surface, and its blit.

use vstd::prelude::*;
use vstd::arithmetic::div_mod::{
    lemma_fundamental_div_mod, lemma_fundamental_div_mod_converse,
};
use crate::Color;
use crate::surface::{
    FramebufferConfig, buf_matches, channel_byte, fill_block, lemma_coords_of_byte,
};

verus! {

/// A square grid of QR modules; `true` is a dark module.
pub struct QrMatrix {
    pub size: usize,
    pub modules: Vec<bool>,
}

impl QrMatrix {
    /// The grid invariant: the row-major module vector holds exactly
    /// `size * size` entries.
    pub open spec fn wf(self) -> bool {
        self.modules@.len() == self.size * self.size
    }

    /// The grid as a sequence of rows.
    pub open spec fn rows(self) -> Seq<Seq<bool>> {
        Seq::new(
            self.size as nat,
            |my: int| Seq::new(self.size as nat, |mx: int| self.modules@[my * self.size + mx]),
        )
    }
}

/// The module grid that the outside QR encoder produces for a text, if the
/// text is encodable; a fixed function of the text alone.
pub uninterp spec fn qr_modules_of(s: Seq<char>) -> Option<Seq<Seq<bool>>>;

/// Relies on qrcode's `QrCode::new`, `width` and `into_colors`: a
/// deterministic encoding of the text into a square module grid of at least
/// 21 modules per side, row-major, one color per module; it fails exactly
/// when the data is too long for the largest symbol.
#[verifier::external_body]
fn qr_encode(text: &str) -> (r: Option<QrMatrix>)
    ensures
        r is Some <==> qr_modules_of(text@) is Some,
        r is Some ==> r->0.wf() && r->0.size >= 21
            && r->0.rows() == qr_modules_of(text@)->0,
{
    match qrcode::QrCode::new(text) {
        Ok(code) => {
            let size = code.width();
            let modules = code.into_colors().into_iter().map(|c| c == qrcode::Color::Dark).collect();
            Some(QrMatrix { size, modules })
        },
        Err(_) => None,
    }
}

/// The payload encoded in place of one that the encoder cannot take.
pub open spec fn placeholder_payload() -> Seq<char> {
    r#"{"status": "waiting"}"#@
}

/// The module grid drawn when even the placeholder payload cannot be
/// encoded: an empty symbol of the smallest QR size.
pub open spec fn blank_rows() -> Seq<Seq<bool>> {
    Seq::new(21, |my: int| Seq::new(21, |mx: int| false))
}

/// The grid that `make_qr` yields for a payload: the payload's own symbol,
/// else the placeholder's, else the blank symbol.
pub open spec fn qr_for_payload(s: Seq<char>) -> Seq<Seq<bool>> {
    if qr_modules_of(s) is Some {
        qr_modules_of(s)->0
    } else if qr_modules_of(placeholder_payload()) is Some {
        qr_modules_of(placeholder_payload())->0
    } else {
        blank_rows()
    }
}

/// Build the all-light fallback symbol.
fn blank_matrix() -> (m: QrMatrix)
    ensures
        m.wf(),
        m.size == 21,
        m.rows() == blank_rows(),
{
    let mut modules: Vec<bool> = Vec::new();
    let mut i: usize = 0;
    while i < 441
        invariant
            i <= 441,
            modules@.len() == i,
            forall|k: int| 0 <= k < i ==> !modules@[k],
        decreases 441 - i,
    {
        modules.push(false);
        i += 1;
    }
    let m = QrMatrix { size: 21, modules };
    proof {
        assert forall|my: int| 0 <= my < 21 implies m.rows()[my] =~= blank_rows()[my] by {
            assert forall|mx: int| 0 <= mx < 21 implies m.rows()[my][mx] == false by {
                assert(0 <= my * 21 + mx < 441) by (nonlinear_arith)
                    requires 0 <= my < 21 && 0 <= mx < 21;
            }
        }
        assert(m.rows() =~= blank_rows());
    }
    m
}

/// Encode `text` as a QR symbol, falling back to the placeholder payload and
/// then to the blank symbol; never an error.
pub fn make_qr(text: &str) -> (m: QrMatrix)
    ensures
        m.wf(),
        m.size >= 21,
        m.size == qr_for_payload(text@).len(),
        m.rows() == qr_for_payload(text@),
{
    match qr_encode(text) {
        Some(m) => m,
        None => {
            match qr_encode(r#"{"status": "waiting"}"#) {
                Some(m) => m,
                None => blank_matrix(),
            }
        },
    }
}

/// The scale, in pixels per module, chosen for a symbol of `n` modules per
/// side: the largest scale that leaves half the width and the height above a
/// 400-pixel text allowance for the symbol with its 4-module quiet zone, and
/// at least 1.
pub open spec fn qr_scale(cfg: FramebufferConfig, n: int) -> int {
    let avail = if cfg.height >= 400 { cfg.height - 400 } else { 0 };
    let by_width = cfg.width as int / ((n + 8) * 2);
    let by_height = avail / (n + 8);
    let s = if by_width <= by_height { by_width } else { by_height };
    if s < 1 { 1 } else { s }
}

/// `a / b * b` is at most `a`, and a value at most `a / b` times `b` is at
/// most `a`.
pub proof fn lemma_div_mul_le(a: int, b: int, s: int)
    requires
        a >= 0,
        b > 0,
        0 <= s <= a / b,
    ensures
        s * b <= a,
{
    lemma_fundamental_div_mod(a, b);
    assert(s * b <= a) by (nonlinear_arith)
        requires a == b * (a / b) + a % b && 0 <= a % b && 0 <= s <= a / b && b > 0;
}

/// Compute the QR layout for a symbol of `qr_size` modules per side:
/// the symbol size back, its size in pixels, and the origin of its top-left
/// module, horizontally centering symbol plus quiet zone and placing it
/// below a fixed 80-pixel top margin.
pub fn calculate_qr_layout(fb_config: &FramebufferConfig, qr_size: usize) -> (r: (
    usize,
    usize,
    usize,
    usize,
))
    requires
        fb_config.wf(),
        1 <= qr_size,
        qr_size + 8 <= fb_config.width,
        fb_config.width <= usize::MAX / 4,
    ensures
        ({
            let n = qr_size as int;
            let s = qr_scale(*fb_config, n);
            &&& r.0 == qr_size
            &&& r.1 == n * s
            &&& r.2 == (fb_config.width - (n + 8) * s) / 2 + 4 * s
            &&& r.3 == 80 + 4 * s
            &&& (n + 8) * s <= fb_config.width
            &&& s >= 1
        }),
{
    let ghost n = qr_size as int;
    let quiet_zone: usize = 4;
    let qr_with_quiet = qr_size + quiet_zone * 2;
    let available_height = if fb_config.height >= 400 { fb_config.height - 400 } else { 0 };
    let by_width = fb_config.width / (qr_with_quiet * 2);
    let by_height = available_height / qr_with_quiet;
    let scale_min = if by_width <= by_height { by_width } else { by_height };
    let scale = if scale_min < 1 { 1 } else { scale_min };
    proof {
        assert(scale == qr_scale(*fb_config, n));
        if scale_min >= 1 {
            lemma_div_mul_le(fb_config.width as int, (n + 8) * 2, scale as int);
            assert(scale * ((n + 8) * 2) == (n + 8) * scale * 2) by (nonlinear_arith);
            assert((n + 8) * scale <= fb_config.width);
        } else {
            assert((n + 8) * scale == n + 8) by (nonlinear_arith)
                requires scale == 1;
        }
        assert(n * scale <= (n + 8) * scale && 4 * scale <= (n + 8) * scale
            && 8 * scale <= (n + 8) * scale) by (nonlinear_arith)
            requires n >= 1 && scale >= 1;
        assert(n * scale == n * (scale as int));
    }
    let qr_pixel_size = qr_size * scale;
    let quiet_zone_pixels = quiet_zone * scale;
    let total_size = qr_pixel_size + quiet_zone_pixels * 2;
    proof {
        assert(total_size == (n + 8) * scale) by (nonlinear_arith)
            requires total_size == n * scale + 4 * scale * 2;
    }
    let x_offset = (fb_config.width - total_size) / 2 + quiet_zone_pixels;
    let y_offset = 80 + quiet_zone_pixels;
    (qr_size, qr_pixel_size, x_offset, y_offset)
}

/// The surface after blitting the symbol `m` with its top-left module at
/// `(x0, y0)`, `scale` pixels per module: a dark module paints black, a
/// light module white (alpha 255), and everything else is unchanged.
pub open spec fn draw_qr_spec(
    buf: Seq<u8>,
    cfg: FramebufferConfig,
    m: QrMatrix,
    x0: int,
    y0: int,
    scale: int,
) -> Seq<u8> {
    Seq::new(
        buf.len(),
        |j: int| {
            let px = cfg.byte_x(j);
            let py = cfg.byte_y(j);
            if px < cfg.width && x0 <= px < x0 + m.size * scale && y0 <= py < y0 + m.size * scale {
                let dark = m.modules@[((py - y0) / scale) * m.size + ((px - x0) / scale)];
                channel_byte(
                    cfg,
                    (if dark {
                        Color { r: 0, g: 0, b: 0 }
                    } else {
                        Color { r: 255, g: 255, b: 255 }
                    }),
                    0xFF,
                    cfg.byte_channel(j),
                    buf[j],
                )
            } else {
                buf[j]
            }
        },
    )
}

/// A value in `[base * scale, (base + 1) * scale)` divides by `scale` to
/// exactly `base`.
proof fn lemma_div_block(base: int, scale: int, t: int)
    requires
        scale > 0,
        base * scale <= t,
        t < (base + 1) * scale,
    ensures
        t / scale == base,
{
    assert(t == scale * base + (t - base * scale) && 0 <= t - base * scale < scale)
        by (nonlinear_arith)
        requires base * scale <= t && t < (base + 1) * scale && scale > 0;
    lemma_fundamental_div_mod_converse(t, scale, base, t - base * scale);
}

/// Conversely, `t / scale == base` puts `t` inside that block.
proof fn lemma_block_of_div(scale: int, t: int)
    requires
        scale > 0,
        t >= 0,
    ensures
        (t / scale) * scale <= t < (t / scale + 1) * scale,
        t / scale >= 0,
{
    lemma_fundamental_div_mod(t, scale);
    assert((t / scale) * scale <= t < (t / scale + 1) * scale && t / scale >= 0)
        by (nonlinear_arith)
        requires t == scale * (t / scale) + t % scale && 0 <= t % scale < scale && t >= 0 && scale > 0;
}

/// A point inside the symbol area divides by the scale to a module index
/// below the symbol size.
proof fn lemma_module_bound(n: int, scale: int, t: int)
    requires
        scale > 0,
        0 <= t < n * scale,
    ensures
        0 <= t / scale < n,
{
    lemma_block_of_div(scale, t);
    assert(t / scale < n) by (nonlinear_arith)
        requires (t / scale) * scale <= t && t < n * scale && scale > 0 && t / scale >= 0;
}

/// Blit the QR symbol `m` with its top-left module at `(x0, y0)`, each
/// module as a `scale` by `scale` block: dark modules black, light modules
/// white; clipped at the surface edges.
pub fn draw_qr(
    buffer: &mut Vec<u8>,
    cfg: &FramebufferConfig,
    m: &QrMatrix,
    x0: usize,
    y0: usize,
    scale: usize,
)
    requires
        cfg.wf(),
        buf_matches(*cfg, old(buffer)@),
        m.wf(),
        scale >= 1,
        m.size * scale <= usize::MAX,
        x0 + m.size * scale <= usize::MAX,
        y0 + m.size * scale <= usize::MAX,
    ensures
        final(buffer)@ == draw_qr_spec(old(buffer)@, *cfg, *m, x0 as int, y0 as int, scale as int),
{
    let ghost orig: Seq<u8> = buffer@;
    let _modules_len = m.modules.len();
    let n = m.size;
    let mut my: usize = 0;
    while my < n
        invariant
            cfg.wf(),
            buf_matches(*cfg, orig),
            m.wf(),
            n == m.size,
            scale >= 1,
            m.size * scale <= usize::MAX,
            x0 + m.size * scale <= usize::MAX,
            y0 + m.size * scale <= usize::MAX,
            my <= n,
            m.modules@.len() <= usize::MAX,
            buffer@.len() == orig.len(),
            forall|j: int|
                0 <= j < orig.len() ==> buffer@[j] == qr_progress(
                    orig,
                    *cfg,
                    *m,
                    x0 as int,
                    y0 as int,
                    scale as int,
                    0,
                    my as int,
                )[j],
        decreases n - my,
    {
        let mut mx: usize = 0;
        while mx < n
            invariant
                cfg.wf(),
                buf_matches(*cfg, orig),
                m.wf(),
                n == m.size,
                scale >= 1,
                m.size * scale <= usize::MAX,
                x0 + m.size * scale <= usize::MAX,
                y0 + m.size * scale <= usize::MAX,
                my < n,
                mx <= n,
                m.modules@.len() <= usize::MAX,
                buffer@.len() == orig.len(),
                forall|j: int|
                    0 <= j < orig.len() ==> buffer@[j] == qr_progress(
                        orig,
                        *cfg,
                        *m,
                        x0 as int,
                        y0 as int,
                        scale as int,
                        mx as int,
                        my as int,
                    )[j],
            decreases n - mx,
        {
            proof {
                assert(0 <= my * n + mx < n * n && mx * scale + scale <= n * scale
                    && my * scale + scale <= n * scale && mx * scale >= 0 && my * scale >= 0)
                    by (nonlinear_arith)
                    requires 0 <= mx < n && 0 <= my < n && scale >= 1;
            }
            let dark = m.modules[my * n + mx];
            let color = if dark {
                Color { r: 0, g: 0, b: 0 }
            } else {
                Color { r: 255, g: 255, b: 255 }
            };
            fill_block(buffer, cfg, x0 + mx * scale, y0 + my * scale, scale, scale, color, 0xFF);
            proof {
                let sc = scale as int;
                let bx0 = x0 + mx * scale;
                let by0 = y0 + my * scale;
                assert forall|j: int| 0 <= j < orig.len() implies buffer@[j] == qr_progress(
                    orig,
                    *cfg,
                    *m,
                    x0 as int,
                    y0 as int,
                    sc,
                    mx as int + 1,
                    my as int,
                )[j] by {
                    lemma_coords_of_byte(*cfg, j);
                    let dx = cfg.byte_x(j) - x0;
                    let dy = cfg.byte_y(j) - y0;
                    assert((mx as int + 1) * sc == mx as int * sc + sc) by (nonlinear_arith);
                    assert((my as int + 1) * sc == my as int * sc + sc) by (nonlinear_arith);
                    if dx >= 0 && dy >= 0 {
                        lemma_block_of_div(sc, dx);
                        lemma_block_of_div(sc, dy);
                    }
                    if bx0 <= cfg.byte_x(j) < bx0 + scale && by0 <= cfg.byte_y(j) < by0 + scale {
                        lemma_div_block(mx as int, sc, dx);
                        lemma_div_block(my as int, sc, dy);
                    }
                }
            }
            mx += 1;
        }
        proof {
            assert forall|j: int| 0 <= j < orig.len() implies qr_progress(
                orig,
                *cfg,
                *m,
                x0 as int,
                y0 as int,
                scale as int,
                n as int,
                my as int,
            )[j] == qr_progress(orig, *cfg, *m, x0 as int, y0 as int, scale as int, 0, my as int + 1)[j] by {
                let sc = scale as int;
                let dx = cfg.byte_x(j) - x0;
                let dy = cfg.byte_y(j) - y0;
                if 0 <= dx < n * sc && 0 <= dy < n * sc {
                    lemma_module_bound(n as int, sc, dx);
                    lemma_module_bound(n as int, sc, dy);
                }
            }
        }
        my += 1;
    }
    proof {
        let gsp = draw_qr_spec(orig, *cfg, *m, x0 as int, y0 as int, scale as int);
        assert forall|j: int| 0 <= j < orig.len() implies buffer@[j] == gsp[j] by {
            let sc = scale as int;
            let dx = cfg.byte_x(j) - x0;
            let dy = cfg.byte_y(j) - y0;
            if 0 <= dx < n * sc && 0 <= dy < n * sc {
                lemma_module_bound(n as int, sc, dy);
            }
        }
        assert(buffer@ =~= gsp);
    }
}

/// The surface part way through the QR blit: the modules strictly before
/// `(mx, my)` in row-major order are painted.
pub open spec fn qr_progress(
    buf: Seq<u8>,
    cfg: FramebufferConfig,
    m: QrMatrix,
    x0: int,
    y0: int,
    scale: int,
    mx: int,
    my: int,
) -> Seq<u8> {
    Seq::new(
        buf.len(),
        |j: int| {
            let px = cfg.byte_x(j);
            let py = cfg.byte_y(j);
            if px < cfg.width && x0 <= px < x0 + m.size * scale && y0 <= py < y0 + m.size * scale
                && ((py - y0) / scale < my || ((py - y0) / scale == my && (px - x0) / scale < mx)) {
                let dark = m.modules@[((py - y0) / scale) * m.size + ((px - x0) / scale)];
                channel_byte(
                    cfg,
                    (if dark {
                        Color { r: 0, g: 0, b: 0 }
                    } else {
                        Color { r: 255, g: 255, b: 255 }
                    }),
                    0xFF,
                    cfg.byte_channel(j),
                    buf[j],
                )
            } else {
                buf[j]
            }
        },
    )
}

} // verus!
