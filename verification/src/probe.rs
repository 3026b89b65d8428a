//! Turning raw framebuffer geometry into a validated surface description:
//! bit offsets become byte offsets, the pixel format is classified, and the
//! memory layout (stride, size, padding) is computed for diagnostics.

use vstd::prelude::*;
use crate::surface::FramebufferConfig;

verus! {

/// Why a display path could not be used; all non-fatal, each one falls back
/// one tier.
#[derive(Clone, Copy, Debug, PartialEq, Eq, Structural)]
pub enum DisplayError {
    DeviceUnavailable,
    GeometryQueryFailed,
    MappingFailed,
    SyncFailed,
    EncodingUnavailable,
}

impl DisplayError {
    /// A short fixed description of the error.
    pub fn describe(&self) -> (s: &'static str)
        ensures
            *self is DeviceUnavailable ==> s@ == "device unavailable"@,
            *self is GeometryQueryFailed ==> s@ == "geometry query failed"@,
            *self is MappingFailed ==> s@ == "mapping failed"@,
            *self is SyncFailed ==> s@ == "sync failed"@,
            *self is EncodingUnavailable ==> s@ == "encoding unavailable"@,
    {
        match self {
            DisplayError::DeviceUnavailable => "device unavailable",
            DisplayError::GeometryQueryFailed => "geometry query failed",
            DisplayError::MappingFailed => "mapping failed",
            DisplayError::SyncFailed => "sync failed",
            DisplayError::EncodingUnavailable => "encoding unavailable",
        }
    }
}

/// The geometry a framebuffer device reports: sizes in pixels, pixel depth
/// in bits, and each channel's offset within a pixel in bits.
#[derive(Clone, Copy, Debug)]
pub struct RawGeometry {
    pub xres: u32,
    pub yres: u32,
    pub xres_virtual: u32,
    pub yres_virtual: u32,
    pub bits_per_pixel: u32,
    pub red_offset_bits: u32,
    pub green_offset_bits: u32,
    pub blue_offset_bits: u32,
    pub transp_offset_bits: u32,
}

/// Whether reported geometry yields a usable surface: everything byte
/// aligned, 3 or 4 bytes per pixel, channel offsets distinct and within the
/// pixel, the stride at least the visible width, and the whole surface small
/// enough to map.
pub open spec fn geometry_valid(g: RawGeometry) -> bool {
    &&& g.bits_per_pixel % 8 == 0
    &&& g.red_offset_bits % 8 == 0
    &&& g.green_offset_bits % 8 == 0
    &&& g.blue_offset_bits % 8 == 0
    &&& (g.bits_per_pixel / 8 == 3 || g.bits_per_pixel / 8 == 4)
    &&& g.red_offset_bits / 8 < g.bits_per_pixel / 8
    &&& g.green_offset_bits / 8 < g.bits_per_pixel / 8
    &&& g.blue_offset_bits / 8 < g.bits_per_pixel / 8
    &&& g.red_offset_bits != g.green_offset_bits
    &&& g.red_offset_bits != g.blue_offset_bits
    &&& g.green_offset_bits != g.blue_offset_bits
    &&& g.xres_virtual >= g.xres
    &&& g.xres_virtual * g.yres * (g.bits_per_pixel / 8) <= usize::MAX
}

/// The surface description that valid geometry yields.
pub open spec fn config_of_geometry(g: RawGeometry) -> FramebufferConfig {
    FramebufferConfig {
        width: g.xres as usize,
        height: g.yres as usize,
        stride: g.xres_virtual as usize,
        bytes_per_pixel: (g.bits_per_pixel / 8) as usize,
        red_offset: (g.red_offset_bits / 8) as usize,
        green_offset: (g.green_offset_bits / 8) as usize,
        blue_offset: (g.blue_offset_bits / 8) as usize,
    }
}

/// Validate reported geometry and derive the surface description from it:
/// offsets reported in bits become byte offsets. Geometry that breaks the
/// surface invariants is reported as a failed geometry query; any offset
/// combination that satisfies them is accepted.
pub fn config_from_geometry(g: &RawGeometry) -> (r: Result<FramebufferConfig, DisplayError>)
    ensures
        r is Ok <==> geometry_valid(*g),
        r is Ok ==> r->Ok_0 == config_of_geometry(*g) && r->Ok_0.wf(),
        r is Err ==> r->Err_0 is GeometryQueryFailed,
{
    if g.bits_per_pixel % 8 != 0 || g.red_offset_bits % 8 != 0 || g.green_offset_bits % 8 != 0
        || g.blue_offset_bits % 8 != 0 {
        return Err(DisplayError::GeometryQueryFailed);
    }
    let bpp = g.bits_per_pixel / 8;
    if !(bpp == 3 || bpp == 4) {
        return Err(DisplayError::GeometryQueryFailed);
    }
    if g.red_offset_bits / 8 >= bpp || g.green_offset_bits / 8 >= bpp || g.blue_offset_bits / 8
        >= bpp {
        return Err(DisplayError::GeometryQueryFailed);
    }
    if g.red_offset_bits == g.green_offset_bits || g.red_offset_bits == g.blue_offset_bits
        || g.green_offset_bits == g.blue_offset_bits {
        return Err(DisplayError::GeometryQueryFailed);
    }
    if g.xres_virtual < g.xres {
        return Err(DisplayError::GeometryQueryFailed);
    }
    let stride = g.xres_virtual as usize;
    let height = g.yres as usize;
    let bytes = bpp as usize;
    let rows = match stride.checked_mul(height) {
        Some(v) => v,
        None => {
            proof {
                lemma_size_overflow(stride as int, height as int, bytes as int);
            }
            return Err(DisplayError::GeometryQueryFailed);
        },
    };
    let total = match rows.checked_mul(bytes) {
        Some(v) => v,
        None => {
            proof {
                lemma_size_overflow(stride as int, height as int, bytes as int);
            }
            return Err(DisplayError::GeometryQueryFailed);
        },
    };
    let _ = total;
    Ok(FramebufferConfig {
        width: g.xres as usize,
        height,
        stride,
        bytes_per_pixel: bytes,
        red_offset: (g.red_offset_bits / 8) as usize,
        green_offset: (g.green_offset_bits / 8) as usize,
        blue_offset: (g.blue_offset_bits / 8) as usize,
    })
}

/// A surface whose row count or byte count overflows the address space is
/// over the size limit.
proof fn lemma_size_overflow(stride: int, height: int, bytes: int)
    requires
        0 <= stride,
        0 <= height,
        1 <= bytes,
        stride * height > usize::MAX || stride * height * bytes > usize::MAX,
    ensures
        stride * height * bytes > usize::MAX,
{
    assert(stride * height * bytes > usize::MAX) by (nonlinear_arith)
        requires 0 <= stride && 0 <= height && 1 <= bytes && (stride * height > usize::MAX
            || stride * height * bytes > usize::MAX);
}

/// The common channel layouts, classified from the reported bit offsets; an
/// unrecognized layout is not an error.
#[derive(Clone, Copy, Debug, PartialEq, Eq, Structural)]
pub enum PixelFormat {
    Rgb,
    Bgr,
    Bgra,
    Rgba,
    Custom,
}

/// Which layout the reported bit offsets spell.
pub open spec fn classify_spec(g: RawGeometry) -> PixelFormat {
    if g.red_offset_bits == 0 && g.green_offset_bits == 8 && g.blue_offset_bits == 16 {
        PixelFormat::Rgb
    } else if g.blue_offset_bits == 0 && g.green_offset_bits == 8 && g.red_offset_bits == 16 {
        PixelFormat::Bgr
    } else if g.red_offset_bits == 16 && g.green_offset_bits == 8 && g.blue_offset_bits == 0
        && g.transp_offset_bits == 24 {
        PixelFormat::Bgra
    } else if g.blue_offset_bits == 16 && g.green_offset_bits == 8 && g.red_offset_bits == 0
        && g.transp_offset_bits == 24 {
        PixelFormat::Rgba
    } else {
        PixelFormat::Custom
    }
}

/// Classify the channel layout that the reported bit offsets spell.
pub fn classify_pixel_format(g: &RawGeometry) -> (r: PixelFormat)
    ensures
        r == classify_spec(*g),
{
    if g.red_offset_bits == 0 && g.green_offset_bits == 8 && g.blue_offset_bits == 16 {
        PixelFormat::Rgb
    } else if g.blue_offset_bits == 0 && g.green_offset_bits == 8 && g.red_offset_bits == 16 {
        PixelFormat::Bgr
    } else if g.red_offset_bits == 16 && g.green_offset_bits == 8 && g.blue_offset_bits == 0
        && g.transp_offset_bits == 24 {
        PixelFormat::Bgra
    } else if g.blue_offset_bits == 16 && g.green_offset_bits == 8 && g.red_offset_bits == 0
        && g.transp_offset_bits == 24 {
        PixelFormat::Rgba
    } else {
        PixelFormat::Custom
    }
}

/// The memory layout the reported geometry implies: bytes per row, total
/// size, and the row padding beyond the visible width, for diagnostics.
pub fn memory_layout(g: &RawGeometry) -> (r: (u32, u32, u32))
    requires
        g.xres_virtual * (g.bits_per_pixel / 8) <= u32::MAX,
        g.xres_virtual * (g.bits_per_pixel / 8) * g.yres_virtual <= u32::MAX,
        g.xres <= g.xres_virtual,
    ensures
        r.0 == g.xres_virtual * (g.bits_per_pixel / 8),
        r.1 == g.xres_virtual * (g.bits_per_pixel / 8) * g.yres_virtual,
        r.2 == g.xres_virtual * (g.bits_per_pixel / 8) - g.xres * (g.bits_per_pixel / 8),
{
    let bytes = g.bits_per_pixel / 8;
    let line_size = g.xres_virtual * bytes;
    let total_size = line_size * g.yres_virtual;
    proof {
        assert(g.xres * (g.bits_per_pixel / 8) <= g.xres_virtual * (g.bits_per_pixel / 8))
            by (nonlinear_arith)
            requires g.xres <= g.xres_virtual;
    }
    let expected_line_size = g.xres * bytes;
    let padding = line_size - expected_line_size;
    (line_size, total_size, padding)
}

/// The synthetic surface used for still-image export: a fixed full-HD
/// canvas, four bytes per pixel, blue-green-red channel order with the alpha
/// byte last.
pub fn image_export_config() -> (c: FramebufferConfig)
    ensures
        c == (FramebufferConfig {
            width: 1920usize,
            height: 1080usize,
            stride: 1920usize,
            bytes_per_pixel: 4usize,
            red_offset: 2usize,
            green_offset: 1usize,
            blue_offset: 0usize,
        }),
        c.wf(),
{
    FramebufferConfig {
        width: 1920,
        height: 1080,
        stride: 1920,
        bytes_per_pixel: 4,
        red_offset: 2,
        green_offset: 1,
        blue_offset: 0,
    }
}

} // verus!
