//! Capture sources and how they are placed on a canvas.
use crate::media;
use crate::media::{ColorInfo, PixelFormat, VideoFrame};
use vstd::prelude::*;

verus! {

#[derive(Debug, Clone, Copy, PartialEq, Eq, Structural)]
pub enum CaptureSourceType {
    Display,
    Window,
    Application,
}

/// Something that can be captured.
#[derive(Debug, PartialEq)]
pub struct CaptureSource {
    pub id: String,
    pub name: String,
    pub source_type: CaptureSourceType,
    pub width: u32,
    pub height: u32,
}

/// Whether a source is shown whole or fills its destination.
#[derive(Debug, Clone, Copy, PartialEq, Eq, Structural)]
pub enum FitMode {
    Fit,
    Fill,
}

#[derive(Debug, Clone, Copy, PartialEq, Eq, Structural)]
pub struct SourceRect {
    pub x: i32,
    pub y: i32,
    pub width: u32,
    pub height: u32,
}

impl SourceRect {
    pub fn new(x: i32, y: i32, width: u32, height: u32) -> (r: Self)
        ensures
            r == (SourceRect { x, y, width, height }),
    {
        SourceRect { x, y, width, height }
    }

    /// A rectangle at the origin.
    pub fn from_dimensions(width: u32, height: u32) -> (r: Self)
        ensures
            r == (SourceRect { x: 0, y: 0, width, height }),
    {
        Self::new(0, 0, width, height)
    }
}

#[derive(Debug, Clone, Copy, PartialEq, Eq, Structural)]
pub struct SourceGeometry {
    pub source_rect: SourceRect,
    pub dest_rect: SourceRect,
    pub fit_mode: FitMode,
    pub preserves_aspect_ratio: bool,
}

/// How a source's shape compares with its destination's: whether it is wider, and
/// the length of its other side once it spans the destination, rounded.
#[derive(Debug, Clone, Copy, PartialEq, Eq, Structural)]
pub struct AspectFit {
    pub wider: bool,
    pub letterbox_side: u32,
    pub crop_side: u32,
}

/// Half of a difference, rounded towards zero.
pub open spec fn half(d: int) -> int {
    if d >= 0 {
        d / 2
    } else {
        -((-d) / 2)
    }
}

/// Whether one of the sides is missing, so that there is no shape to keep.
pub open spec fn shapeless(src_w: u32, src_h: u32, dst_w: u32, dst_h: u32) -> bool {
    src_w == 0 || src_h == 0 || dst_w == 0 || dst_h == 0
}

/// The whole source, centred in the destination; at least one pixel of it shows.
pub open spec fn letterboxed(
    src_w: u32,
    src_h: u32,
    dst_w: u32,
    dst_h: u32,
    wider: bool,
    side: u32,
) -> SourceRect {
    if shapeless(src_w, src_h, dst_w, dst_h) {
        SourceRect { x: 0, y: 0, width: dst_w, height: dst_h }
    } else {
        let span = if wider {
            dst_h
        } else {
            dst_w
        };
        let kept: u32 = if side > span {
            span
        } else if side == 0 {
            1
        } else {
            side
        };
        if wider {
            SourceRect { x: 0, y: half(dst_h - kept) as i32, width: dst_w, height: kept }
        } else {
            SourceRect { x: half(dst_w - kept) as i32, y: 0, width: kept, height: dst_h }
        }
    }
}

/// The source, centred, over the whole destination; what does not fit is cut off.
pub open spec fn cropped(
    src_w: u32,
    src_h: u32,
    dst_w: u32,
    dst_h: u32,
    wider: bool,
    side: u32,
) -> SourceRect {
    if shapeless(src_w, src_h, dst_w, dst_h) {
        SourceRect { x: 0, y: 0, width: dst_w, height: dst_h }
    } else if wider {
        SourceRect { x: half(dst_w - side) as i32, y: 0, width: side, height: dst_h }
    } else {
        SourceRect { x: 0, y: half(dst_h - side) as i32, width: dst_w, height: side }
    }
}

fn half_of(d: i32) -> (h: i32)
    requires
        d > i32::MIN,
    ensures
        h == half(d as int),
{
    if d >= 0 {
        d / 2
    } else {
        -((-d) / 2)
    }
}

fn fit_letterbox(
    src_w: u32,
    src_h: u32,
    dst_w: u32,
    dst_h: u32,
    wider: bool,
    side: u32,
) -> (r: SourceRect)
    requires
        dst_w <= i32::MAX,
        dst_h <= i32::MAX,
    ensures
        r == letterboxed(src_w, src_h, dst_w, dst_h, wider, side),
{
    if src_w == 0 || src_h == 0 || dst_w == 0 || dst_h == 0 {
        return SourceRect::from_dimensions(dst_w, dst_h);
    }
    let span: u32 = if wider {
        dst_h
    } else {
        dst_w
    };
    let kept: u32 = if side > span {
        span
    } else if side == 0 {
        1
    } else {
        side
    };
    let margin: i32 = half_of((span - kept) as i32);
    if wider {
        SourceRect::new(0, margin, dst_w, kept)
    } else {
        SourceRect::new(margin, 0, kept, dst_h)
    }
}

fn fit_crop(src_w: u32, src_h: u32, dst_w: u32, dst_h: u32, wider: bool, side: u32) -> (r:
    SourceRect)
    requires
        dst_w <= i32::MAX,
        dst_h <= i32::MAX,
        side <= i32::MAX,
    ensures
        r == cropped(src_w, src_h, dst_w, dst_h, wider, side),
{
    if src_w == 0 || src_h == 0 || dst_w == 0 || dst_h == 0 {
        return SourceRect::from_dimensions(dst_w, dst_h);
    }
    if wider {
        SourceRect::new(half_of(dst_w as i32 - side as i32), 0, side, dst_h)
    } else {
        SourceRect::new(0, half_of(dst_h as i32 - side as i32), dst_w, side)
    }
}

/// Places a source on a destination of the given size. `fit` compares their
/// shapes; it is not looked at when one of the sides is zero.
pub fn compute_source_geometry(
    source: &CaptureSource,
    dest_width: u32,
    dest_height: u32,
    fit_mode: FitMode,
    fit: AspectFit,
) -> (g: SourceGeometry)
    requires
        dest_width <= i32::MAX,
        dest_height <= i32::MAX,
        fit_mode == FitMode::Fill ==> fit.crop_side <= i32::MAX,
    ensures
        g.source_rect == (SourceRect { x: 0, y: 0, width: source.width, height: source.height }),
        g.dest_rect == match fit_mode {
            FitMode::Fit => letterboxed(
                source.width,
                source.height,
                dest_width,
                dest_height,
                fit.wider,
                fit.letterbox_side,
            ),
            FitMode::Fill => cropped(
                source.width,
                source.height,
                dest_width,
                dest_height,
                fit.wider,
                fit.crop_side,
            ),
        },
        g.fit_mode == fit_mode,
        g.preserves_aspect_ratio == (fit_mode == FitMode::Fit),
{
    let dest_rect = match fit_mode {
        FitMode::Fit => fit_letterbox(
            source.width,
            source.height,
            dest_width,
            dest_height,
            fit.wider,
            fit.letterbox_side,
        ),
        FitMode::Fill => fit_crop(
            source.width,
            source.height,
            dest_width,
            dest_height,
            fit.wider,
            fit.crop_side,
        ),
    };
    SourceGeometry {
        source_rect: SourceRect::from_dimensions(source.width, source.height),
        dest_rect,
        fit_mode,
        preserves_aspect_ratio: fit_mode == FitMode::Fit,
    }
}

/// A letterboxed source lies inside its destination and shows.
pub proof fn letterbox_stays_inside(
    src_w: u32,
    src_h: u32,
    dst_w: u32,
    dst_h: u32,
    wider: bool,
    side: u32,
)
    requires
        0 < dst_w <= i32::MAX,
        0 < dst_h <= i32::MAX,
    ensures
        ({
            let r = letterboxed(src_w, src_h, dst_w, dst_h, wider, side);
            &&& 0 <= r.x && r.x + r.width <= dst_w && r.width >= 1
            &&& 0 <= r.y && r.y + r.height <= dst_h && r.height >= 1
        }),
{
}

/// The bytes of a live picture, which is 1280 pixels wide and 720 high.
pub const LIVE_BYTES: usize = 3_686_400;

/// The live picture that the native capture left in a buffer, if it did.
pub fn live_frame(flags: i32, data: Vec<u8>) -> (r: Option<VideoFrame>)
    requires
        data@.len() == LIVE_BYTES,
    ensures
        match r {
            Some(f) => {
                &&& flags != 0
                &&& f.wf()
                &&& f.pts_us == 0
                &&& f.width == 1280
                &&& f.height == 720
                &&& f.stride == 5120
                &&& f.format == PixelFormat::Bgra8888
                &&& media::is_rec709(f.color)
                &&& f.data == data
            },
            None => flags == 0,
        },
{
    if flags == 0 {
        return None;
    }
    Some(
        VideoFrame {
            pts_us: 0,
            width: 1280,
            height: 720,
            stride: 5120,
            format: PixelFormat::Bgra8888,
            color: ColorInfo::rec709_full(),
            data,
        },
    )
}

/// A picture that is fitted keeps one side of its place and lies in the middle of the other:
/// what is left on both sides of it differs by no more than a pixel. The other side is what
/// its shape asks for, as far as there is room.
pub proof fn letterboxed_pictures_lie_in_the_middle(
    src_w: u32,
    src_h: u32,
    dst_w: u32,
    dst_h: u32,
    wider: bool,
    side: u32,
)
    requires
        0 < src_w,
        0 < src_h,
        0 < dst_w <= i32::MAX,
        0 < dst_h <= i32::MAX,
    ensures
        ({
            let r = letterboxed(src_w, src_h, dst_w, dst_h, wider, side);
            let left = r.x as int;
            let right = dst_w - (r.x + r.width);
            let above = r.y as int;
            let below = dst_h - (r.y + r.height);
            &&& 0 <= right - left <= 1
            &&& 0 <= below - above <= 1
            &&& wider ==> r.width == dst_w && left == 0
            &&& !wider ==> r.height == dst_h && above == 0
            &&& wider && 0 < side <= dst_h ==> r.height == side
            &&& !wider && 0 < side <= dst_w ==> r.width == side
            &&& wider && side > dst_h ==> r.height == dst_h
            &&& !wider && side > dst_w ==> r.width == dst_w
        }),
{
}

/// A picture that fills its place covers it: it keeps one side, and what reaches over the
/// other on both ends differs by no more than a pixel.
pub proof fn cropped_pictures_cover_their_place(
    src_w: u32,
    src_h: u32,
    dst_w: u32,
    dst_h: u32,
    wider: bool,
    side: u32,
)
    requires
        0 < src_w,
        0 < src_h,
        0 < dst_w <= i32::MAX,
        0 < dst_h <= i32::MAX,
        side <= i32::MAX,
        wider ==> dst_w <= side,
        !wider ==> dst_h <= side,
    ensures
        ({
            let r = cropped(src_w, src_h, dst_w, dst_h, wider, side);
            let left = -(r.x as int);
            let right = r.x + r.width - dst_w;
            let above = -(r.y as int);
            let below = r.y + r.height - dst_h;
            &&& 0 <= left && 0 <= right - left <= 1
            &&& 0 <= above && 0 <= below - above <= 1
            &&& wider ==> r.height == dst_h && r.width == side
            &&& !wider ==> r.width == dst_w && r.height == side
        }),
{
}

/// Where one of the two has no area, the whole place is taken.
pub proof fn shapeless_pictures_take_the_whole_place(
    src_w: u32,
    src_h: u32,
    dst_w: u32,
    dst_h: u32,
    wider: bool,
    side: u32,
)
    requires
        src_w * src_h * dst_w * dst_h == 0,
    ensures
        letterboxed(src_w, src_h, dst_w, dst_h, wider, side) == (SourceRect {
            x: 0,
            y: 0,
            width: dst_w,
            height: dst_h,
        }),
        cropped(src_w, src_h, dst_w, dst_h, wider, side) == (SourceRect {
            x: 0,
            y: 0,
            width: dst_w,
            height: dst_h,
        }),
{
    assert(src_w == 0 || src_h == 0 || dst_w == 0 || dst_h == 0) by (nonlinear_arith)
        requires
            src_w * src_h * dst_w * dst_h == 0,
    ;
}

} // verus!
