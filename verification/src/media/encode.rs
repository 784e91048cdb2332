//! Frames on their way from the native decoder and to the native encoder.
use crate::media;
use crate::media::{
    validate_dim,
    ColorInfo,
    PixelFormat,
    VideoFrame,
    MAX_ENCODE_FRAMES,
    MAX_FRAME_DIM,
};
use crate::render::pixels;
use crate::render::pixels::unpad_rows;
use vstd::prelude::*;
use vstd::string::*;

verus! {

/// What the native decoder gave back: a size, the bytes from one row to the next, and a
/// time.
#[derive(Debug, Clone, Copy, PartialEq, Eq, Structural)]
pub struct DecodedGeometry {
    pub width: i32,
    pub height: i32,
    pub stride: i32,
    pub pts_us: i64,
}

/// Why what was decoded is no frame; `None` when it is.
pub open spec fn geometry_fault(g: DecodedGeometry, len: int) -> Option<Seq<char>> {
    if g.width <= 0 || g.height <= 0 || g.stride < 4 * g.width || len < g.stride * g.height {
        Some("Decoded frame had invalid geometry"@)
    } else if g.width > MAX_FRAME_DIM || g.height > MAX_FRAME_DIM {
        Some("Decoded frame exceeds the F2 working-set limit"@)
    } else {
        None
    }
}

/// Makes a frame of what the native decoder gave back.
pub fn decoded_frame(g: DecodedGeometry, data: Vec<u8>) -> (r: Result<VideoFrame, String>)
    ensures
        match r {
            Ok(f) => {
                &&& geometry_fault(g, data@.len() as int) is None
                &&& f.wf()
                &&& f.pts_us == if g.pts_us >= 0 {
                    g.pts_us as int
                } else {
                    0
                }
                &&& f.width == g.width
                &&& f.height == g.height
                &&& f.stride == g.stride
                &&& f.format == PixelFormat::Bgra8888
                &&& media::is_rec709(f.color)
                &&& f.data == data
            },
            Err(e) => geometry_fault(g, data@.len() as int) == Some(e@),
        },
{
    if g.width <= 0 || g.height <= 0 || (g.stride as i64) < 4 * (g.width as i64) {
        return Err("Decoded frame had invalid geometry".to_owned());
    }
    assert(0 <= g.stride * g.height <= 0x7fff_ffff * 0x7fff_ffff) by (nonlinear_arith)
        requires
            0 <= g.stride <= 0x7fff_ffff,
            0 <= g.height <= 0x7fff_ffff,
    ;
    let needed: u64 = (g.stride as u64) * (g.height as u64);
    if (data.len() as u64) < needed {
        return Err("Decoded frame had invalid geometry".to_owned());
    }
    if g.width as u32 > MAX_FRAME_DIM || g.height as u32 > MAX_FRAME_DIM {
        return Err("Decoded frame exceeds the F2 working-set limit".to_owned());
    }
    let pts_us: u64 = if g.pts_us >= 0 {
        g.pts_us as u64
    } else {
        0
    };
    Ok(
        VideoFrame {
            pts_us,
            width: g.width as u32,
            height: g.height as u32,
            stride: g.stride as u32,
            format: PixelFormat::Bgra8888,
            color: ColorInfo::rec709_full(),
            data,
        },
    )
}

/// Whether a frame has the shape of another, and all of its rows.
pub open spec fn frame_fault(first: VideoFrame, f: VideoFrame) -> Option<Seq<char>> {
    if f.width != first.width || f.height != first.height || f.stride != first.stride {
        Some("All encoder frames must share geometry"@)
    } else if f.data@.len() < first.stride * first.height {
        Some("Encoder frame buffer is truncated"@)
    } else {
        None
    }
}

/// The first fault of the frames from `i` on.
pub open spec fn frames_fault(v: Seq<VideoFrame>, i: int) -> Option<Seq<char>>
    decreases v.len() - i,
{
    if i < 0 || i >= v.len() {
        None
    } else if frame_fault(v[0], v[i]) is Some {
        frame_fault(v[0], v[i])
    } else {
        frames_fault(v, i + 1)
    }
}

/// Why frames cannot be encoded; `None` when they can.
pub open spec fn encode_fault(v: Seq<VideoFrame>) -> Option<Seq<char>> {
    if v.len() == 0 || v.len() > MAX_ENCODE_FRAMES {
        Some("Encoder requires 1..=8 frames"@)
    } else if !media::valid_dim(v[0].width, v[0].height) {
        Some("Invalid media frame dimensions"@)
    } else if v[0].width % 2 != 0 || v[0].height % 2 != 0 {
        Some("H.264 encoder requires even dimensions"@)
    } else {
        frames_fault(v, 0)
    }
}

/// The rows of the first `n` frames, one after another.
pub open spec fn packed(v: Seq<VideoFrame>, n: int) -> Seq<u8>
    decreases n,
{
    if n <= 0 {
        Seq::empty()
    } else {
        packed(v, n - 1) + pixels::tight_rows(
            v[n - 1].data@,
            4 * v[n - 1].width,
            v[n - 1].stride as int,
            v[n - 1].height as int,
        )
    }
}

proof fn lemma_no_fault(v: Seq<VideoFrame>, i: int, j: int)
    requires
        0 <= i <= j < v.len(),
        frames_fault(v, i) is None,
    ensures
        frame_fault(v[0], v[j]) is None,
    decreases j - i,
{
    if i < j {
        lemma_no_fault(v, i + 1, j);
    }
}

/// Checks frames, and packs their rows for the native encoder.
pub fn encode_h264_frames(frames: &Vec<VideoFrame>) -> (r: Result<Vec<u8>, String>)
    requires
        forall|i: int|
            0 <= i < frames@.len() ==> 4 * (#[trigger] frames@[i]).width <= frames@[i].stride,
    ensures
        match r {
            Ok(bytes) => encode_fault(frames@) is None && bytes@ == packed(
                frames@,
                frames@.len() as int,
            ),
            Err(e) => encode_fault(frames@) == Some(e@),
        },
{
    if frames.len() == 0 || frames.len() > MAX_ENCODE_FRAMES as usize {
        return Err("Encoder requires 1..=8 frames".to_owned());
    }
    let width: u32 = frames[0].width;
    let height: u32 = frames[0].height;
    let stride: u32 = frames[0].stride;
    match validate_dim(width, height) {
        Ok(()) => {},
        Err(e) => {
            return Err(e);
        },
    }
    if width % 2 != 0 || height % 2 != 0 {
        return Err("H.264 encoder requires even dimensions".to_owned());
    }
    assert(0 <= stride * height <= 0xffff_ffff * 0xffff_ffff) by (nonlinear_arith)
        requires
            0 <= stride <= 0xffff_ffff,
            0 <= height <= 0xffff_ffff,
    ;
    let needed: u64 = (stride as u64) * (height as u64);
    let mut i: usize = 0;
    while i < frames.len()
        invariant
            i <= frames@.len(),
            frames@.len() > 0,
            width == frames@[0].width,
            height == frames@[0].height,
            stride == frames@[0].stride,
            needed == stride * height,
            encode_fault(frames@) == frames_fault(frames@, 0),
            frames_fault(frames@, 0) == frames_fault(frames@, i as int),
        decreases frames@.len() - i,
    {
        if frames[i].width != width || frames[i].height != height || frames[i].stride != stride {
            return Err("All encoder frames must share geometry".to_owned());
        }
        if (frames[i].data.len() as u64) < needed {
            return Err("Encoder frame buffer is truncated".to_owned());
        }
        i = i + 1;
    }
    let mut out: Vec<u8> = Vec::new();
    let mut k: usize = 0;
    while k < frames.len()
        invariant
            k <= frames@.len(),
            frames@.len() > 0,
            0 < width <= MAX_FRAME_DIM,
            width == frames@[0].width,
            height == frames@[0].height,
            stride == frames@[0].stride,
            frames_fault(frames@, 0) is None,
            4 * width <= stride,
            out@ == packed(frames@, k as int),
        decreases frames@.len() - k,
    {
        proof {
            lemma_no_fault(frames@, 0, k as int);
        }
        let mut rows: Vec<u8> = unpad_rows(frames[k].data.as_slice(), width * 4, stride, height);
        out.append(&mut rows);
        k = k + 1;
    }
    Ok(out)
}

proof fn lemma_packed_len(v: Seq<VideoFrame>, n: int)
    requires
        0 <= n <= v.len(),
        forall|i: int|
            0 <= i < v.len() ==> (#[trigger] v[i]).width == v[0].width && v[i].height
                == v[0].height,
    ensures
        packed(v, n).len() == n * (4 * v[0].width * v[0].height),
    decreases n,
{
    let size = 4 * v[0].width * v[0].height;
    if n > 0 {
        lemma_packed_len(v, n - 1);
        assert((n - 1) * size + size == n * size) by (nonlinear_arith);
        assert(0 <= (4 * v[0].width) * v[0].height) by (nonlinear_arith)
            requires
                v[0].width >= 0,
                v[0].height >= 0,
        ;
    } else {
        assert(0 * size == 0) by (nonlinear_arith);
    }
}

/// What is handed to the encoder holds four bytes for each pixel of each frame.
pub proof fn packed_frames_have_no_gaps(v: Seq<VideoFrame>)
    requires
        encode_fault(v) is None,
    ensures
        packed(v, v.len() as int).len() == v.len() * (4 * v[0].width * v[0].height),
{
    assert forall|i: int| 0 <= i < v.len() implies (#[trigger] v[i]).width == v[0].width
        && v[i].height == v[0].height by {
        lemma_no_fault(v, 0, i);
    }
    lemma_packed_len(v, v.len() as int);
}

/// Frames are packed one behind the other, each row by row without what pads them: every byte
/// of every pixel of each frame lies in its place.
pub proof fn every_pixel_is_packed(v: Seq<VideoFrame>, n: int, k: int, x: int, y: int, c: int)
    requires
        0 <= k < n <= v.len(),
        forall|i: int|
            0 <= i < v.len() ==> (#[trigger] v[i]).width == v[0].width && v[i].height
                == v[0].height,
        0 <= x < v[0].width,
        0 <= y < v[0].height,
        0 <= c < 4,
    ensures
        packed(v, n)[k * (4 * v[0].width * v[0].height) + y * (4 * v[0].width) + 4 * x + c]
            == v[k].data@[y * v[k].stride + 4 * x + c],
    decreases n,
{
    let (w, h) = (v[0].width as int, v[0].height as int);
    let size = 4 * w * h;
    let row = 4 * w;
    let at = y * row + 4 * x + c;
    lemma_packed_len(v, n - 1);
    assert(v[k].width == v[0].width && v[n - 1].width == v[0].width);
    assert(0 <= at < row * h) by (nonlinear_arith)
        requires
            at == y * row + 4 * x + c,
            row == 4 * w,
            0 <= x < w,
            0 <= y < h,
            0 <= c < 4,
    ;
    assert(row * h == size) by (nonlinear_arith)
        requires
            row == 4 * w,
            size == 4 * w * h,
    ;
    if k < n - 1 {
        every_pixel_is_packed(v, n - 1, k, x, y, c);
        assert(k * size + size <= (n - 1) * size && 0 <= k * size) by (nonlinear_arith)
            requires
                0 <= k <= n - 2,
                size >= 0,
        ;
    } else {
        assert(at / row == y && at % row == 4 * x + c) by (nonlinear_arith)
            requires
                at == y * row + (4 * x + c),
                0 <= 4 * x + c < row,
        ;
    }
}

proof fn lemma_frames_fault(v: Seq<VideoFrame>, i: int)
    requires
        0 <= i,
    ensures
        frames_fault(v, i) is None <==> forall|k: int|
            i <= k < v.len() ==> frame_fault(v[0], #[trigger] v[k]) is None,
    decreases v.len() - i,
{
    if i < v.len() && frame_fault(v[0], v[i]) is None {
        lemma_frames_fault(v, i + 1);
    }
}

/// Frames can be encoded exactly where there are between one and eight of them, of one even
/// size that is not too large, and each has all of its rows.
pub proof fn frames_of_one_shape_are_encoded(v: Seq<VideoFrame>)
    ensures
        encode_fault(v) is None <==> {
            &&& 1 <= v.len() <= 8
            &&& 2 <= v[0].width <= 4096 && 2 <= v[0].height <= 4096
            &&& v[0].width % 2 == 0 && v[0].height % 2 == 0
            &&& forall|k: int|
                0 <= k < v.len() ==> (#[trigger] v[k]).width == v[0].width && v[k].height
                    == v[0].height && v[k].stride == v[0].stride && v[k].data@.len() >= v[0].stride
                    * v[0].height
        },
{
    lemma_frames_fault(v, 0);
    if encode_fault(v) is None {
        assert forall|k: int| 0 <= k < v.len() implies (#[trigger] v[k]).width == v[0].width
            && v[k].height == v[0].height && v[k].stride == v[0].stride && v[k].data@.len()
            >= v[0].stride * v[0].height by {
            assert(frame_fault(v[0], v[k]) is None);
        }
    }
}

} // verus!
