//! Frames of pictures and sound, shared by preview and export.
use vstd::prelude::*;
use vstd::string::*;

pub mod audio;
pub mod encode;
pub mod parity;

verus! {

pub const MAX_FRAME_DIM: u32 = 4096;

pub const MAX_ENCODE_FRAMES: u32 = 8;

pub const CONCURRENT_ENCODER_LIMIT: u32 = 1;

pub const COPIES_DECODE: u32 = 1;

pub const COPIES_COMPOSITE: u32 = 2;

pub const COPIES_ENCODE: u32 = 1;

#[derive(Debug, Clone, Copy, PartialEq, Eq, Structural)]
pub enum PixelFormat {
    Bgra8888,
}

/// How a frame's numbers stand for colors.
#[derive(Debug, PartialEq)]
pub struct ColorInfo {
    pub primaries: String,
    pub transfer: String,
    pub matrix: String,
    pub range: String,
    pub compositing_space: String,
}

impl Clone for ColorInfo {
    fn clone(&self) -> (r: Self)
        ensures
            r == *self,
    {
        ColorInfo {
            primaries: self.primaries.clone(),
            transfer: self.transfer.clone(),
            matrix: self.matrix.clone(),
            range: self.range.clone(),
            compositing_space: self.compositing_space.clone(),
        }
    }
}

/// Whether colors are those of Rec. 709, in full range.
pub open spec fn is_rec709(c: ColorInfo) -> bool {
    &&& c.primaries@ == "bt709"@
    &&& c.transfer@ == "bt709"@
    &&& c.matrix@ == "identity"@
    &&& c.range@ == "full"@
    &&& c.compositing_space@ == "bt709_encoded"@
}

impl ColorInfo {
    /// The colors of Rec. 709, in full range.
    pub fn rec709_full() -> (r: Self)
        ensures
            is_rec709(r),
    {
        ColorInfo {
            primaries: "bt709".to_owned(),
            transfer: "bt709".to_owned(),
            matrix: "identity".to_owned(),
            range: "full".to_owned(),
            compositing_space: "bt709_encoded".to_owned(),
        }
    }
}

/// A picture: rows of pixels, `stride` bytes apart, each of blue, green, red and
/// opacity.
#[derive(Debug, PartialEq)]
pub struct VideoFrame {
    pub pts_us: u64,
    pub width: u32,
    pub height: u32,
    pub stride: u32,
    pub format: PixelFormat,
    pub color: ColorInfo,
    pub data: Vec<u8>,
}

/// Whether a frame may have these dimensions.
pub open spec fn valid_dim(width: u32, height: u32) -> bool {
    0 < width <= MAX_FRAME_DIM && 0 < height <= MAX_FRAME_DIM
}

/// Checks the dimensions of a frame.
pub fn validate_dim(width: u32, height: u32) -> (r: Result<(), String>)
    ensures
        match r {
            Ok(()) => valid_dim(width, height),
            Err(e) => !valid_dim(width, height) && e@ == "Invalid media frame dimensions"@,
        },
{
    if width == 0 || height == 0 || width > MAX_FRAME_DIM || height > MAX_FRAME_DIM {
        return Err("Invalid media frame dimensions".to_owned());
    }
    Ok(())
}

impl VideoFrame {
    /// The dimensions are valid, rows do not overlap, and all of them are there.
    pub open spec fn wf(&self) -> bool {
        &&& valid_dim(self.width, self.height)
        &&& 4 * self.width <= self.stride
        &&& self.stride * self.height <= self.data@.len()
    }

    /// A byte of a pixel.
    pub open spec fn byte(&self, x: int, y: int, c: int) -> u8 {
        self.data@[y * self.stride + x * 4 + c]
    }

    /// A frame of one color.
    pub fn solid(width: u32, height: u32, b: u8, g: u8, r: u8, pts_us: u64) -> (out: Result<
        VideoFrame,
        String,
    >)
        ensures
            match out {
                Ok(f) => {
                    &&& valid_dim(width, height)
                    &&& f.wf()
                    &&& f.pts_us == pts_us
                    &&& f.width == width
                    &&& f.height == height
                    &&& f.stride == 4 * width
                    &&& f.format == PixelFormat::Bgra8888
                    &&& is_rec709(f.color)
                    &&& f.data@.len() == 4 * width * height
                    &&& forall|i: int|
                        0 <= i < f.data@.len() ==> #[trigger] f.data@[i] == if i % 4 == 0 {
                            b
                        } else if i % 4 == 1 {
                            g
                        } else if i % 4 == 2 {
                            r
                        } else {
                            255
                        }
                },
                Err(e) => !valid_dim(width, height) && e@ == "Invalid media frame dimensions"@,
            },
    {
        match validate_dim(width, height) {
            Ok(()) => {},
            Err(e) => {
                return Err(e);
            },
        }
        assert(0 <= width * height <= 4096 * 4096) by (nonlinear_arith)
            requires
                0 <= width <= 4096,
                0 <= height <= 4096,
        ;
        assert((4 * width) * height == 4 * (width * height)) by (nonlinear_arith);
        let pixels: usize = (width as usize) * (height as usize);
        let mut data: Vec<u8> = Vec::new();
        let mut i: usize = 0;
        while i < pixels
            invariant
                i <= pixels <= 4096 * 4096,
                data@.len() == 4 * i,
                forall|k: int|
                    0 <= k < data@.len() ==> #[trigger] data@[k] == if k % 4 == 0 {
                        b
                    } else if k % 4 == 1 {
                        g
                    } else if k % 4 == 2 {
                        r
                    } else {
                        255
                    },
            decreases pixels - i,
        {
            data.push(b);
            data.push(g);
            data.push(r);
            data.push(255);
            i = i + 1;
        }
        Ok(
            VideoFrame {
                pts_us,
                width,
                height,
                stride: width * 4,
                format: PixelFormat::Bgra8888,
                color: ColorInfo::rec709_full(),
                data,
            },
        )
    }
}

/// The one place that an encoder may take.
#[derive(Debug)]
pub struct EncoderGate {
    busy: bool,
}

/// The right to an encoder's place: `EncoderGate` alone makes one, and takes it back.
#[derive(Debug)]
#[must_use]
pub struct EncoderSlot(());

impl EncoderGate {
    /// Whether an encoder is at work.
    pub closed spec fn taken(self) -> bool {
        self.busy
    }

    pub fn new() -> (r: Self)
        ensures
            !r.taken(),
    {
        EncoderGate { busy: false }
    }

    /// Takes the place, if it is free.
    pub fn try_acquire(&mut self) -> (r: Result<EncoderSlot, String>)
        ensures
            (r is Ok) == slot_given(old(self).taken()),
            r matches Err(e) ==> e@ == "Concurrent encoder limit is 1"@,
            final(self).taken() == taken_after(GateCall::Acquire),
    {
        if self.busy {
            return Err("Concurrent encoder limit is 1".to_owned());
        }
        self.busy = true;
        Ok(EncoderSlot(()))
    }

    /// Gives the place back.
    pub fn release(&mut self, slot: EncoderSlot)
        requires
            old(self).taken(),
        ensures
            final(self).taken() == taken_after(GateCall::Release),
    {
        let EncoderSlot(()) = slot;
        self.busy = false;
    }

    /// How many encoders are at work.
    pub fn in_flight(&self) -> (r: u32)
        ensures
            r == at_work(self.taken()),
    {
        if self.busy {
            1
        } else {
            0
        }
    }
}

impl Default for EncoderGate {
    fn default() -> (r: Self)
        ensures
            !r.taken(),
    {
        EncoderGate { busy: false }
    }
}

/// A call on a gate.
#[derive(Debug, Clone, Copy, PartialEq, Eq, Structural)]
pub enum GateCall {
    Acquire,
    Release,
}

/// Whether asking for the place gives a slot.
pub open spec fn slot_given(taken: bool) -> bool {
    !taken
}

/// Whether the place is taken after a call.
pub open spec fn taken_after(call: GateCall) -> bool {
    call == GateCall::Acquire
}

/// How many encoders are at work.
pub open spec fn at_work(taken: bool) -> nat {
    if taken {
        1
    } else {
        0
    }
}

/// Whether the place is taken after the first `n` calls on a new gate, and how many slots
/// are held then. A slot is given back only where one is held.
pub open spec fn gate_after(calls: Seq<GateCall>, n: nat) -> (bool, nat)
    decreases n,
{
    if n == 0 {
        (false, 0)
    } else {
        let (taken, held) = gate_after(calls, (n - 1) as nat);
        match calls[n - 1] {
            GateCall::Acquire => (
                taken_after(GateCall::Acquire),
                if slot_given(taken) {
                    held + 1
                } else {
                    held
                },
            ),
            GateCall::Release => if held == 0 {
                (taken, held)
            } else {
                (taken_after(GateCall::Release), (held - 1) as nat)
            },
        }
    }
}

/// The encoders at work are the slots that are held: none or one, and whoever gives a
/// slot back finds the place taken.
pub proof fn slots_are_counted(calls: Seq<GateCall>, n: nat)
    requires
        n <= calls.len(),
    ensures
        ({
            let (taken, held) = gate_after(calls, n);
            &&& at_work(taken) == held
            &&& held <= CONCURRENT_ENCODER_LIMIT
            &&& held > 0 ==> taken
        }),
    decreases n,
{
    if n > 0 {
        slots_are_counted(calls, (n - 1) as nat);
    }
}

/// How far two numbers are apart.
pub open spec fn distance(a: u8, b: u8) -> int {
    if a >= b {
        a - b
    } else {
        b - a
    }
}

/// How far two frames are apart: the largest distance of two bytes, the sum of the
/// distances, and how many there are.
#[derive(Debug, Clone, Copy, PartialEq, Eq, Structural)]
pub struct FrameDelta {
    pub max: u8,
    pub sum: u64,
    pub count: u64,
}

/// Distances that have been looked at.
pub struct Apart {
    pub max: int,
    pub sum: int,
    pub count: int,
}

impl Apart {
    pub open spec fn with(self, d: int) -> Apart {
        Apart {
            max: if d > self.max {
                d
            } else {
                self.max
            },
            sum: self.sum + d,
            count: self.count + 1,
        }
    }
}

/// The distances of one pixel's colors.
pub open spec fn pixel_apart(p: VideoFrame, e: VideoFrame, x: int, y: int, before: Apart) -> Apart {
    before.with(distance(p.byte(x, y, 0), e.byte(x, y, 0))).with(
        distance(p.byte(x, y, 1), e.byte(x, y, 1)),
    ).with(distance(p.byte(x, y, 2), e.byte(x, y, 2)))
}

/// The distances of a row's pixels from `from` up to `to`.
pub open spec fn row_apart(
    p: VideoFrame,
    e: VideoFrame,
    y: int,
    from: int,
    to: int,
    before: Apart,
) -> Apart
    decreases to - from,
{
    if to <= from {
        before
    } else {
        pixel_apart(p, e, to - 1, y, row_apart(p, e, y, from, to - 1, before))
    }
}

/// The distances of the pixels in the rows from `top` up to `bottom`, without
/// `inset` columns at either side.
pub open spec fn frame_apart(
    p: VideoFrame,
    e: VideoFrame,
    inset: int,
    top: int,
    bottom: int,
    before: Apart,
) -> Apart
    decreases bottom - top,
{
    if bottom <= top {
        before
    } else {
        row_apart(
            p,
            e,
            bottom - 1,
            inset,
            p.width - inset,
            frame_apart(p, e, inset, top, bottom - 1, before),
        )
    }
}

/// The margin that is left out of a comparison: an eighth of the shorter side, at
/// least four pixels.
pub open spec fn compare_inset(width: u32, height: u32) -> int {
    let side = if width <= height {
        width
    } else {
        height
    };
    if side / 8 > 4 {
        side as int / 8
    } else {
        4
    }
}

/// How far the middles of two frames are apart.
pub open spec fn middles_apart(p: VideoFrame, e: VideoFrame) -> Apart {
    let inset = compare_inset(p.width, p.height);
    frame_apart(p, e, inset, inset, p.height - inset, Apart { max: 0, sum: 0, count: 0 })
}

fn byte_distance(a: u8, b: u8) -> (r: u8)
    ensures
        r == distance(a, b),
{
    if a >= b {
        a - b
    } else {
        b - a
    }
}

impl FrameDelta {
    /// The delta as mathematical numbers.
    pub open spec fn apart(self) -> Apart {
        Apart { max: self.max as int, sum: self.sum as int, count: self.count as int }
    }

    fn add(&mut self, d: u8)
        requires
            old(self).sum <= 255 * old(self).count,
            old(self).count < 0x1_0000_0000,
        ensures
            final(self).apart() == old(self).apart().with(d as int),
            final(self).sum <= 255 * final(self).count,
    {
        if d > self.max {
            self.max = d;
        }
        self.sum = self.sum + (d as u64);
        self.count = self.count + 1;
    }
}

#[verifier::loop_isolation(false)]
fn compare_row(p: &VideoFrame, e: &VideoFrame, y: u32, from: u32, to: u32, d: &mut FrameDelta)
    requires
        p.wf(),
        e.wf(),
        p.width == e.width,
        p.height == e.height,
        y < p.height,
        to <= p.width,
        old(d).sum <= 255 * old(d).count,
        old(d).count <= 0x1_0000_0000 - 12288,
    ensures
        final(d).apart() == row_apart(*p, *e, y as int, from as int, to as int, old(d).apart()),
        final(d).sum <= 255 * final(d).count,
        final(d).count <= old(d).count + 12288,
{
    let mut x: u32 = from;
    if to <= from {
        return;
    }
    assert(row_apart(*p, *e, y as int, from as int, from as int, d.apart()) == d.apart());
    let ps: usize = p.stride as usize;
    let es: usize = e.stride as usize;
    proof {
        lemma_row(y as int, p.height as int, p.stride as int, p.data@.len() as int);
        lemma_row(y as int, e.height as int, e.stride as int, e.data@.len() as int);
    }
    assert(p.data@.len() == p.data.len() && e.data@.len() == e.data.len());
    let pr: usize = (y as usize) * ps;
    let er: usize = (y as usize) * es;
    while x < to
        invariant
            from <= x <= to,
            d.sum <= 255 * d.count,
            d.count == old(d).count + 3 * (x - from),
            d.apart() == row_apart(*p, *e, y as int, from as int, x as int, old(d).apart()),
        decreases to - x,
    {
        let pi: usize = pr + (x as usize) * 4;
        let ei: usize = er + (x as usize) * 4;
        d.add(byte_distance(p.data[pi], e.data[ei]));
        d.add(byte_distance(p.data[pi + 1], e.data[ei + 1]));
        d.add(byte_distance(p.data[pi + 2], e.data[ei + 2]));
        x = x + 1;
    }
}

pub(crate) proof fn lemma_row(y: int, height: int, stride: int, len: int)
    requires
        0 <= y < height,
        0 <= stride,
        stride * height <= len,
    ensures
        0 <= y * stride,
        y * stride + stride <= len,
{
    assert(0 <= y * stride && y * stride + stride <= stride * height) by (nonlinear_arith)
        requires
            0 <= y < height,
            0 <= stride,
    ;
}

/// Compares the middles of two frames.
#[verifier::loop_isolation(false)]
pub fn compare_frames(preview: &VideoFrame, exported: &VideoFrame) -> (r: Result<
    FrameDelta,
    String,
>)
    requires
        preview.wf(),
        exported.wf(),
    ensures
        match r {
            Ok(d) => {
                &&& preview.width == exported.width
                &&& preview.height == exported.height
                &&& d.apart() == middles_apart(*preview, *exported)
                &&& d.count > 0
            },
            Err(e) => if preview.width != exported.width || preview.height != exported.height {
                e@ == "Preview and export dimensions differ"@
            } else {
                middles_apart(*preview, *exported).count == 0 && e@
                    == "Parity compare window was empty"@
            },
        },
{
    if preview.width != exported.width || preview.height != exported.height {
        return Err("Preview and export dimensions differ".to_owned());
    }
    let side: u32 = if preview.width <= preview.height {
        preview.width
    } else {
        preview.height
    };
    let inset: u32 = if side / 8 > 4 {
        side / 8
    } else {
        4
    };
    let right: u32 = if preview.width >= inset {
        preview.width - inset
    } else {
        0
    };
    let bottom: u32 = if preview.height >= inset {
        preview.height - inset
    } else {
        0
    };
    let mut d = FrameDelta { max: 0, sum: 0, count: 0 };
    let ghost none = Apart { max: 0, sum: 0, count: 0 };
    let mut y: u32 = inset;
    if y < bottom {
        while y < bottom
            invariant
                inset <= y <= bottom,
                d.sum <= 255 * d.count,
                d.count <= 12288 * (y - inset),
                d.apart() == frame_apart(
                    *preview,
                    *exported,
                    inset as int,
                    inset as int,
                    y as int,
                    none,
                ),
            decreases bottom - y,
        {
            compare_row(preview, exported, y, inset, right, &mut d);
            y = y + 1;
        }
    }
    if d.count == 0 {
        return Err("Parity compare window was empty".to_owned());
    }
    Ok(d)
}

/// What the platform's media support is.
#[derive(Debug, PartialEq)]
pub struct MediaInteropStatus {
    pub decoder_backend: String,
    pub compositor_backend: String,
    pub encoder_backend: String,
    pub ffmpeg_pinned: bool,
    pub supported: bool,
    pub preview_available: bool,
    pub copies_decode: u32,
    pub copies_composite: u32,
    pub copies_encode: u32,
    pub concurrent_encoder_limit: u32,
    pub color_space: String,
    pub wgpu_adapter: Option<String>,
    pub diagnostics: Vec<String>,
}

/// What the media support of a platform is, where decoding is `supported` or not.
pub fn interop_status(
    supported: bool,
    adapter_name: Option<String>,
    diagnostics: Vec<String>,
) -> (r: MediaInteropStatus)
    ensures
        r.decoder_backend@ == "videotoolbox"@,
        r.compositor_backend@ == "wgpu-27.0.1"@,
        r.encoder_backend@ == "videotoolbox-h264"@,
        !r.ffmpeg_pinned,
        r.supported == supported,
        !r.preview_available,
        r.copies_decode == COPIES_DECODE,
        r.copies_composite == COPIES_COMPOSITE,
        r.copies_encode == COPIES_ENCODE,
        r.concurrent_encoder_limit == CONCURRENT_ENCODER_LIMIT,
        r.color_space@ == "rec709_full"@,
        r.wgpu_adapter == adapter_name,
        r.diagnostics == diagnostics,
{
    MediaInteropStatus {
        decoder_backend: "videotoolbox".to_owned(),
        compositor_backend: "wgpu-27.0.1".to_owned(),
        encoder_backend: "videotoolbox-h264".to_owned(),
        ffmpeg_pinned: false,
        supported,
        preview_available: false,
        copies_decode: COPIES_DECODE,
        copies_composite: COPIES_COMPOSITE,
        copies_encode: COPIES_ENCODE,
        concurrent_encoder_limit: CONCURRENT_ENCODER_LIMIT,
        color_space: "rec709_full".to_owned(),
        wgpu_adapter: adapter_name,
        diagnostics,
    }
}

proof fn lemma_row_apart(
    p: VideoFrame,
    e: VideoFrame,
    y: int,
    from: int,
    to: int,
    before: Apart,
    lo: int,
    hi: int,
)
    requires
        0 <= lo,
        from <= to,
        lo * before.count <= before.sum <= hi * before.count,
        0 <= before.max <= hi,
        before.count > 0 ==> lo <= before.max,
        0 <= before.count,
        forall|x: int, c: int|
            from <= x < to && 0 <= c < 3 ==> lo <= distance(
                #[trigger] p.byte(x, y, c),
                e.byte(x, y, c),
            ) <= hi,
    ensures
        ({
            let r = row_apart(p, e, y, from, to, before);
            &&& r.count == before.count + 3 * (to - from)
            &&& lo * r.count <= r.sum <= hi * r.count
            &&& before.max <= r.max <= hi
            &&& r.count > 0 ==> lo <= r.max
            &&& forall|x: int, c: int|
                from <= x < to && 0 <= c < 3 ==> distance(
                    #[trigger] p.byte(x, y, c),
                    e.byte(x, y, c),
                ) <= r.max
        }),
    decreases to - from,
{
    if from < to {
        lemma_row_apart(p, e, y, from, to - 1, before, lo, hi);
        let q = row_apart(p, e, y, from, to - 1, before);
        let x = to - 1;
        let d0 = distance(p.byte(x, y, 0), e.byte(x, y, 0));
        let d1 = distance(p.byte(x, y, 1), e.byte(x, y, 1));
        let d2 = distance(p.byte(x, y, 2), e.byte(x, y, 2));
        assert(lo <= d0 <= hi && lo <= d1 <= hi && lo <= d2 <= hi);
        let r = row_apart(p, e, y, from, to, before);
        assert(r.sum == q.sum + d0 + d1 + d2);
        assert(lo * (q.count + 3) == lo * q.count + 3 * lo) by (nonlinear_arith);
        assert(hi * (q.count + 3) == hi * q.count + 3 * hi) by (nonlinear_arith);
        assert forall|a: int, c: int| from <= a < to && 0 <= c < 3 implies distance(
            #[trigger] p.byte(a, y, c),
            e.byte(a, y, c),
        ) <= r.max by {
            if a == x {
                assert(c == 0 || c == 1 || c == 2);
            }
        }
    }
}

proof fn lemma_frame_apart(
    p: VideoFrame,
    e: VideoFrame,
    inset: int,
    top: int,
    bottom: int,
    lo: int,
    hi: int,
)
    requires
        0 <= lo <= hi,
        inset <= p.width - inset,
        top <= bottom,
        forall|x: int, y: int, c: int|
            inset <= x < p.width - inset && top <= y < bottom && 0 <= c < 3 ==> lo <= distance(
                #[trigger] p.byte(x, y, c),
                e.byte(x, y, c),
            ) <= hi,
    ensures
        ({
            let r = frame_apart(p, e, inset, top, bottom, Apart { max: 0, sum: 0, count: 0 });
            &&& r.count == 3 * ((p.width - 2 * inset) * (bottom - top))
            &&& r.count >= 0
            &&& lo * r.count <= r.sum <= hi * r.count
            &&& 0 <= r.max <= hi
            &&& r.count > 0 ==> lo <= r.max
            &&& forall|x: int, y: int, c: int|
                inset <= x < p.width - inset && top <= y < bottom && 0 <= c < 3 ==> distance(
                    #[trigger] p.byte(x, y, c),
                    e.byte(x, y, c),
                ) <= r.max
        }),
    decreases bottom - top,
{
    let w = p.width - 2 * inset;
    if top < bottom {
        lemma_frame_apart(p, e, inset, top, bottom - 1, lo, hi);
        let before = frame_apart(
            p,
            e,
            inset,
            top,
            bottom - 1,
            Apart { max: 0, sum: 0, count: 0 },
        );
        lemma_row_apart(p, e, bottom - 1, inset, p.width - inset, before, lo, hi);
        assert(w * (bottom - top) == w * (bottom - 1 - top) + w) by (nonlinear_arith);
    } else {
        assert(w * 0 == 0) by (nonlinear_arith);
        assert(lo * 0 == 0 && hi * 0 == 0) by (nonlinear_arith);
    }
}

/// Two pictures are held against each other by the three colors of every pixel of the middle:
/// none differs by more than the largest difference, and where all of them differ by no less
/// than `lo` and no more than `hi`, so does their mean. Alpha and the margin do not count.
pub proof fn differences_bound_every_color(p: VideoFrame, e: VideoFrame, inset: int, lo: int, hi: int)
    requires
        0 <= lo <= hi,
        4 <= inset,
        8 * inset <= p.width || inset == 4,
        8 * inset <= p.height || inset == 4,
        8 * inset + 8 > p.width || 8 * inset + 8 > p.height,
        2 * inset <= p.width,
        2 * inset <= p.height,
        forall|x: int, y: int, c: int|
            inset <= x < p.width - inset && inset <= y < p.height - inset && 0 <= c < 3 ==> lo
                <= distance(#[trigger] p.byte(x, y, c), e.byte(x, y, c)) <= hi,
    ensures
        ({
            let r = middles_apart(p, e);
            &&& r.count == 3 * ((p.width - 2 * inset) * (p.height - 2 * inset))
            &&& lo * r.count <= r.sum <= hi * r.count
            &&& r.max <= hi
            &&& r.count > 0 ==> lo <= r.max
            &&& forall|x: int, y: int, c: int|
                inset <= x < p.width - inset && inset <= y < p.height - inset && 0 <= c < 3
                    ==> -r.max <= (#[trigger] p.byte(x, y, c)) - e.byte(x, y, c) <= r.max
        }),
{
    assert(inset == compare_inset(p.width, p.height));
    lemma_frame_apart(p, e, inset, inset, p.height - inset, lo, hi);
    let r = middles_apart(p, e);
    assert forall|x: int, y: int, c: int|
        inset <= x < p.width - inset && inset <= y < p.height - inset && 0 <= c
            < 3 implies -r.max <= (#[trigger] p.byte(x, y, c)) - e.byte(x, y, c) <= r.max by {
        assert(distance(p.byte(x, y, c), e.byte(x, y, c)) <= r.max);
    }
}

} // verus!
