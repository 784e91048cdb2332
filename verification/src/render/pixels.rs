//! Pixels on their way to the compositor and back: the order of their colors, and rows
//! that start at aligned places.
use crate::media;
use crate::media::VideoFrame;
use vstd::prelude::*;

verus! {

/// `wgpu::COPY_BYTES_PER_ROW_ALIGNMENT`, which is 256.
#[verifier::external_body]
fn row_alignment() -> (r: u32)
    ensures
        r == 256,
{
    wgpu::COPY_BYTES_PER_ROW_ALIGNMENT
}

/// The bytes of a row that starts and ends at aligned places.
pub open spec fn padded_row(width: int) -> int {
    (4 * width + 255) / 256 * 256
}

/// The bytes of a row that starts and ends at aligned places.
pub fn padded_bytes_per_row(width: u32) -> (r: u32)
    requires
        width <= media::MAX_FRAME_DIM,
    ensures
        r == padded_row(width as int),
        r >= 4 * width,
{
    let align: u32 = row_alignment();
    (width * 4 + align - 1) / align * align
}

/// Which byte of a pixel holds a color when blue and red change places.
pub open spec fn swapped(c: int) -> int {
    if c == 0 {
        2
    } else if c == 2 {
        0
    } else {
        c
    }
}

/// The pixels of a frame, row after row, in the order of red, green, blue and opacity.
pub open spec fn rgba_of(f: VideoFrame) -> Seq<u8> {
    Seq::new(
        (4 * f.width * f.height) as nat,
        |k: int|
            f.byte((k / 4) % (f.width as int), (k / 4) / (f.width as int), swapped(k % 4)),
    )
}

proof fn lemma_pixel(width: int, x: int, y: int)
    requires
        0 <= x < width,
        0 <= y,
    ensures
        (y * width + x) % width == x,
        (y * width + x) / width == y,
{
    assert((y * width + x) % width == x && (y * width + x) / width == y) by (nonlinear_arith)
        requires
            0 <= x < width,
            0 <= y,
    ;
}

/// Takes the pixels of a frame, row after row, in the order of red, green, blue and
/// opacity.
pub fn bgra_to_rgba(frame: &VideoFrame) -> (r: Vec<u8>)
    requires
        frame.wf(),
    ensures
        r@ == rgba_of(*frame),
{
    let width: usize = frame.width as usize;
    let height: usize = frame.height as usize;
    let stride: usize = frame.stride as usize;
    let n: usize = frame.data.len();
    let ghost want = rgba_of(*frame);
    assert(4 * width * height == 4 * (width * height)) by (nonlinear_arith);
    let mut out: Vec<u8> = Vec::new();
    let mut y: usize = 0;
    assert(0 * width == 0);
    while y < height
        invariant
            frame.wf(),
            width == frame.width,
            height == frame.height,
            stride == frame.stride,
            n == frame.data@.len(),
            y <= height,
            want == rgba_of(*frame),
            want.len() == 4 * (width * height),
            out@.len() == 4 * (y * width),
            forall|k: int| 0 <= k < out@.len() ==> #[trigger] out@[k] == want[k],
        decreases height - y,
    {
        proof {
            lemma_row(frame, y as int);
        }
        let base: usize = y * stride;
        let mut x: usize = 0;
        while x < width
            invariant
                frame.wf(),
                width == frame.width,
                height == frame.height,
                stride == frame.stride,
                n == frame.data@.len(),
                x <= width,
                y < height,
                base == y * stride,
                base + 4 * width <= frame.data@.len(),
                (y + 1) * width <= width * height,
                (y + 1) * width == y * width + width,
                want == rgba_of(*frame),
                want.len() == 4 * (width * height),
                out@.len() == 4 * (y * width + x),
                forall|k: int| 0 <= k < out@.len() ==> #[trigger] out@[k] == want[k],
            decreases width - x,
        {
            let at: usize = base + x * 4;
            let ghost p = y * width + x;
            proof {
                lemma_pixel(width as int, x as int, y as int);
                assert forall|c: int| 0 <= c < 4 implies #[trigger] want[4 * p + c] == frame.data@[at
                    + swapped(c)] by {
                    assert((4 * p + c) / 4 == p);
                    assert((4 * p + c) % 4 == c);
                }
                assert(want[4 * p + 0] == frame.data@[at + 2]);
                assert(want[4 * p + 1] == frame.data@[at + 1]);
                assert(want[4 * p + 2] == frame.data@[at + 0]);
                assert(want[4 * p + 3] == frame.data@[at + 3]);
            }
            out.push(frame.data[at + 2]);
            out.push(frame.data[at + 1]);
            out.push(frame.data[at]);
            out.push(frame.data[at + 3]);
            x = x + 1;
        }
        y = y + 1;
    }
    assert(height * width == width * height) by (nonlinear_arith);
    assert(out@ =~= want);
    out
}

proof fn lemma_row(f: &VideoFrame, y: int)
    requires
        f.wf(),
        0 <= y < f.height,
    ensures
        0 <= y * f.stride,
        y * f.stride + 4 * f.width <= f.data@.len(),
        (y + 1) * f.width <= f.width * f.height,
        (y + 1) * f.width == y * f.width + f.width,
{
    let s = f.stride as int;
    let h = f.height as int;
    let w = f.width as int;
    assert(y * s + s <= s * h && 0 <= y * s) by (nonlinear_arith)
        requires
            0 <= y < h,
            0 <= s,
    ;
    assert((y + 1) * w <= w * h && (y + 1) * w == y * w + w) by (nonlinear_arith)
        requires
            0 <= y < h,
            0 <= w,
    ;
}

/// Pixels with blue and red in each other's place; what is left over becomes zero.
pub open spec fn swap_pixels(s: Seq<u8>) -> Seq<u8> {
    Seq::new(
        s.len(),
        |k: int|
            if k < s.len() / 4 * 4 {
                s[k - k % 4 + swapped(k % 4)]
            } else {
                0
            },
    )
}

/// Puts blue and red in each other's place.
pub fn rgba_to_bgra(rgba: &[u8]) -> (r: Vec<u8>)
    ensures
        r@ == swap_pixels(rgba@),
{
    let n: usize = rgba.len();
    let mut out: Vec<u8> = Vec::new();
    let mut i: usize = 0;
    while n - i >= 4
        invariant
            n == rgba@.len(),
            i <= n,
            i % 4 == 0,
            out@.len() == i,
            forall|k: int| 0 <= k < i ==> #[trigger] out@[k] == swap_pixels(rgba@)[k],
        decreases n - i,
    {
        out.push(rgba[i + 2]);
        out.push(rgba[i + 1]);
        out.push(rgba[i]);
        out.push(rgba[i + 3]);
        i = i + 4;
    }
    while i < n
        invariant
            n == rgba@.len(),
            n / 4 * 4 <= i <= n,
            out@.len() == i,
            forall|k: int| 0 <= k < i ==> #[trigger] out@[k] == swap_pixels(rgba@)[k],
        decreases n - i,
    {
        out.push(0);
        i = i + 1;
    }
    assert(out@ =~= swap_pixels(rgba@));
    out
}

/// Swapping colors twice gives whole pixels back.
pub proof fn swapping_twice_changes_nothing(s: Seq<u8>)
    requires
        s.len() % 4 == 0,
    ensures
        swap_pixels(swap_pixels(s)) == s,
{
    assert(swap_pixels(swap_pixels(s)) =~= s);
}

/// A frame without gaps between its rows comes back from the compositor's order.
pub proof fn frames_come_back(f: VideoFrame)
    requires
        f.wf(),
        f.stride == 4 * f.width,
        f.data@.len() == 4 * f.width * f.height,
    ensures
        swap_pixels(rgba_of(f)) == f.data@,
{
    let w = f.width as int;
    let h = f.height as int;
    assert((4 * w) * h == 4 * (w * h)) by (nonlinear_arith);
    assert forall|k: int| 0 <= k < f.data@.len() implies swap_pixels(rgba_of(f))[k]
        == f.data@[k] by {
        let j = k - k % 4 + swapped(k % 4);
        let p = k / 4;
        assert(j / 4 == p);
        assert(j % 4 == swapped(k % 4));
        assert((p / w) * (4 * w) + (p % w) * 4 == 4 * p) by (nonlinear_arith)
            requires
                w > 0,
        ;
    }
    assert(swap_pixels(rgba_of(f)) =~= f.data@);
}

/// Rows of `row` bytes, each followed by zeros up to `padded`.
pub open spec fn padded_rows(s: Seq<u8>, row: int, padded: int, height: int) -> Seq<u8> {
    Seq::new(
        (padded * height) as nat,
        |k: int|
            if k % padded < row {
                s[(k / padded) * row + k % padded]
            } else {
                0
            },
    )
}

/// The rows without what follows each of them.
pub open spec fn tight_rows(s: Seq<u8>, row: int, padded: int, height: int) -> Seq<u8> {
    Seq::new((row * height) as nat, |k: int| s[(k / row) * padded + k % row])
}

/// Follows each row by zeros.
pub fn pad_rows(data: &Vec<u8>, row: u32, padded: u32, height: u32) -> (r: Vec<u8>)
    requires
        0 < row <= padded,
        row * height <= data@.len(),
    ensures
        r@ == padded_rows(data@, row as int, padded as int, height as int),
{
    let ghost want = padded_rows(data@, row as int, padded as int, height as int);
    let mut out: Vec<u8> = Vec::new();
    let mut y: u32 = 0;
    let mut base: usize = 0;
    let n: usize = data.len();
    assert(0 * padded == 0 && 0 * row == 0);
    proof {
        lemma_size(padded as int, height as int);
    }
    while y < height
        invariant
            0 < row <= padded,
            y <= height,
            row * height <= data@.len(),
            n == data@.len(),
            base == y * row,
            want == padded_rows(data@, row as int, padded as int, height as int),
            want.len() == padded * height,
            out@.len() == y * padded,
            forall|k: int| 0 <= k < out@.len() ==> #[trigger] out@[k] == want[k],
        decreases height - y,
    {
        proof {
            lemma_next(row as int, y as int, height as int);
            lemma_next(padded as int, y as int, height as int);
        }
        let mut x: u32 = 0;
        while x < padded
            invariant
                0 < row <= padded,
                x <= padded,
                y < height,
                base == y * row,
                n == data@.len(),
                base + row <= data@.len(),
                y * padded + padded <= want.len(),
                want == padded_rows(data@, row as int, padded as int, height as int),
                out@.len() == y * padded + x,
                forall|k: int| 0 <= k < out@.len() ==> #[trigger] out@[k] == want[k],
            decreases padded - x,
        {
            proof {
                lemma_pixel(padded as int, x as int, y as int);
            }
            if x < row {
                out.push(data[base + (x as usize)]);
            } else {
                out.push(0);
            }
            x = x + 1;
        }
        base = base + (row as usize);
        y = y + 1;
    }
    assert(height * padded == padded * height) by (nonlinear_arith);
    assert(out@ =~= want);
    out
}

/// Takes the rows without what follows each of them.
pub fn unpad_rows(data: &[u8], row: u32, padded: u32, height: u32) -> (r: Vec<u8>)
    requires
        0 < row <= padded,
        padded * height <= data@.len(),
    ensures
        r@ == tight_rows(data@, row as int, padded as int, height as int),
{
    let ghost want = tight_rows(data@, row as int, padded as int, height as int);
    let mut out: Vec<u8> = Vec::new();
    let mut y: u32 = 0;
    let mut base: usize = 0;
    let n: usize = data.len();
    assert(0 * padded == 0 && 0 * row == 0);
    proof {
        lemma_size(row as int, height as int);
    }
    while y < height
        invariant
            0 < row <= padded,
            y <= height,
            padded * height <= data@.len(),
            n == data@.len(),
            base == y * padded,
            want == tight_rows(data@, row as int, padded as int, height as int),
            want.len() == row * height,
            out@.len() == y * row,
            forall|k: int| 0 <= k < out@.len() ==> #[trigger] out@[k] == want[k],
        decreases height - y,
    {
        proof {
            lemma_next(row as int, y as int, height as int);
            lemma_next(padded as int, y as int, height as int);
        }
        let mut x: u32 = 0;
        while x < row
            invariant
                0 < row <= padded,
                x <= row,
                y < height,
                base == y * padded,
                n == data@.len(),
                base + padded <= data@.len(),
                y * row + row <= want.len(),
                want == tight_rows(data@, row as int, padded as int, height as int),
                out@.len() == y * row + x,
                forall|k: int| 0 <= k < out@.len() ==> #[trigger] out@[k] == want[k],
            decreases row - x,
        {
            proof {
                lemma_pixel(row as int, x as int, y as int);
            }
            out.push(data[base + (x as usize)]);
            x = x + 1;
        }
        base = base + (padded as usize);
        y = y + 1;
    }
    assert(height * row == row * height) by (nonlinear_arith);
    assert(out@ =~= want);
    out
}

proof fn lemma_size(row: int, height: int)
    requires
        0 <= row,
        0 <= height,
    ensures
        0 <= row * height,
{
    assert(0 <= row * height) by (nonlinear_arith)
        requires
            0 <= row,
            0 <= height,
    ;
}

proof fn lemma_next(row: int, y: int, height: int)
    requires
        0 <= y < height,
        0 <= row,
    ensures
        (y + 1) * row == y * row + row,
        y * row + row <= row * height,
        0 <= y * row,
{
    assert((y + 1) * row == y * row + row && y * row + row <= row * height && 0 <= y * row)
        by (nonlinear_arith)
        requires
            0 <= y < height,
            0 <= row,
    ;
}

/// Rows come back as they were once what follows them is taken away.
pub proof fn padding_is_taken_back(s: Seq<u8>, row: int, padded: int, height: int)
    requires
        0 < row <= padded,
        0 <= height,
        s.len() == row * height,
    ensures
        tight_rows(padded_rows(s, row, padded, height), row, padded, height) == s,
{
    let p = padded_rows(s, row, padded, height);
    let t = tight_rows(p, row, padded, height);
    assert forall|k: int| 0 <= k < s.len() implies t[k] == s[k] by {
        let y = k / row;
        let x = k % row;
        assert(k == y * row + x && 0 <= x < row && 0 <= y < height) by (nonlinear_arith)
            requires
                y == k / row,
                x == k % row,
                0 < row,
                0 <= k < row * height,
        ;
        lemma_pixel(padded, x, y);
        lemma_next(padded, y, height);
        assert(p[y * padded + x] == s[y * row + x]);
    }
    assert(0 <= row * height) by (nonlinear_arith)
        requires
            0 < row,
            0 <= height,
    ;
    assert(t =~= s);
}

/// A padded row is the shortest that holds the pixels and ends at a multiple of 256 bytes.
pub proof fn padded_rows_are_aligned(width: int)
    requires
        0 <= width,
    ensures
        padded_row(width) % 256 == 0,
        4 * width <= padded_row(width) < 4 * width + 256,
{
}

/// Padding keeps every byte of every row in its place and adds zeros behind it; taking it off
/// keeps every byte of every row.
pub proof fn rows_keep_their_bytes(s: Seq<u8>, row: int, padded: int, height: int, y: int, i: int)
    requires
        0 < row <= padded,
        0 <= y < height,
        0 <= i,
    ensures
        i < row ==> padded_rows(s, row, padded, height)[y * padded + i] == s[y * row + i],
        row <= i < padded ==> padded_rows(s, row, padded, height)[y * padded + i] == 0,
        i < row ==> tight_rows(s, row, padded, height)[y * row + i] == s[y * padded + i],
{
    if i < padded {
        let k = y * padded + i;
        assert(k / padded == y && k % padded == i && 0 <= k < padded * height) by (nonlinear_arith)
            requires
                k == y * padded + i,
                0 <= i < padded,
                0 <= y < height,
        ;
    }
    if i < row {
        let k = y * row + i;
        assert(k / row == y && k % row == i && 0 <= k < row * height) by (nonlinear_arith)
            requires
                k == y * row + i,
                0 <= i < row,
                0 <= y < height,
        ;
    }
}

/// Red, green, blue and alpha of every pixel come out in this order, each from its own place
/// in the frame, where blue comes first.
pub proof fn colors_keep_their_pixel(f: VideoFrame, x: int, y: int)
    requires
        0 <= x < f.width,
        0 <= y < f.height,
    ensures
        ({
            let at = 4 * (y * f.width + x);
            &&& rgba_of(f)[at] == f.data@[y * f.stride + 4 * x + 2]
            &&& rgba_of(f)[at + 1] == f.data@[y * f.stride + 4 * x + 1]
            &&& rgba_of(f)[at + 2] == f.data@[y * f.stride + 4 * x]
            &&& rgba_of(f)[at + 3] == f.data@[y * f.stride + 4 * x + 3]
        }),
{
    let (w, h) = (f.width as int, f.height as int);
    let p = y * w + x;
    assert(p / w == y && p % w == x && 0 <= p < w * h) by (nonlinear_arith)
        requires
            p == y * w + x,
            0 <= x < w,
            0 <= y < h,
    ;
    assert(4 * w * h == 4 * (w * h)) by (nonlinear_arith);
}

} // verus!
