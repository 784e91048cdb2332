//! How the colors of a region compare between the preview and the export.
use crate::media::VideoFrame;
use vstd::prelude::*;

verus! {

/// A region of a frame.
#[derive(Debug, Clone, Copy, PartialEq, Eq, Structural)]
pub struct Region {
    pub x: u32,
    pub y: u32,
    pub width: u32,
    pub height: u32,
}

/// The sum of a region's values of each color, and the number of its pixels.
#[derive(Debug, Clone, Copy, PartialEq, Eq, Structural)]
pub struct RegionSum {
    pub blue: u64,
    pub green: u64,
    pub red: u64,
    pub count: u64,
}

/// The end of a stretch, within a limit.
pub open spec fn clipped_end(start: u32, len: u32, limit: u32) -> int {
    if start + len < limit {
        start + len
    } else {
        limit as int
    }
}

/// The sum of a row's values of a color from `from` up to `to`.
pub open spec fn row_sum(f: VideoFrame, c: int, y: int, from: int, to: int) -> int
    decreases to - from,
{
    if to <= from {
        0
    } else {
        row_sum(f, c, y, from, to - 1) + f.byte(to - 1, y, c)
    }
}

/// The sum of the values of a color in the rows from `top` up to `bottom`.
pub open spec fn rows_sum(f: VideoFrame, c: int, from: int, to: int, top: int, bottom: int) -> int
    decreases bottom - top,
{
    if bottom <= top {
        0
    } else {
        rows_sum(f, c, from, to, top, bottom - 1) + row_sum(f, c, bottom - 1, from, to)
    }
}

impl Region {
    /// The sum of the values of a color, as far as the region lies in the frame.
    pub open spec fn sum(self, f: VideoFrame, c: int) -> int {
        rows_sum(
            f,
            c,
            self.x as int,
            clipped_end(self.x, self.width, f.width),
            self.y as int,
            clipped_end(self.y, self.height, f.height),
        )
    }

    /// The number of the region's pixels that lie in the frame.
    pub open spec fn count(self, f: VideoFrame) -> int {
        let columns = clipped_end(self.x, self.width, f.width) - self.x;
        let rows = clipped_end(self.y, self.height, f.height) - self.y;
        if columns <= 0 || rows <= 0 {
            0
        } else {
            columns * rows
        }
    }
}

/// The regions of the styled preview that are compared: one of the background, one of the
/// screen and one of the webcam.
pub fn compared_regions() -> (r: Vec<Region>)
    ensures
        r@ == seq![
            Region { x: 2, y: 50, width: 6, height: 6 },
            Region { x: 22, y: 26, width: 12, height: 8 },
            Region { x: 50, y: 8, width: 4, height: 4 },
        ],
{
    vec![
        Region { x: 2, y: 50, width: 6, height: 6 },
        Region { x: 22, y: 26, width: 12, height: 8 },
        Region { x: 50, y: 8, width: 4, height: 4 },
    ]
}

fn clip_end(start: u32, len: u32, limit: u32) -> (r: u32)
    ensures
        r == clipped_end(start, len, limit),
{
    if start < limit && len < limit - start {
        start + len
    } else {
        limit
    }
}

#[verifier::loop_isolation(false)]
fn add_row(f: &VideoFrame, y: u32, from: u32, to: u32, sum: RegionSum) -> (r: RegionSum)
    requires
        f.wf(),
        y < f.height,
        from < to <= f.width,
        sum.blue <= 255 * sum.count,
        sum.green <= 255 * sum.count,
        sum.red <= 255 * sum.count,
        sum.count <= 4096 * y,
    ensures
        r.blue == sum.blue + row_sum(*f, 0, y as int, from as int, to as int),
        r.green == sum.green + row_sum(*f, 1, y as int, from as int, to as int),
        r.red == sum.red + row_sum(*f, 2, y as int, from as int, to as int),
        r.count == sum.count + to - from,
        r.blue <= 255 * r.count,
        r.green <= 255 * r.count,
        r.red <= 255 * r.count,
{
    let mut r: RegionSum = sum;
    let mut x: u32 = from;
    let n: usize = f.data.len();
    proof {
        crate::media::lemma_row(y as int, f.height as int, f.stride as int, n as int);
    }
    let start: usize = (y as usize) * (f.stride as usize);
    while x < to
        invariant
            from <= x <= to,
            r.blue == sum.blue + row_sum(*f, 0, y as int, from as int, x as int),
            r.green == sum.green + row_sum(*f, 1, y as int, from as int, x as int),
            r.red == sum.red + row_sum(*f, 2, y as int, from as int, x as int),
            r.count == sum.count + x - from,
            r.blue <= 255 * r.count,
            r.green <= 255 * r.count,
            r.red <= 255 * r.count,
        decreases to - x,
    {
        let i: usize = start + (x as usize) * 4;
        r =
        RegionSum {
            blue: r.blue + f.data[i] as u64,
            green: r.green + f.data[i + 1] as u64,
            red: r.red + f.data[i + 2] as u64,
            count: r.count + 1,
        };
        x = x + 1;
    }
    r
}

/// Sums the colors of a region, as far as it lies in the frame.
#[verifier::loop_isolation(false)]
pub fn region_sum(f: &VideoFrame, region: Region) -> (r: RegionSum)
    requires
        f.wf(),
    ensures
        r.blue == region.sum(*f, 0),
        r.green == region.sum(*f, 1),
        r.red == region.sum(*f, 2),
        r.count == region.count(*f),
{
    let right: u32 = clip_end(region.x, region.width, f.width);
    let bottom: u32 = clip_end(region.y, region.height, f.height);
    let mut r: RegionSum = RegionSum { blue: 0, green: 0, red: 0, count: 0 };
    if right <= region.x {
        proof {
            lemma_no_columns(*f, 0, region.x as int, right as int, region.y as int, bottom as int);
            lemma_no_columns(*f, 1, region.x as int, right as int, region.y as int, bottom as int);
            lemma_no_columns(*f, 2, region.x as int, right as int, region.y as int, bottom as int);
        }
        return r;
    }
    if bottom <= region.y {
        return r;
    }
    let mut y: u32 = region.y;
    while y < bottom
        invariant
            region.y <= y <= bottom,
            r.blue == rows_sum(*f, 0, region.x as int, right as int, region.y as int, y as int),
            r.green == rows_sum(*f, 1, region.x as int, right as int, region.y as int, y as int),
            r.red == rows_sum(*f, 2, region.x as int, right as int, region.y as int, y as int),
            r.count == (right - region.x) * (y - region.y),
            r.blue <= 255 * r.count,
            r.green <= 255 * r.count,
            r.red <= 255 * r.count,
            r.count <= 4096 * y,
        decreases bottom - y,
    {
        let ghost columns = right - region.x;
        let ghost rows = y - region.y;
        r = add_row(f, y, region.x, right, r);
        assert(columns * (rows + 1) == columns * rows + columns) by (nonlinear_arith);
        y = y + 1;
    }
    r
}

proof fn lemma_no_columns(f: VideoFrame, c: int, from: int, to: int, top: int, bottom: int)
    requires
        to <= from,
    ensures
        rows_sum(f, c, from, to, top, bottom) == 0,
    decreases bottom - top,
{
    if bottom > top {
        lemma_no_columns(f, c, from, to, top, bottom - 1);
    }
}

proof fn lemma_row_split(f: VideoFrame, c: int, y: int, from: int, mid: int, to: int)
    requires
        from <= mid <= to,
    ensures
        row_sum(f, c, y, from, to) == row_sum(f, c, y, from, mid) + row_sum(f, c, y, mid, to),
    decreases to - mid,
{
    if mid < to {
        lemma_row_split(f, c, y, from, mid, to - 1);
    }
}

/// The sum over an area is that over its parts: one that is split between two columns or
/// between two rows gives the same sum, and a single pixel gives its byte.
pub proof fn sums_add_up(
    f: VideoFrame,
    c: int,
    from: int,
    mid: int,
    to: int,
    top: int,
    middle: int,
    bottom: int,
)
    requires
        from <= mid <= to,
        top <= middle <= bottom,
    ensures
        rows_sum(f, c, from, to, top, bottom) == rows_sum(f, c, from, mid, top, bottom) + rows_sum(
            f,
            c,
            mid,
            to,
            top,
            bottom,
        ),
        rows_sum(f, c, from, to, top, bottom) == rows_sum(f, c, from, to, top, middle) + rows_sum(
            f,
            c,
            from,
            to,
            middle,
            bottom,
        ),
        rows_sum(f, c, from, from + 1, top, top + 1) == f.byte(from, top, c),
    decreases bottom - top,
{
    if top < bottom {
        lemma_row_split(f, c, bottom - 1, from, mid, to);
        if middle < bottom {
            sums_add_up(f, c, from, mid, to, top, middle, bottom - 1);
        } else {
            sums_add_up(f, c, from, mid, to, top, middle - 1, bottom - 1);
        }
    }
    reveal_with_fuel(rows_sum, 2);
    reveal_with_fuel(row_sum, 2);
}

proof fn lemma_even_row(f: VideoFrame, c: int, y: int, from: int, to: int, v: u8)
    requires
        from <= to,
        forall|x: int| from <= x < to ==> #[trigger] f.byte(x, y, c) == v,
    ensures
        row_sum(f, c, y, from, to) == v * (to - from),
    decreases to - from,
{
    if from < to {
        lemma_even_row(f, c, y, from, to - 1, v);
        assert(f.byte(to - 1, y, c) == v);
        assert(v * (to - from) == v * (to - 1 - from) + v) by (nonlinear_arith);
    } else {
        assert(v * (to - from) == 0) by (nonlinear_arith)
            requires
                to == from,
        ;
    }
}

proof fn lemma_even_rows(f: VideoFrame, c: int, from: int, to: int, top: int, bottom: int, v: u8)
    requires
        from <= to,
        top <= bottom,
        forall|x: int, y: int|
            from <= x < to && top <= y < bottom ==> #[trigger] f.byte(x, y, c) == v,
    ensures
        rows_sum(f, c, from, to, top, bottom) == v * ((to - from) * (bottom - top)),
    decreases bottom - top,
{
    if top < bottom {
        lemma_even_rows(f, c, from, to, top, bottom - 1, v);
        lemma_even_row(f, c, bottom - 1, from, to, v);
        assert(v * ((to - from) * (bottom - top)) == v * ((to - from) * (bottom - 1 - top)) + v * (to
            - from)) by (nonlinear_arith);
    } else {
        assert(v * ((to - from) * 0) == 0) by (nonlinear_arith);
    }
}

/// Where a region has one color, its mean is that color: the sum is the byte for each of the
/// pixels that are counted, which are those of the region that lie in the frame.
pub proof fn even_regions_have_their_color(r: Region, f: VideoFrame, c: int, v: u8)
    requires
        r.x <= f.width,
        r.y <= f.height,
        forall|x: int, y: int|
            r.x <= x < r.x + r.width && x < f.width && r.y <= y < r.y + r.height && y < f.height
                ==> #[trigger] f.byte(x, y, c) == v,
    ensures
        r.sum(f, c) == v * r.count(f),
        r.x + r.width <= f.width && r.y + r.height <= f.height ==> r.count(f) == r.width * r.height,
{
    let to = clipped_end(r.x, r.width, f.width);
    let bottom = clipped_end(r.y, r.height, f.height);
    lemma_even_rows(f, c, r.x as int, to, r.y as int, bottom, v);
    let (w, h) = (to - r.x, bottom - r.y);
    if w == 0 || h == 0 {
        assert(w * h == 0) by (nonlinear_arith)
            requires
                w == 0 || h == 0,
        ;
    }
}

} // verus!
