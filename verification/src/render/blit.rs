//! Drawing a layer on the canvas, each pixel from the nearest one of its picture.
use super::Rect;
use crate::media::VideoFrame;
use vstd::prelude::*;

verus! {

/// How a layer is sampled: the row and the column of the picture for each row and
/// column of its place, and which of its pixels the clip leaves, row after row.
#[derive(Debug)]
pub struct Sampling {
    pub rows: Vec<u32>,
    pub columns: Vec<u32>,
    pub inside: Vec<bool>,
}

impl Sampling {
    /// Every pixel of the place is sampled, inside the picture.
    pub open spec fn fits(&self, src: VideoFrame, place: Rect) -> bool {
        &&& self.rows@.len() == place.height
        &&& self.columns@.len() == place.width
        &&& self.inside@.len() == place.width * place.height
        &&& forall|i: int| 0 <= i < self.rows@.len() ==> (#[trigger] self.rows@[i]) < src.height
        &&& forall|i: int|
            0 <= i < self.columns@.len() ==> (#[trigger] self.columns@[i]) < src.width
    }

    /// Whether the layer shows a pixel of the canvas, counting the first `n` pixels of
    /// its place only.
    pub open spec fn shows(&self, place: Rect, x: int, y: int, n: int) -> bool {
        &&& place.x <= x < place.x + place.width
        &&& place.y <= y < place.y + place.height
        &&& (y - place.y) * place.width + (x - place.x) < n
        &&& self.inside@[(y - place.y) * place.width + (x - place.x)]
    }
}

/// The bytes of a canvas once the first `n` pixels of a layer are drawn on it.
pub open spec fn drawn(
    dest: VideoFrame,
    src: VideoFrame,
    place: Rect,
    s: Sampling,
    n: int,
) -> Seq<u8> {
    Seq::new(
        dest.data@.len(),
        |k: int|
            {
                let y = k / (dest.stride as int);
                let x = (k % (dest.stride as int)) / 4;
                if x < dest.width && y < dest.height && s.shows(place, x, y, n) {
                    src.byte(
                        s.columns@[x - place.x] as int,
                        s.rows@[y - place.y] as int,
                        (k % (dest.stride as int)) % 4,
                    )
                } else {
                    dest.data@[k]
                }
            },
    )
}

/// The pixels of a layer.
pub open spec fn area(place: Rect) -> int {
    place.width * place.height
}

proof fn lemma_place(w: int, h: int, dx: int, dy: int)
    by (nonlinear_arith)
    requires
        0 <= dx < w,
        0 <= dy < h,
    ensures
        0 <= dy * w + dx < w * h,
{
}

proof fn lemma_same(w: int, a: int, b: int, dx: int, dy: int)
    by (nonlinear_arith)
    requires
        0 <= a < w,
        0 <= dx < w,
        b * w + a == dy * w + dx,
    ensures
        a == dx,
        b == dy,
{
}

proof fn lemma_bytes(stride: int, x: int, y: int, k: int)
    requires
        0 <= x,
        4 * x + 4 <= stride,
        0 <= y,
        0 <= k,
    ensures
        (k / stride == y && (k % stride) / 4 == x) <==> y * stride + 4 * x <= k < y * stride + 4 * x
            + 4,
        y * stride + 4 * x <= k < y * stride + 4 * x + 4 ==> (k % stride) % 4 == k - (y * stride + 4
            * x),
{
    let q = k / stride;
    let r = k % stride;
    assert(k == q * stride + r && 0 <= r < stride) by (nonlinear_arith)
        requires
            q == k / stride,
            r == k % stride,
            stride > 0,
    ;
    if y * stride + 4 * x <= k < y * stride + 4 * x + 4 {
        assert(q == y) by (nonlinear_arith)
            requires
                k == q * stride + r,
                0 <= r < stride,
                y * stride <= k < y * stride + stride,
        ;
    }
}

proof fn lemma_fits(f: VideoFrame, x: int, y: int)
    requires
        f.wf(),
        0 <= x < f.width,
        0 <= y < f.height,
    ensures
        0 <= y * f.stride,
        y * f.stride + 4 * x + 4 <= f.data@.len(),
{
    let s = f.stride as int;
    let h = f.height as int;
    assert(y * s + s <= s * h && 0 <= y * s) by (nonlinear_arith)
        requires
            0 <= y < h,
            0 <= s,
    ;
}

/// Drawing one more pixel: four bytes change when the pixel shows and lies on the
/// canvas, none otherwise.
proof fn lemma_step(dest: VideoFrame, src: VideoFrame, place: Rect, s: Sampling, dx: int, dy: int)
    requires
        dest.wf(),
        src.wf(),
        s.fits(src, place),
        0 <= dx < place.width,
        0 <= dy < place.height,
    ensures
        ({
            let n = dy * place.width + dx;
            let x = place.x + dx;
            let y = place.y + dy;
            let now = drawn(dest, src, place, s, n);
            let then = drawn(dest, src, place, s, n + 1);
            if x < dest.width && y < dest.height && s.inside@[n] {
                let at = y * dest.stride + 4 * x;
                let from = s.rows@[dy] * src.stride + 4 * s.columns@[dx];
                then == now.update(at, src.data@[from]).update(at + 1, src.data@[from + 1]).update(
                    at + 2,
                    src.data@[from + 2],
                ).update(at + 3, src.data@[from + 3])
            } else {
                then == now
            }
        }),
{
    let n = dy * place.width + dx;
    let x = place.x + dx;
    let y = place.y + dy;
    let now = drawn(dest, src, place, s, n);
    let then = drawn(dest, src, place, s, n + 1);
    lemma_place(place.width as int, place.height as int, dx, dy);
    let on = x < dest.width && y < dest.height && s.inside@[n];
    let at = y * dest.stride + 4 * x;
    let from = s.rows@[dy] * src.stride + 4 * s.columns@[dx];
    if on {
        lemma_fits(dest, x, y);
    }
    let want = if on {
        now.update(at, src.data@[from]).update(at + 1, src.data@[from + 1]).update(
            at + 2,
            src.data@[from + 2],
        ).update(at + 3, src.data@[from + 3])
    } else {
        now
    };
    assert forall|k: int| 0 <= k < dest.data@.len() implies #[trigger] then[k] == want[k] by {
        let ky = k / (dest.stride as int);
        let kx = (k % (dest.stride as int)) / 4;
        if on {
            lemma_bytes(dest.stride as int, x, y, k);
        }
        if place.x <= kx < place.x + place.width && place.y <= ky < place.y + place.height {
            let a = kx - place.x;
            let b = ky - place.y;
            if b * place.width + a == n {
                lemma_same(place.width as int, a, b, dx, dy);
            }
        }
    }
    assert(then =~= want);
}

/// Draws a layer's picture on the canvas.
pub fn blit_nearest(dest: &mut VideoFrame, src: &VideoFrame, place: Rect, s: &Sampling) -> (r: Result<
    (),
    String,
>)
    requires
        old(dest).wf(),
        src.wf(),
        s.fits(*src, place),
    ensures
        match r {
            Ok(()) => {
                &&& place.width > 0 && place.height > 0
                &&& final(dest).data@ == drawn(*old(dest), *src, place, *s, area(place))
                &&& *final(dest) == (VideoFrame { data: final(dest).data, ..*old(dest) })
            },
            Err(e) => {
                &&& place.width == 0 || place.height == 0
                &&& e@ == "Layer size is empty"@
                &&& *final(dest) == *old(dest)
            },
        },
{
    if place.width == 0 || place.height == 0 {
        return Err("Layer size is empty".to_owned());
    }
    let ghost start = *dest;
    let pixels: usize = s.inside.len();
    let mut dy: u32 = 0;
    proof {
        assert(0 * place.width == 0);
        assert(dest.data@ =~= drawn(start, *src, place, *s, 0)) by {
            assert forall|k: int| 0 <= k < start.data@.len() implies #[trigger] drawn(
                start,
                *src,
                place,
                *s,
                0,
            )[k] == start.data@[k] by {
                let ky = k / (start.stride as int);
                let kx = (k % (start.stride as int)) / 4;
                if place.y <= ky && place.x <= kx {
                    assert((ky - place.y) * place.width >= 0) by (nonlinear_arith)
                        requires
                            place.y <= ky,
                    ;
                }
            }
        }
    }
    while dy < place.height
        invariant
            start.wf(),
            src.wf(),
            s.fits(*src, place),
            dy <= place.height,
            pixels == s.inside@.len(),
            *dest == (VideoFrame { data: dest.data, ..start }),
            dest.data@ == drawn(start, *src, place, *s, dy * place.width),
        decreases place.height - dy,
    {
        let y: u64 = place.y as u64 + dy as u64;
        let row: u32 = s.rows[dy as usize];
        let mut dx: u32 = 0;
        proof {
            assert(dy * place.width + 0 == dy * place.width);
        }
        while dx < place.width
            invariant
                start.wf(),
                src.wf(),
                s.fits(*src, place),
                dx <= place.width,
                dy < place.height,
                pixels == s.inside@.len(),
                y == place.y + dy,
                row == s.rows@[dy as int],
                *dest == (VideoFrame { data: dest.data, ..start }),
                dest.data@ == drawn(start, *src, place, *s, dy * place.width + dx),
            decreases place.width - dx,
        {
            let x: u64 = place.x as u64 + dx as u64;
            proof {
                lemma_place(place.width as int, place.height as int, dx as int, dy as int);
                lemma_step(start, *src, place, *s, dx as int, dy as int);
                assert(0 <= dy * place.width) by (nonlinear_arith);
            }
            let column: u32 = s.columns[dx as usize];
            let n: usize = dy as usize * place.width as usize + dx as usize;
            if x < dest.width as u64 && y < dest.height as u64 && s.inside[n] {
                proof {
                    lemma_fits(start, x as int, y as int);
                    lemma_fits(*src, column as int, row as int);
                }
                let there: usize = dest.data.len();
                let here: usize = src.data.len();
                assert(there == start.data@.len() && here == src.data@.len());
                let at: usize = y as usize * dest.stride as usize + 4 * x as usize;
                let from: usize = row as usize * src.stride as usize + 4 * column as usize;
                dest.data.set(at, src.data[from]);
                dest.data.set(at + 1, src.data[from + 1]);
                dest.data.set(at + 2, src.data[from + 2]);
                dest.data.set(at + 3, src.data[from + 3]);
            }
            dx = dx + 1;
        }
        proof {
            assert((dy + 1) * place.width == dy * place.width + place.width) by (nonlinear_arith);
        }
        dy = dy + 1;
    }
    assert(dy * place.width == place.width * place.height) by (nonlinear_arith)
        requires
            dy == place.height,
    ;
    Ok(())
}

/// A layer leaves the canvas as it was outside its place.
pub proof fn pictures_stay_in_their_place(
    dest: VideoFrame,
    src: VideoFrame,
    place: Rect,
    s: Sampling,
    x: int,
    y: int,
    c: int,
)
    requires
        dest.wf(),
        0 <= x < dest.width,
        0 <= y < dest.height,
        0 <= c < 4,
        x < place.x || place.x + place.width <= x || y < place.y || place.y + place.height <= y,
    ensures
        drawn(dest, src, place, s, area(place))[y * dest.stride + x * 4 + c] == dest.byte(x, y, c),
{
    lemma_fits(dest, x, y);
    lemma_bytes(dest.stride as int, x, y, y * dest.stride + x * 4 + c);
}

/// A layer that nothing clips shows its picture all over its place.
pub proof fn unclipped_pictures_show(
    dest: VideoFrame,
    src: VideoFrame,
    place: Rect,
    s: Sampling,
    x: int,
    y: int,
    c: int,
)
    requires
        dest.wf(),
        s.fits(src, place),
        forall|i: int| 0 <= i < s.inside@.len() ==> #[trigger] s.inside@[i],
        place.x <= x < place.x + place.width,
        place.y <= y < place.y + place.height,
        x < dest.width,
        y < dest.height,
        0 <= c < 4,
    ensures
        drawn(dest, src, place, s, area(place))[y * dest.stride + x * 4 + c] == src.byte(
            s.columns@[x - place.x] as int,
            s.rows@[y - place.y] as int,
            c,
        ),
{
    lemma_fits(dest, x, y);
    lemma_bytes(dest.stride as int, x, y, y * dest.stride + x * 4 + c);
    lemma_place(place.width as int, place.height as int, x - place.x, y - place.y);
}

} // verus!
