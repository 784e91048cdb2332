//! The sample tables of an ordinary MP4 movie: sizes, timing, sync samples and
//! where each chunk of samples lies.
use crate::bytes;
use crate::project::mp4;
use vstd::prelude::*;
use vstd::slice::slice_subrange;
use vstd::string::*;

verus! {

/// The most samples a table may hold.
pub const MAX_SAMPLES: u32 = 1_000_000;

/// The big-endian word at `at`.
pub open spec fn word_at(s: Seq<u8>, at: int) -> Result<nat, Seq<char>> {
    if at + 4 <= s.len() {
        Ok(bytes::be32(s, at))
    } else {
        Err("Truncated sample table"@)
    }
}

fn word(s: &[u8], at: usize) -> (r: Result<u32, String>)
    ensures
        match r {
            Ok(w) => word_at(s@, at as int) == Ok::<nat, Seq<char>>(w as nat),
            Err(e) => word_at(s@, at as int) == Err::<nat, Seq<char>>(e@),
        },
{
    if s.len() >= 4 && at <= s.len() - 4 {
        Ok(bytes::read_be32(s, at))
    } else {
        Err("Truncated sample table".to_owned())
    }
}

/// Why the bytes from `at` on are not a row of boxes; `None` when they are.
pub open spec fn boxes_fault(s: Seq<u8>, at: int) -> Option<Seq<char>>
    decreases s.len() - at,
{
    if at >= s.len() {
        None
    } else {
        match word_at(s, at) {
            Err(t) => Some(t),
            Ok(size) => if size < 8 || size > s.len() - at {
                Some("Invalid sample-table box"@)
            } else {
                boxes_fault(s, at + size)
            },
        }
    }
}

/// The payload of the first box of type `kind` from `at` on, in a row of boxes.
pub open spec fn find_box(s: Seq<u8>, at: int, kind: nat) -> Option<Seq<u8>>
    decreases s.len() - at,
{
    if at + 8 > s.len() || bytes::be32(s, at) < 8 || bytes::be32(s, at) > s.len() - at {
        None
    } else if bytes::be32(s, at + 4) == kind {
        Some(s.subrange(at + 8, at + bytes::be32(s, at)))
    } else {
        find_box(s, at + bytes::be32(s, at), kind)
    }
}

/// The payload of the first child of type `kind`, where all children are in order.
pub open spec fn child(s: Seq<u8>, kind: nat) -> Result<Option<Seq<u8>>, Seq<char>> {
    match boxes_fault(s, 0) {
        Some(t) => Err(t),
        None => Ok(find_box(s, 0, kind)),
    }
}

fn find_child(s: &[u8], kind: u32) -> (r: Result<Option<&[u8]>, String>)
    ensures
        match r {
            Ok(None) => child(s@, kind as nat) == Ok::<Option<Seq<u8>>, Seq<char>>(None),
            Ok(Some(p)) => child(s@, kind as nat) == Ok::<Option<Seq<u8>>, Seq<char>>(Some(p@)),
            Err(e) => child(s@, kind as nat) == Err::<Option<Seq<u8>>, Seq<char>>(e@),
        },
{
    let mut found: Option<&[u8]> = None;
    let mut at: usize = 0;
    while at < s.len()
        invariant
            at <= s@.len(),
            boxes_fault(s@, 0) == boxes_fault(s@, at as int),
            found is None ==> find_box(s@, 0, kind as nat) == find_box(s@, at as int, kind as nat),
            found is Some ==> find_box(s@, 0, kind as nat) == Some(found->Some_0@),
        decreases s@.len() - at,
    {
        let size: usize = match word(s, at) {
            Ok(w) => w as usize,
            Err(t) => {
                return Err(t);
            },
        };
        if size < 8 || size > s.len() - at {
            return Err("Invalid sample-table box".to_owned());
        }
        if found.is_none() && bytes::read_be32(s, at + 4) == kind {
            found = Some(slice_subrange(s, at + 8, at + size));
        }
        at = at + size;
    }
    Ok(found)
}

/// The sample tables of the first track, whose path of boxes is `trak`, `mdia`,
/// `minf`, `stbl`.
pub open spec fn descend(s: Seq<u8>, kind: nat) -> Result<Seq<u8>, Seq<char>> {
    match child(s, kind) {
        Err(t) => Err(t),
        Ok(None) => Err("Missing video sample table"@),
        Ok(Some(p)) => Ok(p),
    }
}

pub open spec fn stbl_of(moov: Seq<u8>) -> Result<Seq<u8>, Seq<char>> {
    if moov.len() < 8 {
        Err("Truncated moov"@)
    } else {
        match descend(moov.skip(8), mp4::TRAK as nat) {
            Err(t) => Err(t),
            Ok(trak) => match descend(trak, mp4::MDIA as nat) {
                Err(t) => Err(t),
                Ok(mdia) => match descend(mdia, mp4::MINF as nat) {
                    Err(t) => Err(t),
                    Ok(minf) => descend(minf, mp4::STBL as nat),
                },
            },
        }
    }
}

/// A stretch of bytes, or why there is none.
pub open spec fn stretch(r: Result<&[u8], String>) -> Result<Seq<u8>, Seq<char>> {
    match r {
        Ok(p) => Ok(p@),
        Err(e) => Err(e@),
    }
}

fn enter(s: &[u8], kind: u32) -> (r: Result<&[u8], String>)
    ensures
        stretch(r) == descend(s@, kind as nat),
{
    match find_child(s, kind) {
        Err(t) => Err(t),
        Ok(None) => Err("Missing video sample table".to_owned()),
        Ok(Some(p)) => Ok(p),
    }
}

fn find_stbl(moov: &[u8]) -> (r: Result<&[u8], String>)
    ensures
        stretch(r) == stbl_of(moov@),
{
    if moov.len() < 8 {
        return Err("Truncated moov".to_owned());
    }
    let top = slice_subrange(moov, 8, moov.len());
    assert(top@ =~= moov@.skip(8));
    let trak = match enter(top, mp4::TRAK) {
        Ok(p) => p,
        Err(t) => {
            return Err(t);
        },
    };
    let mdia = match enter(trak, mp4::MDIA) {
        Ok(p) => p,
        Err(t) => {
            return Err(t);
        },
    };
    let minf = match enter(mdia, mp4::MINF) {
        Ok(p) => p,
        Err(t) => {
            return Err(t);
        },
    };
    enter(minf, mp4::STBL)
}

/// The size of sample `i`: the common size where there is one, else its own.
pub open spec fn sample_size(stsz: Seq<u8>, fixed: nat, i: int) -> nat {
    if fixed > 0 {
        fixed
    } else {
        bytes::be32(stsz, 12 + 4 * i)
    }
}

/// Why the sizes of samples `i..count` cannot be used; `None` when they can.
pub open spec fn sizes_fault(stsz: Seq<u8>, fixed: nat, i: int, count: int) -> Option<Seq<char>>
    decreases count - i,
{
    if i >= count {
        None
    } else if fixed == 0 && 12 + 4 * i + 4 > stsz.len() {
        Some("Truncated sample table"@)
    } else if sample_size(stsz, fixed, i) == 0 {
        Some("Empty sample"@)
    } else {
        sizes_fault(stsz, fixed, i + 1, count)
    }
}

/// The sizes of all samples.
pub open spec fn sizes_of(stsz: Seq<u8>) -> Result<Seq<u64>, Seq<char>> {
    match word_at(stsz, 8) {
        Err(t) => Err(t),
        Ok(count) => if count == 0 || count > MAX_SAMPLES {
            Err("Invalid sample count"@)
        } else {
            let fixed = bytes::be32(stsz, 4);
            match sizes_fault(stsz, fixed, 0, count as int) {
                Some(t) => Err(t),
                None => Ok(Seq::new(count, |i: int| sample_size(stsz, fixed, i) as u64)),
            }
        },
    }
}

/// Numbers, or why there are none.
pub open spec fn listed(r: Result<Vec<u64>, String>) -> Result<Seq<u64>, Seq<char>> {
    match r {
        Ok(v) => Ok(v@),
        Err(e) => Err(e@),
    }
}

#[verifier::loop_isolation(false)]
fn read_sizes(stsz: &[u8]) -> (r: Result<Vec<u64>, String>)
    ensures
        listed(r) == sizes_of(stsz@),
        r is Ok ==> 0 < r->Ok_0@.len() <= MAX_SAMPLES && forall|i: int|
            0 <= i < r->Ok_0@.len() ==> #[trigger] r->Ok_0@[i] <= u32::MAX,
{
    let count: usize = match word(stsz, 8) {
        Ok(w) => w as usize,
        Err(t) => {
            return Err(t);
        },
    };
    if count == 0 || count > MAX_SAMPLES as usize {
        return Err("Invalid sample count".to_owned());
    }
    let fixed: u32 = bytes::read_be32(stsz, 4);
    let mut sizes: Vec<u64> = Vec::new();
    let mut i: usize = 0;
    while i < count
        invariant
            i <= count <= MAX_SAMPLES,
            sizes@ == Seq::new(i as nat, |k: int| sample_size(stsz@, fixed as nat, k) as u64),
            sizes_fault(stsz@, fixed as nat, 0, count as int) == sizes_fault(
                stsz@,
                fixed as nat,
                i as int,
                count as int,
            ),
            forall|k: int| 0 <= k < i ==> #[trigger] sizes@[k] <= u32::MAX,
        decreases count - i,
    {
        let size: u32 = if fixed > 0 {
            fixed
        } else {
            match word(stsz, 12 + 4 * i) {
                Ok(w) => w,
                Err(t) => {
                    return Err(t);
                },
            }
        };
        if size == 0 {
            return Err("Empty sample".to_owned());
        }
        sizes.push(size as u64);
        i = i + 1;
        assert(sizes@ =~= Seq::new(i as nat, |k: int| sample_size(stsz@, fixed as nat, k) as u64));
    }
    Ok(sizes)
}

/// The samples timed and the ticks passed once the timing entries from `i` on
/// have been added to `timed` and `ticks`.
pub open spec fn timing_from(stts: Seq<u8>, i: int, entries: int, timed: nat, ticks: nat) -> Result<
    (nat, nat),
    Seq<char>,
>
    decreases entries - i,
{
    if i >= entries {
        Ok((timed, ticks))
    } else if 12 + 8 * i + 4 > stts.len() {
        Err("Truncated sample table"@)
    } else {
        let n = bytes::be32(stts, 8 + 8 * i);
        let duration = bytes::be32(stts, 12 + 8 * i);
        if duration == 0 {
            Err("Zero sample duration"@)
        } else if ticks + n * duration > u64::MAX {
            Err("Duration overflow"@)
        } else {
            timing_from(stts, i + 1, entries, timed + n, ticks + n * duration)
        }
    }
}

/// The total duration, in ticks, of a table that times `count` samples.
pub open spec fn timing_of(stts: Seq<u8>, count: nat) -> Result<nat, Seq<char>> {
    match word_at(stts, 4) {
        Err(t) => Err(t),
        Ok(entries) => if entries > count {
            Err("Invalid timing table"@)
        } else {
            match timing_from(stts, 0, entries as int, 0, 0) {
                Err(t) => Err(t),
                Ok(total) => if total.0 != count || total.1 > i64::MAX {
                    Err("Inconsistent sample timing"@)
                } else {
                    Ok(total.1)
                },
            }
        },
    }
}

/// A number, or why there is none.
pub open spec fn counted(r: Result<u64, String>) -> Result<nat, Seq<char>> {
    match r {
        Ok(v) => Ok(v as nat),
        Err(e) => Err(e@),
    }
}

#[verifier::loop_isolation(false)]
fn read_timing(stts: &[u8], count: usize) -> (r: Result<u64, String>)
    requires
        count <= MAX_SAMPLES,
    ensures
        counted(r) == timing_of(stts@, count as nat),
        r is Ok ==> r->Ok_0 <= i64::MAX,
{
    let entries: usize = match word(stts, 4) {
        Ok(w) => w as usize,
        Err(t) => {
            return Err(t);
        },
    };
    if entries > count {
        return Err("Invalid timing table".to_owned());
    }
    let mut timed: u64 = 0;
    let mut ticks: u64 = 0;
    let mut i: usize = 0;
    while i < entries
        invariant
            i <= entries <= MAX_SAMPLES,
            timed <= i * 0xffff_ffff,
            timing_from(stts@, 0, entries as int, 0, 0) == timing_from(
                stts@,
                i as int,
                entries as int,
                timed as nat,
                ticks as nat,
            ),
        decreases entries - i,
    {
        let n: u64 = match word(stts, 8 + 8 * i) {
            Ok(w) => w as u64,
            Err(t) => {
                return Err(t);
            },
        };
        let duration: u64 = match word(stts, 12 + 8 * i) {
            Ok(w) => w as u64,
            Err(t) => {
                return Err(t);
            },
        };
        if duration == 0 {
            return Err("Zero sample duration".to_owned());
        }
        assert(0 <= n * duration <= 0xffff_ffff * 0xffff_ffff) by (nonlinear_arith)
            requires
                n <= 0xffff_ffff,
                duration <= 0xffff_ffff,
        ;
        let run: u64 = n * duration;
        if run > u64::MAX - ticks {
            return Err("Duration overflow".to_owned());
        }
        timed = timed + n;
        ticks = ticks + run;
        i = i + 1;
    }
    if timed != count as u64 || ticks > i64::MAX as u64 {
        return Err("Inconsistent sample timing".to_owned());
    }
    Ok(ticks)
}

/// The first chunk of run `i` of the sample-to-chunk table.
pub open spec fn run_first(stsc: Seq<u8>, i: int) -> nat {
    bytes::be32(stsc, 8 + 12 * i)
}

/// The samples in each chunk of run `i`.
pub open spec fn run_samples(stsc: Seq<u8>, i: int) -> nat {
    bytes::be32(stsc, 12 + 12 * i)
}

/// Why the runs from `i` on cannot be used; `None` when they can. Runs start at
/// increasing chunks and hold samples of a known description.
pub open spec fn runs_fault(stsc: Seq<u8>, i: int, runs: int, chunks: nat) -> Option<Seq<char>>
    decreases runs - i,
{
    if i >= runs {
        None
    } else if 12 + 12 * i + 4 > stsc.len() {
        Some("Truncated sample table"@)
    } else if run_first(stsc, i) == 0 || run_first(stsc, i) > chunks || run_samples(stsc, i) == 0 {
        Some("Invalid chunk run"@)
    } else if 16 + 12 * i + 4 > stsc.len() {
        Some("Truncated sample table"@)
    } else if bytes::be32(stsc, 16 + 12 * i) == 0 || (i > 0 && run_first(stsc, i) <= run_first(
        stsc,
        i - 1,
    )) {
        Some("Invalid chunk run"@)
    } else {
        runs_fault(stsc, i + 1, runs, chunks)
    }
}

/// The number of runs in a usable sample-to-chunk table for `chunks` chunks.
pub open spec fn runs_of(stsc: Seq<u8>, chunks: nat) -> Result<nat, Seq<char>> {
    match word_at(stsc, 4) {
        Err(t) => Err(t),
        Ok(runs) => if runs == 0 || runs > chunks {
            Err("Invalid sample-to-chunk mapping"@)
        } else {
            match word_at(stsc, 8) {
                Err(t) => Err(t),
                Ok(first) => if first != 1 {
                    Err("Invalid sample-to-chunk mapping"@)
                } else {
                    match runs_fault(stsc, 0, runs as int, chunks) {
                        Some(t) => Err(t),
                        None => Ok(runs),
                    }
                },
            }
        },
    }
}

#[verifier::loop_isolation(false)]
fn read_runs(stsc: &[u8], chunks: usize) -> (r: Result<Vec<(u32, u32)>, String>)
    requires
        chunks <= MAX_SAMPLES,
    ensures
        match r {
            Ok(rows) => runs_of(stsc@, chunks as nat) == Ok::<nat, Seq<char>>(rows@.len()) && (
            forall|i: int|
                0 <= i < rows@.len() ==> (#[trigger] rows@[i]).0 == run_first(stsc@, i) && rows@[i].1 == run_samples(stsc@, i)),
            Err(e) => runs_of(stsc@, chunks as nat) == Err::<nat, Seq<char>>(e@),
        },
        r is Ok ==> 0 < r->Ok_0@.len() <= chunks && 12 * r->Ok_0@.len() + 8 <= stsc@.len(),
{
    let runs: usize = match word(stsc, 4) {
        Ok(w) => w as usize,
        Err(t) => {
            return Err(t);
        },
    };
    if runs == 0 || runs > chunks {
        return Err("Invalid sample-to-chunk mapping".to_owned());
    }
    match word(stsc, 8) {
        Ok(w) => {
            if w != 1 {
                return Err("Invalid sample-to-chunk mapping".to_owned());
            }
        },
        Err(t) => {
            return Err(t);
        },
    }
    let mut rows: Vec<(u32, u32)> = Vec::new();
    let mut i: usize = 0;
    while i < runs
        invariant
            i <= runs <= chunks <= MAX_SAMPLES,
            rows@.len() == i,
            12 * i + 8 <= stsc@.len(),
            forall|k: int|
                0 <= k < i ==> (#[trigger] rows@[k]).0 == run_first(stsc@, k) && rows@[k].1 == run_samples(stsc@, k),
            runs_fault(stsc@, 0, runs as int, chunks as nat) == runs_fault(
                stsc@,
                i as int,
                runs as int,
                chunks as nat,
            ),
        decreases runs - i,
    {
        let first: u32 = match word(stsc, 8 + 12 * i) {
            Ok(w) => w,
            Err(t) => {
                return Err(t);
            },
        };
        let samples: u32 = match word(stsc, 12 + 12 * i) {
            Ok(w) => w,
            Err(t) => {
                return Err(t);
            },
        };
        if first == 0 || first as usize > chunks || samples == 0 {
            return Err("Invalid chunk run".to_owned());
        }
        let description: u32 = match word(stsc, 16 + 12 * i) {
            Ok(w) => w,
            Err(t) => {
                return Err(t);
            },
        };
        if description == 0 || (i > 0 && first <= rows[i - 1].0) {
            return Err("Invalid chunk run".to_owned());
        }
        rows.push((first, samples));
        i = i + 1;
    }
    Ok(rows)
}

/// The run that chunk `chunk` belongs to: from `run` on, the last that starts at or
/// before it.
pub open spec fn run_for(stsc: Seq<u8>, runs: int, run: int, chunk: int) -> int
    decreases runs - run,
{
    if run + 1 < runs && run_first(stsc, run + 1) <= chunk {
        run_for(stsc, runs, run + 1, chunk)
    } else {
        run
    }
}

/// The sum of `sizes[from..to]`.
pub open spec fn span_bytes(sizes: Seq<u64>, from: int, to: int) -> nat
    decreases to - from,
{
    if to <= from {
        0
    } else {
        span_bytes(sizes, from, to - 1) + sizes[to - 1] as nat
    }
}

/// Where chunk `chunk` starts, from the 32-bit or the 64-bit offset table.
pub open spec fn chunk_offset(offsets: Seq<u8>, wide: bool, chunk: int) -> Result<nat, Seq<char>> {
    if wide {
        if 8 + 8 * (chunk - 1) + 8 <= offsets.len() {
            Ok(bytes::be64(offsets, 8 + 8 * (chunk - 1)))
        } else {
            Err("Truncated sample table"@)
        }
    } else {
        word_at(offsets, 8 + 4 * (chunk - 1))
    }
}

/// Why the chunks from `chunk` on, with `consumed` samples before them, do not lie
/// in the media payload or do not use up all samples; `None` when they do both.
pub open spec fn chunks_fault(
    sizes: Seq<u64>,
    offsets: Seq<u8>,
    wide: bool,
    stsc: Seq<u8>,
    runs: int,
    mdat: (nat, nat),
    chunk: int,
    chunks: int,
    run: int,
    consumed: int,
) -> Option<Seq<char>>
    decreases chunks - chunk + 1,
{
    if chunk > chunks {
        if consumed != sizes.len() {
            Some("Missing chunk samples"@)
        } else {
            None
        }
    } else {
        let next = run_for(stsc, runs, run, chunk);
        let end = consumed + run_samples(stsc, next);
        if end > sizes.len() {
            Some("Too many chunk samples"@)
        } else {
            match chunk_offset(offsets, wide, chunk) {
                Err(t) => Some(t),
                Ok(offset) => if offset < mdat.0 + 8 || offset + span_bytes(sizes, consumed, end)
                    > mdat.0 + mdat.1 {
                    Some("Chunk exceeds media payload"@)
                } else {
                    chunks_fault(
                        sizes,
                        offsets,
                        wide,
                        stsc,
                        runs,
                        mdat,
                        chunk + 1,
                        chunks,
                        next,
                        end,
                    )
                },
            }
        }
    }
}

fn sum_span(sizes: &Vec<u64>, from: usize, to: usize) -> (sum: u64)
    requires
        from <= to <= sizes@.len() <= MAX_SAMPLES,
        forall|i: int| 0 <= i < sizes@.len() ==> #[trigger] sizes@[i] <= u32::MAX,
    ensures
        sum == span_bytes(sizes@, from as int, to as int),
{
    let mut sum: u64 = 0;
    let mut i: usize = from;
    while i < to
        invariant
            from <= i <= to <= sizes@.len() <= MAX_SAMPLES,
            forall|k: int| 0 <= k < sizes@.len() ==> #[trigger] sizes@[k] <= u32::MAX,
            sum == span_bytes(sizes@, from as int, i as int),
            sum <= (i - from) * 0xffff_ffff,
        decreases to - i,
    {
        sum = sum + sizes[i];
        i = i + 1;
    }
    sum
}

fn read_chunk_offset(offsets: &[u8], wide: bool, chunk: usize) -> (r: Result<u64, String>)
    requires
        1 <= chunk <= MAX_SAMPLES,
    ensures
        counted(r) == chunk_offset(offsets@, wide, chunk as int),
{
    if wide {
        let at: usize = 8 + 8 * (chunk - 1);
        if offsets.len() >= at + 8 {
            Ok(bytes::read_be64(offsets, at))
        } else {
            Err("Truncated sample table".to_owned())
        }
    } else {
        match word(offsets, 8 + 4 * (chunk - 1)) {
            Ok(w) => Ok(w as u64),
            Err(t) => Err(t),
        }
    }
}

fn check_chunks(
    sizes: &Vec<u64>,
    offsets: &[u8],
    wide: bool,
    stsc: &[u8],
    rows: &Vec<(u32, u32)>,
    mdat: (u64, u64),
    chunks: usize,
) -> (r: Result<(), String>)
    requires
        sizes@.len() <= MAX_SAMPLES,
        chunks <= MAX_SAMPLES,
        forall|i: int| 0 <= i < sizes@.len() ==> #[trigger] sizes@[i] <= u32::MAX,
        rows@.len() > 0,
        forall|i: int|
            0 <= i < rows@.len() ==> (#[trigger] rows@[i]).0 == run_first(stsc@, i) && rows@[i].1 == run_samples(stsc@, i),
        12 * rows@.len() + 8 <= stsc@.len(),
        mdat.0 + mdat.1 <= u64::MAX,
        mdat.1 >= 8,
    ensures
        chunks_fault(
            sizes@,
            offsets@,
            wide,
            stsc@,
            rows@.len() as int,
            (mdat.0 as nat, mdat.1 as nat),
            1,
            chunks as int,
            0,
            0,
        ) == match r {
            Ok(()) => None::<Seq<char>>,
            Err(e) => Some(e@),
        },
{
    let ghost runs = rows@.len() as int;
    let ghost place = (mdat.0 as nat, mdat.1 as nat);
    let mut consumed: usize = 0;
    let mut run: usize = 0;
    let mut chunk: usize = 1;
    while chunk <= chunks
        invariant
            1 <= chunk <= chunks + 1,
            chunks <= MAX_SAMPLES,
            run < rows@.len() == runs,
            consumed <= sizes@.len() <= MAX_SAMPLES,
            forall|i: int| 0 <= i < sizes@.len() ==> #[trigger] sizes@[i] <= u32::MAX,
            forall|i: int|
                0 <= i < rows@.len() ==> (#[trigger] rows@[i]).0 == run_first(stsc@, i) && rows@[i].1 == run_samples(stsc@, i),
            mdat.0 + mdat.1 <= u64::MAX,
            mdat.1 >= 8,
            place == (mdat.0 as nat, mdat.1 as nat),
            chunks_fault(sizes@, offsets@, wide, stsc@, runs, place, 1, chunks as int, 0, 0)
                == chunks_fault(
                sizes@,
                offsets@,
                wide,
                stsc@,
                runs,
                place,
                chunk as int,
                chunks as int,
                run as int,
                consumed as int,
            ),
        decreases chunks + 1 - chunk,
    {
        let ghost run0 = run as int;
        while run < rows.len() - 1 && rows[run + 1].0 as usize <= chunk
            invariant
                run < rows@.len() == runs,
                chunk <= chunks <= MAX_SAMPLES,
                forall|i: int|
                    0 <= i < rows@.len() ==> (#[trigger] rows@[i]).0 == run_first(stsc@, i) && rows@[i].1 == run_samples(stsc@, i),
                run_for(stsc@, runs, run0, chunk as int) == run_for(
                    stsc@,
                    runs,
                    run as int,
                    chunk as int,
                ),
            ensures
                run < rows@.len() == runs,
                run_for(stsc@, runs, run0, chunk as int) == run as int,
            decreases runs - run,
        {
            run = run + 1;
        }
        let samples: usize = rows[run].1 as usize;
        if samples > sizes.len() - consumed {
            return Err("Too many chunk samples".to_owned());
        }
        let end: usize = consumed + samples;
        let span: u64 = sum_span(sizes, consumed, end);
        let offset: u64 = match read_chunk_offset(offsets, wide, chunk) {
            Ok(offset) => offset,
            Err(t) => {
                return Err(t);
            },
        };
        if offset < mdat.0 + 8 || offset > mdat.0 + mdat.1 || span > mdat.0 + mdat.1 - offset {
            return Err("Chunk exceeds media payload".to_owned());
        }
        consumed = end;
        chunk = chunk + 1;
    }
    if consumed != sizes.len() {
        return Err("Missing chunk samples".to_owned());
    }
    Ok(())
}

/// Why the sync table does not start with the first sample; `None` when it does.
pub open spec fn sync_fault(stss: Seq<u8>) -> Option<Seq<char>> {
    match word_at(stss, 4) {
        Err(t) => Some(t),
        Ok(entries) => if entries == 0 {
            Some("First sample is not a keyframe"@)
        } else {
            match word_at(stss, 8) {
                Err(t) => Some(t),
                Ok(first) => if first != 1 {
                    Some("First sample is not a keyframe"@)
                } else {
                    None
                },
            }
        },
    }
}

fn check_sync(stss: &[u8]) -> (r: Result<(), String>)
    ensures
        sync_fault(stss@) == match r {
            Ok(()) => None::<Seq<char>>,
            Err(e) => Some(e@),
        },
{
    match word(stss, 4) {
        Ok(w) => {
            if w == 0 {
                return Err("First sample is not a keyframe".to_owned());
            }
        },
        Err(t) => {
            return Err(t);
        },
    }
    match word(stss, 8) {
        Ok(w) => if w != 1 {
            Err("First sample is not a keyframe".to_owned())
        } else {
            Ok(())
        },
        Err(t) => Err(t),
    }
}

/// The table of type `kind` among the sample tables.
pub open spec fn table_of(stbl: Seq<u8>, kind: nat) -> Result<Seq<u8>, Seq<char>> {
    match find_box(stbl, 0, kind) {
        Some(p) => Ok(p),
        None => Err("Missing sample table"@),
    }
}

fn table(stbl: &[u8], kind: u32) -> (r: Result<&[u8], String>)
    requires
        boxes_fault(stbl@, 0) is None,
    ensures
        stretch(r) == table_of(stbl@, kind as nat),
{
    match find_child(stbl, kind) {
        Ok(Some(p)) => Ok(p),
        _ => Err("Missing sample table".to_owned()),
    }
}

/// The chunk offset table, and whether its entries are 64 bits wide.
pub open spec fn offsets_of(stbl: Seq<u8>) -> Result<(Seq<u8>, bool), Seq<char>> {
    match find_box(stbl, 0, mp4::STCO as nat) {
        Some(p) => Ok((p, false)),
        None => match table_of(stbl, mp4::CO64 as nat) {
            Ok(p) => Ok((p, true)),
            Err(t) => Err(t),
        },
    }
}

/// What the chunk tables say of samples of these sizes: that every chunk lies in
/// the media payload, and that the chunks hold all samples.
pub open spec fn layout_fault(stbl: Seq<u8>, sizes: Seq<u64>, mdat: (nat, nat)) -> Option<
    Seq<char>,
> {
    match offsets_of(stbl) {
        Err(t) => Some(t),
        Ok((offsets, wide)) => match word_at(offsets, 4) {
            Err(t) => Some(t),
            Ok(chunks) => if chunks == 0 || chunks > sizes.len() {
                Some("Invalid chunk count"@)
            } else {
                match table_of(stbl, mp4::STSC as nat) {
                    Err(t) => Some(t),
                    Ok(stsc) => match runs_of(stsc, chunks) {
                        Err(t) => Some(t),
                        Ok(runs) => chunks_fault(
                            sizes,
                            offsets,
                            wide,
                            stsc,
                            runs as int,
                            mdat,
                            1,
                            chunks as int,
                            0,
                            0,
                        ),
                    },
                }
            },
        },
    }
}

fn check_layout(stbl: &[u8], sizes: &Vec<u64>, mdat: (u64, u64)) -> (r: Result<(), String>)
    requires
        boxes_fault(stbl@, 0) is None,
        sizes@.len() <= MAX_SAMPLES,
        forall|i: int| 0 <= i < sizes@.len() ==> #[trigger] sizes@[i] <= u32::MAX,
        mdat.0 + mdat.1 <= u64::MAX,
        mdat.1 >= 8,
    ensures
        layout_fault(stbl@, sizes@, (mdat.0 as nat, mdat.1 as nat)) == match r {
            Ok(()) => None::<Seq<char>>,
            Err(e) => Some(e@),
        },
{
    let (offsets, wide): (&[u8], bool) = match table(stbl, mp4::STCO) {
        Ok(p) => (p, false),
        Err(_) => match table(stbl, mp4::CO64) {
            Ok(p) => (p, true),
            Err(t) => {
                return Err(t);
            },
        },
    };
    let chunks: usize = match word(offsets, 4) {
        Ok(w) => w as usize,
        Err(t) => {
            return Err(t);
        },
    };
    if chunks == 0 || chunks > sizes.len() {
        return Err("Invalid chunk count".to_owned());
    }
    let stsc = match table(stbl, mp4::STSC) {
        Ok(p) => p,
        Err(t) => {
            return Err(t);
        },
    };
    let rows = match read_runs(stsc, chunks) {
        Ok(rows) => rows,
        Err(t) => {
            return Err(t);
        },
    };
    check_chunks(sizes, offsets, wide, stsc, &rows, mdat, chunks)
}

/// The total ticks and the sample count of a movie's first track, where its tables
/// agree with each other and with the media payload `mdat`, given as offset and
/// size: every sample has a size and a duration, the first is a sync sample, and
/// every chunk lies in the payload.
pub open spec fn sample_table_of(moov: Seq<u8>, mdat: (nat, nat)) -> Result<(nat, nat), Seq<char>> {
    match stbl_of(moov) {
        Err(t) => Err(t),
        Ok(stbl) => match boxes_fault(stbl, 0) {
            Some(t) => Err(t),
            None => match table_of(stbl, mp4::STSZ as nat) {
                Err(t) => Err(t),
                Ok(stsz) => match sizes_of(stsz) {
                    Err(t) => Err(t),
                    Ok(sizes) => match table_of(stbl, mp4::STTS as nat) {
                        Err(t) => Err(t),
                        Ok(stts) => match timing_of(stts, sizes.len()) {
                            Err(t) => Err(t),
                            Ok(ticks) => match find_box(stbl, 0, mp4::STSS as nat) {
                                Some(stss) if sync_fault(stss) is Some => Err(
                                    sync_fault(stss)->Some_0,
                                ),
                                _ => match layout_fault(stbl, sizes, mdat) {
                                    Some(t) => Err(t),
                                    None => Ok((ticks, sizes.len())),
                                },
                            },
                        },
                    },
                },
            },
        },
    }
}

/// Checks sample counts, durations, the sync start and every chunk's extent, and
/// returns the total ticks and the sample count.
pub fn regular_sample_table(moov: &[u8], mdat: (u64, u64)) -> (r: Result<(u64, u64), String>)
    requires
        mdat.0 + mdat.1 <= u64::MAX,
        mdat.1 >= 8,
    ensures
        match r {
            Ok(total) => sample_table_of(moov@, (mdat.0 as nat, mdat.1 as nat)) == Ok::<
                (nat, nat),
                Seq<char>,
            >((total.0 as nat, total.1 as nat)),
            Err(e) => sample_table_of(moov@, (mdat.0 as nat, mdat.1 as nat)) == Err::<
                (nat, nat),
                Seq<char>,
            >(e@),
        },
        r is Ok ==> r->Ok_0.0 <= i64::MAX,
{
    let stbl = match find_stbl(moov) {
        Ok(p) => p,
        Err(t) => {
            return Err(t);
        },
    };
    let stsz = match find_child(stbl, mp4::STSZ) {
        Err(t) => {
            return Err(t);
        },
        Ok(None) => {
            return Err("Missing sample table".to_owned());
        },
        Ok(Some(p)) => p,
    };
    let sizes = match read_sizes(stsz) {
        Ok(sizes) => sizes,
        Err(t) => {
            return Err(t);
        },
    };
    let stts = match table(stbl, mp4::STTS) {
        Ok(p) => p,
        Err(t) => {
            return Err(t);
        },
    };
    let ticks: u64 = match read_timing(stts, sizes.len()) {
        Ok(ticks) => ticks,
        Err(t) => {
            return Err(t);
        },
    };
    match table(stbl, mp4::STSS) {
        Ok(stss) => {
            match check_sync(stss) {
                Ok(()) => {},
                Err(t) => {
                    return Err(t);
                },
            }
        },
        Err(_) => {},
    }
    match check_layout(stbl, &sizes, mdat) {
        Ok(()) => Ok((ticks, sizes.len() as u64)),
        Err(t) => Err(t),
    }
}

/// A box that is found is one that stands there: it has the kind that is asked for, and what
/// is found is all that follows its size and kind.
pub proof fn found_boxes_stand_there(s: Seq<u8>, at: int, kind: nat) -> (p: int)
    requires
        0 <= at,
        find_box(s, at, kind) is Some,
    ensures
        at <= p,
        p + 8 <= p + bytes::be32(s, p) <= s.len(),
        bytes::be32(s, p + 4) == kind,
        find_box(s, at, kind)->0 == s.subrange(p + 8, p + bytes::be32(s, p)),
        p == at || bytes::be32(s, at + 4) != kind,
    decreases s.len() - at,
{
    if bytes::be32(s, at + 4) == kind {
        at
    } else {
        found_boxes_stand_there(s, at + bytes::be32(s, at), kind)
    }
}

proof fn lemma_sizes(stsz: Seq<u8>, fixed: nat, i: int, count: int)
    requires
        sizes_fault(stsz, fixed, i, count) is None,
    ensures
        forall|k: int|
            i <= k < count ==> #[trigger] sample_size(stsz, fixed, k) > 0 && (fixed > 0 || 12 + 4 * k
                + 4 <= stsz.len()),
    decreases count - i,
{
    if i < count {
        lemma_sizes(stsz, fixed, i + 1, count);
    }
}

/// Each sample has the one size that is stated for all, or else its own in the table, and none
/// is empty.
pub proof fn sample_sizes_stand_in_the_table(stsz: Seq<u8>, i: int)
    requires
        sizes_of(stsz) is Ok,
        0 <= i < sizes_of(stsz)->Ok_0.len(),
    ensures
        ({
            let sizes = sizes_of(stsz)->Ok_0;
            &&& sizes.len() == bytes::be32(stsz, 8)
            &&& 1 <= sizes.len() <= 1_000_000
            &&& sizes[i] > 0
            &&& bytes::be32(stsz, 4) > 0 ==> sizes[i] == bytes::be32(stsz, 4)
            &&& bytes::be32(stsz, 4) == 0 ==> sizes[i] == bytes::be32(stsz, 12 + 4 * i)
        }),
{
    let fixed = bytes::be32(stsz, 4);
    lemma_sizes(stsz, fixed, 0, sizes_of(stsz)->Ok_0.len() as int);
    assert(sample_size(stsz, fixed, i) > 0);
    reveal(bytes::be32);
    reveal(bytes::be16);
}

proof fn lemma_timing(
    stts: Seq<u8>,
    i: int,
    entries: int,
    timed: nat,
    ticks: nat,
    lo: int,
    hi: int,
)
    requires
        0 <= i,
        0 <= lo <= hi,
        lo * timed <= ticks <= hi * timed,
        timing_from(stts, i, entries, timed, ticks) is Ok,
        forall|k: int|
            i <= k < entries ==> lo <= #[trigger] bytes::be32(stts, 12 + 8 * k) <= hi,
    ensures
        ({
            let total = timing_from(stts, i, entries, timed, ticks)->Ok_0;
            lo * total.0 <= total.1 <= hi * total.0
        }),
    decreases entries - i,
{
    if i < entries {
        let n = bytes::be32(stts, 8 + 8 * i);
        let d = bytes::be32(stts, 12 + 8 * i);
        assert(lo <= d <= hi);
        assert(lo * (timed + n) <= ticks + n * d <= hi * (timed + n) && n * d >= 0)
            by (nonlinear_arith)
            requires
                lo * timed <= ticks <= hi * timed,
                0 <= lo <= d <= hi,
                n >= 0,
        ;
        lemma_timing(stts, i + 1, entries, timed + n, (ticks + n * d) as nat, lo, hi);
    }
}

/// The ticks of a track are those of all of its samples: where each lasts no less than `lo` and
/// no more than `hi` ticks, so does their mean, and every sample is counted.
pub proof fn ticks_are_those_of_the_samples(stts: Seq<u8>, count: nat, lo: int, hi: int)
    requires
        timing_of(stts, count) is Ok,
        0 <= lo <= hi,
        forall|k: int|
            0 <= k < bytes::be32(stts, 4) ==> lo <= #[trigger] bytes::be32(stts, 12 + 8 * k) <= hi,
    ensures
        lo * count <= timing_of(stts, count)->Ok_0 <= hi * count,
{
    assert(lo * 0 == 0 && hi * 0 == 0) by (nonlinear_arith);
    lemma_timing(stts, 0, bytes::be32(stts, 4) as int, 0, 0, lo, hi);
}

/// A chunk belongs to the last run that starts with it or before it.
pub proof fn chunks_belong_to_the_last_run(stsc: Seq<u8>, runs: int, run: int, chunk: int)
    requires
        0 <= run < runs,
        run_first(stsc, run) <= chunk,
    ensures
        ({
            let r = run_for(stsc, runs, run, chunk);
            &&& run <= r < runs
            &&& run_first(stsc, r) <= chunk
            &&& r + 1 < runs ==> chunk < run_first(stsc, r + 1)
        }),
    decreases runs - run,
{
    if run + 1 < runs && run_first(stsc, run + 1) <= chunk {
        chunks_belong_to_the_last_run(stsc, runs, run + 1, chunk);
    }
}

/// The bytes of samples add up, each once.
pub proof fn sample_bytes_add_up(sizes: Seq<u64>, from: int, mid: int, to: int)
    requires
        from <= mid <= to,
    ensures
        span_bytes(sizes, from, to) == span_bytes(sizes, from, mid) + span_bytes(sizes, mid, to),
        span_bytes(sizes, from, from + 1) == sizes[from],
    decreases to - mid,
{
    if mid < to {
        sample_bytes_add_up(sizes, from, mid, to - 1);
    }
    reveal_with_fuel(span_bytes, 2);
}

/// Every chunk lies in the media data, behind its head, with all of its samples: as many as
/// the last run says that starts with it or before it. The samples of the chunks follow each
/// other, and those of the last chunk are the last there are.
pub proof fn chunks_lie_in_the_media_data(
    sizes: Seq<u64>,
    offsets: Seq<u8>,
    wide: bool,
    stsc: Seq<u8>,
    runs: int,
    mdat: (nat, nat),
    chunk: int,
    chunks: int,
    run: int,
    consumed: int,
    c: int,
) -> (held: (int, int, int))
    requires
        chunks_fault(
            sizes,
            offsets,
            wide,
            stsc,
            runs,
            mdat,
            chunk,
            chunks,
            run,
            consumed,
        ) is None,
        0 <= run < runs,
        run_first(stsc, run) <= chunk,
        0 <= consumed,
        chunk <= c <= chunks,
    ensures
        consumed <= held.0 <= held.1 <= sizes.len(),
        0 <= held.2 < runs,
        run_first(stsc, held.2) <= c,
        held.2 + 1 < runs ==> c < run_first(stsc, held.2 + 1),
        held.1 - held.0 == run_samples(stsc, held.2),
        chunk_offset(offsets, wide, c) matches Ok(offset) && mdat.0 + 8 <= offset && offset
            + span_bytes(sizes, held.0, held.1) <= mdat.0 + mdat.1,
        c == chunk ==> held.0 == consumed,
        c == chunks ==> held.1 == sizes.len(),
    decreases chunks - chunk + 1,
{
    let next = run_for(stsc, runs, run, chunk);
    let end = consumed + run_samples(stsc, next);
    chunks_belong_to_the_last_run(stsc, runs, run, chunk);
    if c > chunk {
        chunks_lie_in_the_media_data(
            sizes,
            offsets,
            wide,
            stsc,
            runs,
            mdat,
            chunk + 1,
            chunks,
            next,
            end,
            c,
        )
    } else {
        reveal_with_fuel(chunks_fault, 2);
        (consumed, end, next)
    }
}

/// A track starts with a keyframe where its table of keyframes does.
pub proof fn tracks_start_with_a_keyframe(stss: Seq<u8>)
    ensures
        sync_fault(stss) is None <==> stss.len() >= 12 && bytes::be32(stss, 4) > 0 && bytes::be32(
            stss,
            8,
        ) == 1,
{
}

/// The tables stand in their bytes: a run has its first chunk before its samples, of twelve
/// bytes with its description; a chunk has its place in four bytes, or in eight where the
/// table is wide.
pub proof fn tables_stand_in_their_bytes(stsc: Seq<u8>, offsets: Seq<u8>, i: int, chunk: int)
    requires
        1 <= chunk,
        0 <= i,
    ensures
        run_first(stsc, i) == bytes::be32(stsc, 8 + 12 * i),
        run_samples(stsc, i) == bytes::be32(stsc, 12 + 12 * i),
        chunk_offset(offsets, false, chunk) is Ok ==> chunk_offset(offsets, false, chunk)->Ok_0
            == bytes::be32(offsets, 4 + 4 * chunk),
        chunk_offset(offsets, true, chunk) is Ok ==> chunk_offset(offsets, true, chunk)->Ok_0
            == bytes::be64(offsets, 8 * chunk),
        chunk_offset(offsets, false, chunk) is Ok <==> 8 + 4 * chunk <= offsets.len(),
        chunk_offset(offsets, true, chunk) is Ok <==> 8 + 8 * chunk <= offsets.len(),
{
}

/// Where one entry times all samples, each of them lasts what it says.
pub proof fn one_entry_times_all_samples(stts: Seq<u8>, count: nat)
    requires
        stts.len() >= 16,
        bytes::be32(stts, 4) == 1,
        1 <= count,
    ensures
        timing_of(stts, count) is Ok ==> bytes::be32(stts, 8) == count && timing_of(
            stts,
            count,
        )->Ok_0 == count * bytes::be32(stts, 12),
        bytes::be32(stts, 8) == count && bytes::be32(stts, 12) > 0 && count * bytes::be32(stts, 12)
            <= i64::MAX ==> timing_of(stts, count) is Ok,
{
    reveal_with_fuel(timing_from, 2);
    assert(0 + bytes::be32(stts, 8) * bytes::be32(stts, 12) == bytes::be32(stts, 8) * bytes::be32(
        stts,
        12,
    ));
}

} // verus!
