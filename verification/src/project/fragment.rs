//! Movie fragments: where a fragment's samples start and how long they last.
use crate::bytes;
use crate::project::mp4;
use vstd::prelude::*;

verus! {

/// The duration of a sample when a fragment does not give one: about a thirtieth
/// of a second at 90 kHz.
pub const DEFAULT_SAMPLE_TICKS: u32 = 3_000;

/// The first sample's start and the samples' duration, in ticks, their number, and
/// whether the first is a sync sample.
#[derive(Debug, Clone, Copy, PartialEq, Eq, Structural)]
pub struct Fragment {
    pub start_ticks: i64,
    pub sample_ticks: u32,
    pub samples: u64,
    pub keyframe: bool,
}

/// A fragment of which nothing is known.
pub open spec fn no_fragment() -> Fragment {
    Fragment { start_ticks: 0, sample_ticks: 0, samples: 0, keyframe: false }
}

/// Whether bit `weight` of `flags` is set.
pub open spec fn has_flag(flags: nat, weight: nat) -> bool {
    (flags / weight) % 2 == 1
}

/// A decode time box at `at`, of `size` bytes: 64 bits in version 1, else 32.
pub open spec fn decode_time(s: Seq<u8>, at: int, size: nat) -> int {
    if s[at + 8] == 1 && size >= 20 {
        bytes::signed64(bytes::be64(s, at + 12))
    } else {
        bytes::signed32(bytes::be32(s, at + 12))
    }
}

/// The 24 flag bits of the full box at `at`.
pub open spec fn box_flags(s: Seq<u8>, at: int) -> nat {
    (s[at + 9] as nat) * 65536 + (s[at + 10] as nat) * 256 + (s[at + 11] as nat)
}

/// Where the run's optional first-sample flags would stand: after the data offset,
/// where there is one.
pub open spec fn first_flags_at(s: Seq<u8>, at: int) -> int {
    if has_flag(box_flags(s, at), 1) {
        at + 20
    } else {
        at + 16
    }
}

/// Whether the run at `at` gives flags for its first sample.
pub open spec fn has_first_flags(s: Seq<u8>, at: int, size: nat) -> bool {
    has_flag(box_flags(s, at), 4) && first_flags_at(s, at) + 4 <= at + size
}

/// Where the run's first sample duration would stand.
pub open spec fn duration_at(s: Seq<u8>, at: int, size: nat) -> int {
    if has_first_flags(s, at, size) {
        first_flags_at(s, at) + 4
    } else {
        first_flags_at(s, at)
    }
}

/// `f` after the sample run at `at`. A first sample without flags counts as a sync
/// sample; the bit that denies it has weight `0x10000`.
pub open spec fn after_run(s: Seq<u8>, at: int, size: nat, f: Fragment) -> Fragment {
    Fragment {
        start_ticks: f.start_ticks,
        samples: bytes::be32(s, at + 12) as u64,
        keyframe: !(has_first_flags(s, at, size) && has_flag(
            bytes::be32(s, first_flags_at(s, at)),
            0x10000,
        )),
        sample_ticks: if has_flag(box_flags(s, at), 0x100) && duration_at(s, at, size) + 4 <= at
            + size {
            bytes::be32(s, duration_at(s, at, size)) as u32
        } else {
            DEFAULT_SAMPLE_TICKS
        },
    }
}

/// `f` after the box at `at` of a track fragment.
pub open spec fn after_box(s: Seq<u8>, at: int, f: Fragment) -> Fragment {
    let size = bytes::be32(s, at);
    let kind = bytes::be32(s, at + 4);
    if kind == mp4::TFDT && size >= 16 {
        Fragment { start_ticks: decode_time(s, at, size) as i64, ..f }
    } else if kind == mp4::TRUN && size >= 16 {
        after_run(s, at, size, f)
    } else {
        f
    }
}

/// `f` after the boxes of a track fragment from `at` to `end`, up to one that does
/// not fit.
pub open spec fn scan_traf(s: Seq<u8>, at: int, end: int, f: Fragment) -> Fragment
    decreases end - at,
{
    if at + 8 > end || bytes::be32(s, at) < 8 || at + bytes::be32(s, at) > end {
        f
    } else {
        scan_traf(s, at + bytes::be32(s, at), end, after_box(s, at, f))
    }
}

/// `f` after the boxes of a movie fragment from `at`, up to one that does not fit.
pub open spec fn scan_moof(s: Seq<u8>, at: int, f: Fragment) -> Fragment
    decreases s.len() - at,
{
    if at + 8 > s.len() || bytes::be32(s, at) < 8 || at + bytes::be32(s, at) > s.len() {
        f
    } else if bytes::be32(s, at + 4) == mp4::TRAF {
        scan_moof(
            s,
            at + bytes::be32(s, at),
            scan_traf(s, at + 8, at + bytes::be32(s, at), f),
        )
    } else {
        scan_moof(s, at + bytes::be32(s, at), f)
    }
}

fn flag(flags: u32, weight: u32) -> (r: bool)
    requires
        weight > 0,
    ensures
        r == has_flag(flags as nat, weight as nat),
{
    (flags / weight) % 2 == 1
}

fn read_run(data: &[u8], at: usize, size: usize, f: Fragment) -> (r: Fragment)
    requires
        16 <= size,
        at + size <= data@.len(),
    ensures
        r == after_run(data@, at as int, size as nat, f),
{
    assert(data@.len() == data.len());
    let flags: u32 = (data[at + 9] as u32) * 65536 + (data[at + 10] as u32) * 256 + (data[at
        + 11] as u32);
    let samples: u64 = bytes::read_be32(data, at + 12) as u64;
    // Offsets from the start of the run.
    let mut offset: usize = 16;
    if flag(flags, 1) {
        offset = 20;
    }
    let mut keyframe: bool = true;
    if flag(flags, 4) && offset + 4 <= size {
        keyframe = !flag(bytes::read_be32(data, at + offset), 0x10000);
        offset = offset + 4;
    }
    let sample_ticks: u32 = if flag(flags, 0x100) && offset + 4 <= size {
        bytes::read_be32(data, at + offset)
    } else {
        DEFAULT_SAMPLE_TICKS
    };
    Fragment { start_ticks: f.start_ticks, sample_ticks, samples, keyframe }
}

fn read_traf(data: &[u8], from: usize, end: usize, known: Fragment) -> (r: Fragment)
    requires
        from <= end <= data@.len(),
    ensures
        r == scan_traf(data@, from as int, end as int, known),
{
    let mut at: usize = from;
    let mut f: Fragment = known;
    while end - at >= 8
        invariant
            from <= at <= end <= data@.len(),
            scan_traf(data@, from as int, end as int, known) == scan_traf(
                data@,
                at as int,
                end as int,
                f,
            ),
        ensures
            f == scan_traf(data@, from as int, end as int, known),
        decreases end - at,
    {
        let size: usize = bytes::read_be32(data, at) as usize;
        let kind: u32 = bytes::read_be32(data, at + 4);
        if size < 8 || size > end - at {
            break;
        }
        if kind == mp4::TFDT && size >= 16 {
            f.start_ticks = if data[at + 8] == 1 && size >= 20 {
                bytes::to_signed64(bytes::read_be64(data, at + 12))
            } else {
                bytes::to_signed32(bytes::read_be32(data, at + 12))
            };
        } else if kind == mp4::TRUN && size >= 16 {
            f = read_run(data, at, size, f);
        }
        at = at + size;
    }
    f
}

/// Reads a whole `moof` box: the last decode time and the last sample run of its
/// track fragments.
pub fn parse_moof_fragment(data: &[u8]) -> (r: Fragment)
    ensures
        r == scan_moof(data@, 8, no_fragment()),
{
    let mut f = Fragment { start_ticks: 0, sample_ticks: 0, samples: 0, keyframe: false };
    if data.len() < 8 {
        return f;
    }
    let end: usize = data.len();
    let mut at: usize = 8;
    while end - at >= 8
        invariant
            8 <= at <= end == data@.len(),
            scan_moof(data@, 8, no_fragment()) == scan_moof(data@, at as int, f),
        ensures
            f == scan_moof(data@, 8, no_fragment()),
        decreases end - at,
    {
        let size: usize = bytes::read_be32(data, at) as usize;
        let kind: u32 = bytes::read_be32(data, at + 4);
        if size < 8 || size > end - at {
            break;
        }
        if kind == mp4::TRAF {
            f = read_traf(data, at + 8, at + size, f);
        }
        at = at + size;
    }
    f
}

/// A run says how many samples it has, and how long they are behind the fields that its flags
/// announce. Its first sample is a keyframe unless its own flags say that it is none.
pub proof fn runs_are_read_by_their_flags(s: Seq<u8>, at: int, size: nat, f: Fragment)
    requires
        16 <= size,
        0 <= at,
        at + size <= s.len(),
    ensures
        ({
            let run = after_run(s, at, size, f);
            let offset = s[at + 11] % 2 == 1;
            let p = if offset {
                at + 20
            } else {
                at + 16
            };
            let flagged = (s[at + 11] / 4) % 2 == 1 && p + 4 <= at + size;
            let q = if flagged {
                p + 4
            } else {
                p
            };
            let timed = s[at + 10] % 2 == 1 && q + 4 <= at + size;
            &&& run.samples == 16_777_216 * s[at + 12] + 65_536 * s[at + 13] + 256 * s[at + 14] + s[at
                + 15]
            &&& run.keyframe <==> !(flagged && s[p + 1] % 2 == 1)
            &&& timed ==> run.sample_ticks == 16_777_216 * s[q] + 65_536 * s[q + 1] + 256 * s[q + 2]
                + s[q + 3]
            &&& !timed ==> run.sample_ticks == 3_000
            &&& run.start_ticks == f.start_ticks
        }),
{
    reveal(bytes::be32);
    reveal(bytes::be16);
    let flags = box_flags(s, at);
    assert((flags / 1) % 2 == s[at + 11] as nat % 2);
    assert((flags / 4) % 2 == (s[at + 11] as nat / 4) % 2);
    assert((flags / 0x100) % 2 == s[at + 10] as nat % 2);
    let p = first_flags_at(s, at);
    assert((bytes::be32(s, p) / 0x10000) % 2 == s[p + 1] as nat % 2);
}

/// A fragment starts when its decode time says: a signed number of eight bytes in a box of the
/// first version, and of four bytes otherwise. Other boxes change nothing.
pub proof fn fragments_start_at_their_decode_time(s: Seq<u8>, at: int, f: Fragment)
    requires
        0 <= at,
        at + bytes::be32(s, at) <= s.len(),
    ensures
        ({
            let after = after_box(s, at, f);
            let size = bytes::be32(s, at);
            let kind = bytes::be32(s, at + 4);
            &&& kind == 0x7466_6474 && size >= 16 ==> after.samples == f.samples
                && after.sample_ticks == f.sample_ticks && after.keyframe == f.keyframe
            &&& kind == 0x7466_6474 && size >= 20 && s[at + 8] == 1 ==> after.start_ticks
                == bytes::signed64(bytes::be64(s, at + 12))
            &&& kind == 0x7466_6474 && size >= 16 && s[at + 8] != 1 ==> after.start_ticks
                == bytes::signed32(bytes::be32(s, at + 12))
            &&& kind == 0x7472_756e && size >= 16 ==> after == after_run(s, at, size, f)
            &&& (kind != 0x7466_6474 && kind != 0x7472_756e) || size < 16 ==> after == f
        }),
{
    reveal(bytes::be64);
    reveal(bytes::be32);
    reveal(bytes::be16);
}

/// Whether boxes stand at these places, one behind the other, up to an end.
pub open spec fn boxes_stand_at(s: Seq<u8>, starts: Seq<int>, end: int) -> bool {
    &&& starts.len() > 0
    &&& forall|i: int|
        0 <= i < starts.len() ==> #[trigger] starts[i] + 8 <= starts[i] + bytes::be32(s, starts[i])
            <= end
    &&& forall|i: int|
        0 < i < starts.len() ==> #[trigger] starts[i] == starts[i - 1] + bytes::be32(
            s,
            starts[i - 1],
        )
    &&& starts.last() + bytes::be32(s, starts.last()) == end
}

proof fn lemma_last_run(s: Seq<u8>, starts: Seq<int>, end: int, i: int, j: int, f: Fragment)
    requires
        boxes_stand_at(s, starts, end),
        0 <= i < starts.len(),
        0 <= j < starts.len(),
        bytes::be32(s, starts[j] + 4) == mp4::TRUN,
        bytes::be32(s, starts[j]) >= 16,
        forall|k: int|
            j < k < starts.len() ==> bytes::be32(s, #[trigger] starts[k] + 4) != mp4::TRUN,
        i > j ==> f.samples == bytes::be32(s, starts[j] + 12) as u64,
    ensures
        scan_traf(s, starts[i], end, f).samples == bytes::be32(s, starts[j] + 12) as u64,
    decreases starts.len() - i,
{
    let next = after_box(s, starts[i], f);
    if i + 1 < starts.len() {
        assert(starts[i + 1] == starts[i + 1 - 1] + bytes::be32(s, starts[i + 1 - 1]));
        lemma_last_run(s, starts, end, i + 1, j, next);
    } else {
        assert(starts[i] == starts.last());
        assert(scan_traf(s, end, end, next) == next);
    }
}

/// Of several runs of a track fragment the last counts: what is found are its samples, however
/// many boxes stand before it or behind it.
pub proof fn the_last_run_counts(s: Seq<u8>, starts: Seq<int>, end: int, j: int, f: Fragment)
    requires
        boxes_stand_at(s, starts, end),
        0 <= j < starts.len(),
        bytes::be32(s, starts[j] + 4) == 0x7472_756e,
        bytes::be32(s, starts[j]) >= 16,
        forall|k: int|
            j < k < starts.len() ==> bytes::be32(s, #[trigger] starts[k] + 4) != 0x7472_756e,
    ensures
        scan_traf(s, starts[0], end, f).samples == bytes::be32(s, starts[j] + 12) as u64,
{
    lemma_last_run(s, starts, end, 0, j, f);
}

proof fn lemma_last_time(s: Seq<u8>, starts: Seq<int>, end: int, i: int, j: int, f: Fragment)
    requires
        boxes_stand_at(s, starts, end),
        0 <= i < starts.len(),
        0 <= j < starts.len(),
        bytes::be32(s, starts[j] + 4) == mp4::TFDT,
        bytes::be32(s, starts[j]) >= 16,
        forall|k: int|
            j < k < starts.len() ==> bytes::be32(s, #[trigger] starts[k] + 4) != mp4::TFDT,
        i > j ==> f.start_ticks == decode_time(s, starts[j], bytes::be32(s, starts[j])) as i64,
    ensures
        scan_traf(s, starts[i], end, f).start_ticks == decode_time(
            s,
            starts[j],
            bytes::be32(s, starts[j]),
        ) as i64,
    decreases starts.len() - i,
{
    let next = after_box(s, starts[i], f);
    if i + 1 < starts.len() {
        assert(starts[i + 1] == starts[i + 1 - 1] + bytes::be32(s, starts[i + 1 - 1]));
        lemma_last_time(s, starts, end, i + 1, j, next);
    } else {
        assert(starts[i] == starts.last());
        assert(scan_traf(s, end, end, next) == next);
    }
}

/// Of several decode times of a track fragment the last counts, however many boxes stand before
/// it or behind it.
pub proof fn the_last_decode_time_counts(
    s: Seq<u8>,
    starts: Seq<int>,
    end: int,
    j: int,
    f: Fragment,
)
    requires
        boxes_stand_at(s, starts, end),
        0 <= j < starts.len(),
        bytes::be32(s, starts[j] + 4) == 0x7466_6474,
        bytes::be32(s, starts[j]) >= 16,
        forall|k: int|
            j < k < starts.len() ==> bytes::be32(s, #[trigger] starts[k] + 4) != 0x7466_6474,
    ensures
        scan_traf(s, starts[0], end, f).start_ticks == decode_time(
            s,
            starts[j],
            bytes::be32(s, starts[j]),
        ) as i64,
{
    lemma_last_time(s, starts, end, 0, j, f);
}

proof fn lemma_one_track(s: Seq<u8>, starts: Seq<int>, i: int, j: int, f: Fragment, g: Fragment)
    requires
        boxes_stand_at(s, starts, s.len() as int),
        0 <= i < starts.len(),
        0 <= j < starts.len(),
        forall|k: int|
            0 <= k < starts.len() ==> (bytes::be32(s, #[trigger] starts[k] + 4) == mp4::TRAF
                <==> k == j),
        g == scan_traf(s, starts[j] + 8, starts[j] + bytes::be32(s, starts[j]), f),
    ensures
        i <= j ==> scan_moof(s, starts[i], f) == g,
        i > j ==> scan_moof(s, starts[i], g) == g,
    decreases starts.len() - i,
{
    let end = s.len() as int;
    assert(bytes::be32(s, starts[i] + 4) == mp4::TRAF <==> i == j);
    if i + 1 < starts.len() {
        assert(starts[i + 1] == starts[i + 1 - 1] + bytes::be32(s, starts[i + 1 - 1]));
        lemma_one_track(s, starts, i + 1, j, f, g);
    } else {
        assert(starts[i] == starts.last());
        assert(scan_moof(s, end, g) == g);
    }
}

/// What is known of a fragment is what its track fragment says, wherever that stands among the
/// other boxes.
pub proof fn fragments_are_those_of_their_track(s: Seq<u8>, starts: Seq<int>, j: int, f: Fragment)
    requires
        boxes_stand_at(s, starts, s.len() as int),
        0 <= j < starts.len(),
        forall|k: int|
            0 <= k < starts.len() ==> (bytes::be32(s, #[trigger] starts[k] + 4) == 0x7472_6166
                <==> k == j),
    ensures
        scan_moof(s, starts[0], f) == scan_traf(
            s,
            starts[j] + 8,
            starts[j] + bytes::be32(s, starts[j]),
            f,
        ),
{
    lemma_one_track(
        s,
        starts,
        0,
        j,
        f,
        scan_traf(s, starts[j] + 8, starts[j] + bytes::be32(s, starts[j]), f),
    );
}

} // verus!
