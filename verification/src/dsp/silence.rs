//! Finding silence: which stretches of a track are quiet long enough to be cut. How
//! loud a window is, is measured elsewhere; here it is known as silent or not.
use crate::bytes;
use crate::session::clock;
use crate::sorting;
use crate::text;
use vstd::prelude::*;
use vstd::string::*;

verus! {

pub const DEFAULT_WINDOW_MS: u32 = 20;

pub const DEFAULT_STEP_MS: u32 = 10;

/// The single-precision bit pattern of -38.
pub const DEFAULT_THRESHOLD_BITS: u32 = 0xc218_0000;

/// Which channels count.
#[derive(Debug, Clone, Copy, PartialEq, Eq, Structural)]
pub enum ChannelPolicy {
    /// The loudest one.
    MaxEnergy,
    Channel(u16),
}

/// What counts as silence. The threshold, in decibels below full scale, is a
/// single-precision bit pattern.
#[derive(Debug, PartialEq)]
pub struct SilenceConfig {
    pub threshold_db: u32,
    pub min_duration_ms: u32,
    pub padding_ms: u32,
    pub window_ms: Option<u32>,
    pub step_ms: Option<u32>,
    pub channel_policy: Option<String>,
}

impl Clone for SilenceConfig {
    fn clone(&self) -> (r: Self)
        ensures
            r == *self,
    {
        SilenceConfig {
            threshold_db: self.threshold_db,
            min_duration_ms: self.min_duration_ms,
            padding_ms: self.padding_ms,
            window_ms: self.window_ms,
            step_ms: self.step_ms,
            channel_policy: match &self.channel_policy {
                Some(p) => Some(p.clone()),
                None => None,
            },
        }
    }
}

impl Default for SilenceConfig {
    fn default() -> (r: Self)
        ensures
            r.threshold_db == DEFAULT_THRESHOLD_BITS,
            r.min_duration_ms == 400,
            r.padding_ms == 50,
            r.window_ms is None,
            r.step_ms is None,
            r.channel_policy is None,
    {
        SilenceConfig {
            threshold_db: DEFAULT_THRESHOLD_BITS,
            min_duration_ms: 400,
            padding_ms: 50,
            window_ms: None,
            step_ms: None,
            channel_policy: None,
        }
    }
}

/// Whether a single-precision bit pattern is that of a number, and not of infinity
/// or of none: its eight bits of exponent are not all ones.
pub open spec fn finite(bits: u32) -> bool {
    (bits / 0x80_0000) % 256 != 255
}

/// The channels that a text stands for, or why it stands for none.
pub open spec fn policy_of(value: Option<Seq<char>>) -> Result<ChannelPolicy, Seq<char>> {
    let t = match value {
        Some(s) => text::trimmed(s),
        None => Seq::empty(),
    };
    if t.len() == 0 || t == "max_energy"@ || t == "maxEnergy"@ {
        Ok(ChannelPolicy::MaxEnergy)
    } else if text::has_prefix(t, "channel:"@) {
        match text::number_of(t.skip("channel:"@.len() as int), u16::MAX as u32) {
            Some(n) => Ok(ChannelPolicy::Channel(n as u16)),
            None => Err("Invalid silence channel policy"@),
        }
    } else {
        Err("Unknown silence channel policy"@)
    }
}

/// A text that may be missing, as characters.
pub open spec fn chars_of(s: Option<String>) -> Option<Seq<char>> {
    match s {
        Some(s) => Some(s@),
        None => None,
    }
}

/// The channels that a text stands for.
pub fn parse_channel_policy(value: &Option<String>) -> (r: Result<ChannelPolicy, String>)
    ensures
        text::told(r) == policy_of(chars_of(*value)),
{
    let t: String = match value {
        Some(s) => text::trim(s.as_str()),
        None => String::new(),
    };
    if t.as_str().is_empty() || text::str_eq(t.as_str(), "max_energy") || text::str_eq(
        t.as_str(),
        "maxEnergy",
    ) {
        return Ok(ChannelPolicy::MaxEnergy);
    }
    if text::starts_with(t.as_str(), "channel:") {
        let v = text::to_chars(t.as_str());
        proof {
            reveal_strlit("channel:");
        }
        let rest = text::from_chars(&v, 8, v.len());
        assert(rest@ =~= t@.skip("channel:"@.len() as int));
        return match text::parse_number(rest.as_str(), u16::MAX as u32) {
            Some(n) => Ok(ChannelPolicy::Channel(n as u16)),
            None => Err("Invalid silence channel policy".to_owned()),
        };
    }
    Err("Unknown silence channel policy".to_owned())
}

/// The text that stands for a choice of channels.
pub open spec fn policy_name(policy: ChannelPolicy) -> Seq<char> {
    match policy {
        ChannelPolicy::MaxEnergy => "max_energy"@,
        ChannelPolicy::Channel(i) => "channel:"@ + text::decimal(i as nat),
    }
}

/// The text that stands for a choice of channels.
pub fn channel_policy_name(policy: ChannelPolicy) -> (r: String)
    ensures
        r@ == policy_name(policy),
{
    match policy {
        ChannelPolicy::MaxEnergy => "max_energy".to_owned(),
        ChannelPolicy::Channel(i) => {
            let mut t: String = "channel:".to_owned();
            text::push_decimal(&mut t, i as u64);
            t
        },
    }
}

impl SilenceConfig {
    /// Why the configuration cannot be used; `None` when it can.
    pub open spec fn fault(self) -> Option<Seq<char>> {
        if !finite(self.threshold_db) {
            Some("Silence threshold must be finite"@)
        } else if self.window_ms == Some(0u32) {
            Some("Silence window must be greater than zero"@)
        } else if self.step_ms == Some(0u32) {
            Some("Silence step must be greater than zero"@)
        } else if self.step_ms is Some && self.step_ms.unwrap() > self.window_ms.unwrap_or(
            DEFAULT_WINDOW_MS,
        ) {
            Some("Silence step cannot exceed window"@)
        } else {
            match policy_of(chars_of(self.channel_policy)) {
                Ok(_) => None,
                Err(e) => Some(e),
            }
        }
    }

    /// The length of a window, in milliseconds.
    pub open spec fn window(self) -> u32 {
        let w = self.window_ms.unwrap_or(DEFAULT_WINDOW_MS);
        if w == 0 {
            1
        } else {
            w
        }
    }

    /// How far apart windows start, in milliseconds: half a window, unless given.
    pub open spec fn step(self) -> u32 {
        let s = self.step_ms.unwrap_or(self.window() / 2);
        if s == 0 {
            1
        } else {
            s
        }
    }

    /// Checks that the configuration can be used.
    pub fn validate(&self) -> (r: Result<(), String>)
        ensures
            match r {
                Ok(()) => self.fault() is None,
                Err(e) => self.fault() == Some(e@),
            },
    {
        if (self.threshold_db / 0x80_0000) % 256 == 255 {
            return Err("Silence threshold must be finite".to_owned());
        }
        let window_ms: u32 = match self.window_ms {
            Some(w) => w,
            None => DEFAULT_WINDOW_MS,
        };
        if window_ms == 0 {
            return Err("Silence window must be greater than zero".to_owned());
        }
        match self.step_ms {
            Some(step) => {
                if step == 0 {
                    return Err("Silence step must be greater than zero".to_owned());
                }
                if step > window_ms {
                    return Err("Silence step cannot exceed window".to_owned());
                }
            },
            None => {},
        }
        match parse_channel_policy(&self.channel_policy) {
            Ok(_) => Ok(()),
            Err(e) => Err(e),
        }
    }

    pub fn resolved_window_ms(&self) -> (r: u32)
        ensures
            r == self.window(),
    {
        let w: u32 = match self.window_ms {
            Some(w) => w,
            None => DEFAULT_WINDOW_MS,
        };
        if w == 0 {
            1
        } else {
            w
        }
    }

    pub fn resolved_step_ms(&self) -> (r: u32)
        ensures
            r == self.step(),
    {
        let s: u32 = match self.step_ms {
            Some(s) => s,
            None => self.resolved_window_ms() / 2,
        };
        if s == 0 {
            1
        } else {
            s
        }
    }

    pub fn resolved_policy(&self) -> (r: Result<ChannelPolicy, String>)
        ensures
            text::told(r) == policy_of(chars_of(self.channel_policy)),
    {
        parse_channel_policy(&self.channel_policy)
    }
}

/// The whole sample frames in some milliseconds.
pub open spec fn frames_in(sample_rate: u32, ms: u32) -> int {
    ms * sample_rate / 1_000
}

/// The whole sample frames in some milliseconds.
pub fn frames_for_ms(sample_rate: u32, ms: u32) -> (r: u64)
    ensures
        r == frames_in(sample_rate, ms),
{
    assert(0 <= ms * sample_rate <= 0xffff_ffff * 0xffff_ffff) by (nonlinear_arith)
        requires
            0 <= ms <= 0xffff_ffff,
            0 <= sample_rate <= 0xffff_ffff,
    ;
    (ms as u64) * (sample_rate as u64) / 1_000
}

/// The time of a sample frame, in microseconds.
pub fn frame_us(frame_index: u64, sample_rate: u32) -> (r: u64)
    ensures
        r == clock::sample_us(frame_index as nat, sample_rate as nat),
{
    if sample_rate == 0 {
        return 0;
    }
    bytes::low64((frame_index as u128) * 1_000_000 / (sample_rate as u128))
}

/// The sum, or the largest number there is.
pub open spec fn sat_add(a: int, b: int) -> u64 {
    if a + b > u64::MAX {
        u64::MAX
    } else {
        (a + b) as u64
    }
}

/// Stretches, in order of their starts, with those that touch joined and empty ones
/// left out.
pub open spec fn merged(s: Seq<(u64, u64)>) -> Seq<(u64, u64)>
    decreases s.len(),
{
    if s.len() == 0 {
        Seq::empty()
    } else {
        let m = merged(s.drop_last());
        let r = s.last();
        if r.1 <= r.0 {
            m
        } else if m.len() > 0 && r.0 <= m.last().1 {
            m.update(
                m.len() - 1,
                (
                    m.last().0,
                    if r.1 > m.last().1 {
                        r.1
                    } else {
                        m.last().1
                    },
                ),
            )
        } else {
            m.push(r)
        }
    }
}

/// A stretch without its padding, unless it is too short.
pub open spec fn padded_cut(r: (u64, u64), min_us: int, padding_us: int) -> Option<(u64, u64)> {
    let from = sat_add(r.0 as int, padding_us);
    let to = if r.1 >= padding_us {
        (r.1 - padding_us) as u64
    } else {
        0
    };
    if r.1 - r.0 < min_us || to <= from {
        None
    } else {
        Some((from, to))
    }
}

/// The stretches that are long enough, without their padding.
pub open spec fn cuts_of(m: Seq<(u64, u64)>, min_us: int, padding_us: int) -> Seq<(u64, u64)>
    decreases m.len(),
{
    if m.len() == 0 {
        Seq::empty()
    } else {
        let before = cuts_of(m.drop_last(), min_us, padding_us);
        match padded_cut(m.last(), min_us, padding_us) {
            Some(c) => before.push(c),
            None => before,
        }
    }
}

fn merge(s: &Vec<(u64, u64)>) -> (out: Vec<(u64, u64)>)
    ensures
        out@ == merged(s@),
{
    let mut out: Vec<(u64, u64)> = Vec::new();
    let mut i: usize = 0;
    assert(s@.take(0) =~= Seq::<(u64, u64)>::empty());
    while i < s.len()
        invariant
            i <= s@.len(),
            out@ == merged(s@.take(i as int)),
        decreases s@.len() - i,
    {
        assert(s@.take(i + 1).drop_last() =~= s@.take(i as int));
        let r: (u64, u64) = s[i];
        if r.1 > r.0 {
            let n: usize = out.len();
            if n > 0 && r.0 <= out[n - 1].1 {
                let last: (u64, u64) = out[n - 1];
                let end: u64 = if r.1 > last.1 {
                    r.1
                } else {
                    last.1
                };
                out.set(n - 1, (last.0, end));
            } else {
                out.push(r);
            }
        }
        i = i + 1;
    }
    assert(s@.take(s@.len() as int) =~= s@);
    out
}

/// The cuts that silent stretches give: those that touch are joined, those that are
/// too short are left out, and each is kept away from the sound around it.
pub fn finalize_regions(regions: Vec<(u64, u64)>, config: &SilenceConfig) -> (out: Vec<(u64, u64)>)
    ensures
        exists|s: Seq<(u64, u64)>| #[trigger]
            sorting::is_sorting_of(regions@, s) && out@ == cuts_of(
                merged(s),
                config.min_duration_ms * 1_000,
                config.padding_ms * 1_000,
            ),
{
    let sorted: Vec<(u64, u64)> = sorting::sort_stable(regions);
    assert(sorting::is_sorting_of(regions@, sorted@));
    let m: Vec<(u64, u64)> = merge(&sorted);
    let min_us: u64 = (config.min_duration_ms as u64) * 1_000;
    let padding_us: u64 = (config.padding_ms as u64) * 1_000;
    let mut out: Vec<(u64, u64)> = Vec::new();
    let mut i: usize = 0;
    assert(m@.take(0) =~= Seq::<(u64, u64)>::empty());
    assert forall|k: int| 0 <= k < m@.len() implies (#[trigger] m@[k]).0 < m@[k].1 by {
        lemma_merged_nonempty(sorted@);
    }
    while i < m.len()
        invariant
            i <= m@.len(),
            min_us == config.min_duration_ms * 1_000,
            padding_us == config.padding_ms * 1_000,
            out@ == cuts_of(m@.take(i as int), min_us as int, padding_us as int),
            forall|k: int| 0 <= k < m@.len() ==> (#[trigger] m@[k]).0 < m@[k].1,
        decreases m@.len() - i,
    {
        assert(m@.take(i + 1).drop_last() =~= m@.take(i as int));
        let r: (u64, u64) = m[i];
        if r.1 - r.0 >= min_us {
            let from: u64 = if r.0 > u64::MAX - padding_us {
                u64::MAX
            } else {
                r.0 + padding_us
            };
            let to: u64 = if r.1 >= padding_us {
                r.1 - padding_us
            } else {
                0
            };
            if to > from {
                out.push((from, to));
            }
        }
        i = i + 1;
    }
    assert(m@.take(m@.len() as int) =~= m@);
    out
}

proof fn lemma_merged_nonempty(s: Seq<(u64, u64)>)
    ensures
        forall|k: int| 0 <= k < merged(s).len() ==> (#[trigger] merged(s)[k]).0 < merged(s)[k].1,
    decreases s.len(),
{
    if s.len() > 0 {
        lemma_merged_nonempty(s.drop_last());
        let m = merged(s.drop_last());
        assert forall|k: int| 0 <= k < merged(s).len() implies (#[trigger] merged(s)[k]).0 < merged(
            s,
        )[k].1 by {
            if k < m.len() {
                assert(m[k].0 < m[k].1);
            }
        }
    }
}

/// Whether a time lies in one of the stretches.
pub open spec fn in_regions(s: Seq<(u64, u64)>, x: int) -> bool {
    exists|i: int| 0 <= i < s.len() && (#[trigger] s[i]).0 <= x < s[i].1
}

/// Whether stretches are not empty, in order, and apart.
pub open spec fn apart(s: Seq<(u64, u64)>) -> bool {
    &&& forall|i: int| 0 <= i < s.len() ==> (#[trigger] s[i]).0 < s[i].1
    &&& forall|i: int, j: int| 0 <= i < j < s.len() ==> (#[trigger] s[i]).1 < (#[trigger] s[j]).0
}

proof fn lemma_merged(s: Seq<(u64, u64)>)
    requires
        forall|i: int, j: int| 0 <= i <= j < s.len() ==> (#[trigger] s[i]).0 <= (#[trigger] s[j]).0,
    ensures
        apart(merged(s)),
        forall|x: int| #[trigger] in_regions(merged(s), x) <==> in_regions(s, x),
        merged(s).len() > 0 ==> s.len() > 0 && merged(s).last().0 <= s.last().0,
    decreases s.len(),
{
    if s.len() > 0 {
        let t = s.drop_last();
        assert forall|i: int, j: int| 0 <= i <= j < t.len() implies (#[trigger] t[i]).0 <= (
        #[trigger] t[j]).0 by {
            assert(s[i].0 <= s[j].0);
        }
        lemma_merged(t);
        let m = merged(t);
        let r = s.last();
        let out = merged(s);
        if t.len() > 0 {
            assert(t.last().0 <= r.0) by {
                assert(s[t.len() - 1].0 <= s[s.len() - 1].0);
            }
        }
        assert forall|x: int| #[trigger] in_regions(s, x) <==> (in_regions(t, x) || r.0 <= x
            < r.1) by {
            if in_regions(s, x) {
                let i = choose|i: int| 0 <= i < s.len() && (#[trigger] s[i]).0 <= x < s[i].1;
                if i < t.len() {
                    assert(t[i] == s[i]);
                }
            }
            if in_regions(t, x) {
                let i = choose|i: int| 0 <= i < t.len() && (#[trigger] t[i]).0 <= x < t[i].1;
                assert(s[i] == t[i]);
            }
            if r.0 <= x < r.1 {
                assert(s[s.len() - 1] == r);
            }
        }
        if r.1 <= r.0 {
        } else if m.len() > 0 && r.0 <= m.last().1 {
            let e = out.last();
            assert forall|x: int| #[trigger] in_regions(out, x) <==> (in_regions(m, x) || r.0 <= x
                < r.1) by {
                if in_regions(out, x) {
                    let i = choose|i: int| 0 <= i < out.len() && (#[trigger] out[i]).0 <= x < out[i].1;
                    if i < m.len() - 1 {
                        assert(m[i] == out[i]);
                    } else if x < m.last().1 {
                        assert(m[m.len() - 1].0 <= x < m[m.len() - 1].1);
                    }
                }
                if in_regions(m, x) {
                    let i = choose|i: int| 0 <= i < m.len() && (#[trigger] m[i]).0 <= x < m[i].1;
                    assert(out[i].0 <= x < out[i].1);
                }
                if r.0 <= x < r.1 {
                    assert(out[out.len() - 1].0 <= x < out[out.len() - 1].1);
                }
            }
            assert forall|i: int, j: int| 0 <= i < j < out.len() implies (#[trigger] out[i]).1 < (
            #[trigger] out[j]).0 by {
                assert(m[i].1 < m[j].0);
            }
            assert forall|i: int| 0 <= i < out.len() implies (#[trigger] out[i]).0 < out[i].1 by {
                assert(m[i].0 < m[i].1);
            }
        } else {
            assert forall|x: int| #[trigger] in_regions(out, x) <==> (in_regions(m, x) || r.0 <= x
                < r.1) by {
                if in_regions(out, x) {
                    let i = choose|i: int| 0 <= i < out.len() && (#[trigger] out[i]).0 <= x < out[i].1;
                    if i < m.len() {
                        assert(m[i] == out[i]);
                    }
                }
                if in_regions(m, x) {
                    let i = choose|i: int| 0 <= i < m.len() && (#[trigger] m[i]).0 <= x < m[i].1;
                    assert(out[i] == m[i]);
                }
                if r.0 <= x < r.1 {
                    assert(out[out.len() - 1] == r);
                }
            }
            assert forall|i: int, j: int| 0 <= i < j < out.len() implies (#[trigger] out[i]).1 < (
            #[trigger] out[j]).0 by {
                if j < m.len() {
                    assert(m[i].1 < m[j].0);
                } else if i < m.len() - 1 {
                    assert(m[i].1 < m[m.len() - 1].0);
                    assert(m[m.len() - 1].0 < m[m.len() - 1].1);
                }
            }
        }
    } else {
        assert forall|x: int| #[trigger] in_regions(merged(s), x) <==> in_regions(s, x) by {
            if in_regions(s, x) {
                let i = choose|i: int| 0 <= i < s.len() && (#[trigger] s[i]).0 <= x < s[i].1;
            }
        }
    }
}

proof fn lemma_cuts(m: Seq<(u64, u64)>, min_us: int, padding_us: int)
    requires
        apart(m),
        0 <= padding_us,
    ensures
        apart(cuts_of(m, min_us, padding_us)),
        forall|x: int| #[trigger] in_regions(cuts_of(m, min_us, padding_us), x) ==> in_regions(m, x),
        cuts_of(m, min_us, padding_us).len() > 0 ==> m.len() > 0 && cuts_of(
            m,
            min_us,
            padding_us,
        ).last().1 <= m.last().1,
    decreases m.len(),
{
    if m.len() > 0 {
        let t = m.drop_last();
        assert forall|i: int, j: int| 0 <= i < j < t.len() implies (#[trigger] t[i]).1 < (
        #[trigger] t[j]).0 by {
            assert(m[i].1 < m[j].0);
        }
        lemma_cuts(t, min_us, padding_us);
        let before = cuts_of(t, min_us, padding_us);
        let out = cuts_of(m, min_us, padding_us);
        assert forall|x: int| #[trigger] in_regions(out, x) implies in_regions(m, x) by {
            let i = choose|i: int| 0 <= i < out.len() && (#[trigger] out[i]).0 <= x < out[i].1;
            if i < before.len() {
                assert(before[i] == out[i]);
                assert(in_regions(before, x));
                let k = choose|k: int| 0 <= k < t.len() && (#[trigger] t[k]).0 <= x < t[k].1;
                assert(m[k] == t[k]);
            } else {
                assert(m[m.len() - 1].0 <= x < m[m.len() - 1].1);
            }
        }
        assert forall|i: int, j: int| 0 <= i < j < out.len() implies (#[trigger] out[i]).1 < (
        #[trigger] out[j]).0 by {
            if j < before.len() {
                assert(before[i].1 < before[j].0);
            } else {
                assert(before[i].1 <= before.last().1) by {
                    if i < before.len() - 1 {
                        assert(before[i].1 < before[before.len() - 1].0);
                        assert(before[before.len() - 1].0 < before[before.len() - 1].1);
                    }
                }
                assert(t[t.len() - 1].1 < m[m.len() - 1].0) by {
                    assert(m[t.len() - 1].1 < m[m.len() - 1].0);
                }
            }
        }
        assert forall|i: int| 0 <= i < out.len() implies (#[trigger] out[i]).0 < out[i].1 by {
            if i < before.len() {
                assert(before[i].0 < before[i].1);
            }
        }
        if out.len() > 0 && padded_cut(m.last(), min_us, padding_us) is None {
            assert(t[t.len() - 1].1 < m[m.len() - 1].0) by {
                assert(m[t.len() - 1].1 < m[m.len() - 1].0);
            }
            assert(m[m.len() - 1].0 < m[m.len() - 1].1);
        }
    }
}

/// Cuts never reach into sound: every time in a cut lies in a silent stretch, and
/// cuts are in order and apart.
pub proof fn cuts_lie_in_silence(
    regions: Seq<(u64, u64)>,
    s: Seq<(u64, u64)>,
    min_us: int,
    padding_us: int,
)
    requires
        sorting::is_sorting_of(regions, s),
        0 <= padding_us,
    ensures
        apart(cuts_of(merged(s), min_us, padding_us)),
        forall|x: int|
            #[trigger] in_regions(cuts_of(merged(s), min_us, padding_us), x) ==> in_regions(
                regions,
                x,
            ),
{
    sorting::sorting_keeps_every_item(regions, s);
    assert forall|i: int, j: int| 0 <= i <= j < s.len() implies (#[trigger] s[i]).0 <= (
    #[trigger] s[j]).0 by {
        assert(sorting::Ranked::le(s[i], s[j]));
    }
    lemma_merged(s);
    lemma_cuts(merged(s), min_us, padding_us);
    assert forall|x: int|
        #[trigger] in_regions(cuts_of(merged(s), min_us, padding_us), x) implies in_regions(
        regions,
        x,
    ) by {
        assert(in_regions(merged(s), x));
        assert(in_regions(s, x));
        let i = choose|i: int| 0 <= i < s.len() && (#[trigger] s[i]).0 <= x < s[i].1;
        assert(regions.contains(s[i]));
        let k = choose|k: int| 0 <= k < regions.len() && regions[k] == s[i];
        assert(regions[k].0 <= x < regions[k].1);
    }
}

proof fn lemma_in_silence(regions: Seq<(u64, u64)>, s: Seq<(u64, u64)>, x: int)
    requires
        sorting::is_sorting_of(regions, s),
    ensures
        in_regions(s, x) <==> in_regions(regions, x),
{
    sorting::sorting_keeps_every_item(regions, s);
    if in_regions(s, x) {
        let i = choose|i: int| 0 <= i < s.len() && (#[trigger] s[i]).0 <= x < s[i].1;
        assert(regions.contains(s[i]));
        let k = choose|k: int| 0 <= k < regions.len() && regions[k] == s[i];
        assert(regions[k].0 <= x < regions[k].1);
    }
    if in_regions(regions, x) {
        let i = choose|i: int| 0 <= i < regions.len() && (#[trigger] regions[i]).0 <= x < regions[i].1;
        assert(s.contains(regions[i]));
        let k = choose|k: int| 0 <= k < s.len() && s[k] == regions[i];
        assert(s[k].0 <= x < s[k].1);
    }
}

/// Joined stretches hold the silent times and no others, and none could be longer: the
/// time before each and the time at its end are not silent.
pub proof fn joined_stretches_are_maximal(regions: Seq<(u64, u64)>, s: Seq<(u64, u64)>)
    requires
        sorting::is_sorting_of(regions, s),
    ensures
        apart(merged(s)),
        forall|x: int| #[trigger] in_regions(merged(s), x) <==> in_regions(regions, x),
        forall|k: int|
            0 <= k < merged(s).len() ==> !in_regions(regions, (#[trigger] merged(s)[k]).0 - 1)
                && !in_regions(regions, merged(s)[k].1 as int),
{
    assert forall|i: int, j: int| 0 <= i <= j < s.len() implies (#[trigger] s[i]).0 <= (
    #[trigger] s[j]).0 by {
        assert(sorting::Ranked::le(s[i], s[j]));
    }
    lemma_merged(s);
    let m = merged(s);
    assert forall|x: int| #[trigger] in_regions(m, x) <==> in_regions(regions, x) by {
        lemma_in_silence(regions, s, x);
    }
    assert forall|k: int| 0 <= k < m.len() implies !in_regions(regions, (#[trigger] m[k]).0 - 1)
        && !in_regions(regions, m[k].1 as int) by {
        assert(m[k].0 < m[k].1);
        assert(in_regions(m, m[k].0 - 1) <==> in_regions(regions, m[k].0 - 1));
        assert(in_regions(m, m[k].1 as int) <==> in_regions(regions, m[k].1 as int));
        if in_regions(m, m[k].0 - 1) {
            let i = choose|i: int| 0 <= i < m.len() && (#[trigger] m[i]).0 <= m[k].0 - 1 < m[i].1;
            if i < k {
                assert(m[i].1 < m[k].0);
            } else if i > k {
                assert(m[k].1 < m[i].0);
            }
        }
        if in_regions(m, m[k].1 as int) {
            let i = choose|i: int| 0 <= i < m.len() && (#[trigger] m[i]).0 <= m[k].1 < m[i].1;
            if i < k {
                assert(m[i].1 < m[k].0);
            } else if i > k {
                assert(m[k].1 < m[i].0);
            }
        }
    }
}

/// The cuts are the joined stretches that are long enough, each without its padding.
pub proof fn cuts_are_padded_stretches(
    m: Seq<(u64, u64)>,
    min_us: int,
    padding_us: int,
    c: (u64, u64),
)
    ensures
        cuts_of(m, min_us, padding_us).contains(c) <==> exists|k: int|
            0 <= k < m.len() && padded_cut(#[trigger] m[k], min_us, padding_us) == Some(c),
    decreases m.len(),
{
    let cuts = cuts_of(m, min_us, padding_us);
    if m.len() > 0 {
        let t = m.drop_last();
        let before = cuts_of(t, min_us, padding_us);
        cuts_are_padded_stretches(t, min_us, padding_us, c);
        if cuts.contains(c) {
            let i = choose|i: int| 0 <= i < cuts.len() && cuts[i] == c;
            if i < before.len() {
                assert(before[i] == c);
                let k = choose|k: int|
                    0 <= k < t.len() && padded_cut(#[trigger] t[k], min_us, padding_us) == Some(c);
                assert(m[k] == t[k]);
            } else {
                assert(padded_cut(m[m.len() - 1], min_us, padding_us) == Some(c));
            }
        }
        if exists|k: int|
            0 <= k < m.len() && padded_cut(#[trigger] m[k], min_us, padding_us) == Some(c) {
            let k = choose|k: int|
                0 <= k < m.len() && padded_cut(#[trigger] m[k], min_us, padding_us) == Some(c);
            if k < t.len() {
                assert(t[k] == m[k]);
                let i = choose|i: int| 0 <= i < before.len() && before[i] == c;
                assert(cuts[i] == c);
            } else {
                assert(cuts.last() == c);
            }
        }
    }
}

/// A cut leaves its padding on both sides: each cut starts the padding behind the start of a
/// joined stretch of the least length and ends the padding before its end, and every such
/// stretch that is longer than its two paddings gives one.
pub proof fn cuts_leave_their_padding(
    m: Seq<(u64, u64)>,
    min_us: int,
    padding_us: int,
    c: (u64, u64),
)
    requires
        0 <= padding_us,
    ensures
        cuts_of(m, min_us, padding_us).contains(c) <==> exists|k: int|
            0 <= k < m.len() && (#[trigger] m[k]).1 - m[k].0 >= min_us && c.0 == m[k].0 + padding_us
                && c.1 == m[k].1 - padding_us && c.0 < c.1,
{
    cuts_are_padded_stretches(m, min_us, padding_us, c);
    if cuts_of(m, min_us, padding_us).contains(c) {
        let k = choose|k: int|
            0 <= k < m.len() && padded_cut(#[trigger] m[k], min_us, padding_us) == Some(c);
        assert(m[k].1 - m[k].0 >= min_us && c.0 == m[k].0 + padding_us);
    }
    if exists|k: int|
        0 <= k < m.len() && (#[trigger] m[k]).1 - m[k].0 >= min_us && c.0 == m[k].0 + padding_us
            && c.1 == m[k].1 - padding_us && c.0 < c.1 {
        let k = choose|k: int|
            0 <= k < m.len() && (#[trigger] m[k]).1 - m[k].0 >= min_us && c.0 == m[k].0 + padding_us
                && c.1 == m[k].1 - padding_us && c.0 < c.1;
        assert(padded_cut(m[k], min_us, padding_us) == Some(c));
    }
}

/// A suggested cut.
#[derive(Debug, PartialEq)]
pub struct SilenceCutInterval {
    pub id: String,
    pub start_us: u64,
    pub end_us: u64,
    pub duration_ms: u64,
    pub selected: bool,
    pub source_start_us: u64,
    pub source_end_us: u64,
}

/// What was found on a track.
#[derive(Debug, PartialEq)]
pub struct SilenceDetectionResult {
    pub track_id: String,
    pub sample_rate: u32,
    pub channels: u16,
    pub channel_policy: String,
    pub suggestions: Vec<SilenceCutInterval>,
    pub diagnostics: Vec<String>,
}

/// Whether `c` is the suggested cut number `n`, counted from 1, of an edited range
/// that plays a stretch of the source.
pub open spec fn is_cut(c: SilenceCutInterval, n: nat, edited: (u64, u64), source: (u64, u64)) -> bool {
    &&& c.id@ == "silence-"@ + text::decimal(n)
    &&& c.start_us == edited.0
    &&& c.end_us == edited.1
    &&& c.duration_ms == if edited.1 >= edited.0 {
        (edited.1 - edited.0) / 1_000
    } else {
        0
    }
    &&& c.selected
    &&& c.source_start_us == source.0
    &&& c.source_end_us == source.1
}

/// The suggested cut number `n`.
pub fn cut_interval(n: usize, edited: (u64, u64), source: (u64, u64)) -> (c: SilenceCutInterval)
    ensures
        is_cut(c, n as nat, edited, source),
{
    let mut id: String = "silence-".to_owned();
    text::push_decimal(&mut id, n as u64);
    SilenceCutInterval {
        id,
        start_us: edited.0,
        end_us: edited.1,
        duration_ms: if edited.1 >= edited.0 {
            (edited.1 - edited.0) / 1_000
        } else {
            0
        },
        selected: true,
        source_start_us: source.0,
        source_end_us: source.1,
    }
}

/// Suggested cuts of stretches of the source, where nothing is edited.
pub fn intervals_from_source_ranges(ranges: &Vec<(u64, u64)>) -> (out: Vec<SilenceCutInterval>)
    ensures
        out@.len() == ranges@.len(),
        forall|i: int|
            0 <= i < out@.len() ==> is_cut(
                #[trigger] out@[i],
                (i + 1) as nat,
                ranges@[i],
                ranges@[i],
            ),
{
    let mut out: Vec<SilenceCutInterval> = Vec::new();
    let mut i: usize = 0;
    while i < ranges.len()
        invariant
            i <= ranges@.len(),
            out@.len() == i,
            forall|k: int|
                0 <= k < i ==> is_cut(
                    #[trigger] out@[k],
                    (k + 1) as nat,
                    ranges@[k],
                    ranges@[k],
                ),
        decreases ranges@.len() - i,
    {
        out.push(cut_interval(i + 1, ranges[i], ranges[i]));
        i = i + 1;
    }
    out
}

/// What has been heard of a track: how many sample frames wait for a window, from
/// when on, when the next ones are expected, whether and since when it is silent,
/// and which stretches were silent.
pub struct Heard {
    pub waiting: nat,
    pub waiting_from: u64,
    pub expected: Option<u64>,
    pub silent: bool,
    pub since: u64,
    pub regions: Seq<(u64, u64)>,
}

/// The time `frames` after `origin`.
pub open spec fn later(origin: u64, frames: nat, rate: u32) -> u64 {
    sat_add(origin as int, clock::sample_us(frames, rate as nat) as int)
}

/// A stretch of silence that has ended, if it is not empty.
pub open spec fn with_region(r: Seq<(u64, u64)>, from: u64, to: u64) -> Seq<(u64, u64)> {
    if to > from {
        r.push((from, to))
    } else {
        r
    }
}

impl Heard {
    /// Nothing yet.
    pub open spec fn nothing() -> Heard {
        Heard {
            waiting: 0,
            waiting_from: 0,
            expected: None,
            silent: false,
            since: 0,
            regions: Seq::empty(),
        }
    }

    /// When what has been heard ends.
    pub open spec fn end(self, rate: u32) -> u64 {
        if self.waiting > 0 {
            later(self.waiting_from, self.waiting, rate)
        } else {
            self.expected.unwrap_or(self.since)
        }
    }

    /// A silence that lasts until the end is over.
    pub open spec fn flushed(self, rate: u32) -> Heard {
        if self.silent {
            Heard {
                silent: false,
                regions: with_region(self.regions, self.since, self.end(rate)),
                ..self
            }
        } else {
            self
        }
    }

    /// What follows does not continue what was heard.
    pub open spec fn interrupted(self, rate: u32) -> Heard {
        Heard {
            waiting: 0,
            waiting_from: 0,
            expected: None,
            silent: false,
            ..self.flushed(rate)
        }
    }

    /// Whether frames from `start` on continue what was heard, give or take a frame.
    pub open spec fn continues(self, start: u64, rate: u32) -> bool {
        match self.expected {
            None => true,
            Some(e) => {
                let frame = 1_000_000int / (rate as int);
                let slack = if frame > 1 {
                    frame
                } else {
                    1
                };
                -slack <= start - e <= slack
            },
        }
    }

    /// A window that starts at `at` has been judged.
    pub open spec fn observed(self, silent: bool, at: u64) -> Heard {
        if silent && !self.silent {
            Heard { silent: true, since: at, ..self }
        } else if !silent && self.silent {
            Heard { silent: false, regions: with_region(self.regions, self.since, at), ..self }
        } else {
            self
        }
    }

    /// The first `k` windows, `step` frames apart from `origin` on, have been judged.
    pub open spec fn observed_all(
        self,
        silent: Seq<bool>,
        k: nat,
        origin: u64,
        step: nat,
        rate: u32,
    ) -> Heard
        decreases k,
    {
        if k == 0 {
            self
        } else {
            self.observed_all(silent, (k - 1) as nat, origin, step, rate).observed(
                silent[k - 1],
                later(origin, ((k - 1) * step) as nat, rate),
            )
        }
    }

    /// What is kept when frames from `start` on follow.
    pub open spec fn before(self, start: u64, rate: u32) -> Heard {
        if self.continues(start, rate) {
            self
        } else {
            self.interrupted(rate)
        }
    }

    /// When the first window starts, when frames from `start` on follow.
    pub open spec fn origin(self, start: u64) -> u64 {
        if self.waiting == 0 {
            start
        } else {
            self.waiting_from
        }
    }
}

/// How many windows, `step` frames apart, fit in `total` frames.
pub open spec fn windows(total: nat, window: nat, step: nat) -> nat {
    if total < window || step == 0 {
        0
    } else {
        ((total - window) / (step as int) + 1) as nat
    }
}

/// Finds the silent stretches of a track as its sample frames come in.
#[derive(Debug)]
pub struct StreamingSilenceDetector {
    sample_rate: u32,
    channels: u16,
    policy: ChannelPolicy,
    config: SilenceConfig,
    window_frames: u64,
    step_frames: u64,
    leftover_frames: u64,
    leftover_origin_us: u64,
    next_source_us: Option<u64>,
    in_silence: bool,
    silence_start_us: u64,
    regions: Vec<(u64, u64)>,
}

impl View for StreamingSilenceDetector {
    type V = Heard;

    closed spec fn view(&self) -> Heard {
        Heard {
            waiting: self.leftover_frames as nat,
            waiting_from: self.leftover_origin_us,
            expected: self.next_source_us,
            silent: self.in_silence,
            since: self.silence_start_us,
            regions: self.regions@,
        }
    }
}

/// Why a detector cannot be made; `None` when it can.
pub open spec fn detector_fault(
    sample_rate: u32,
    channels: u16,
    config: SilenceConfig,
) -> Option<Seq<char>> {
    if config.fault() is Some {
        config.fault()
    } else if sample_rate == 0 {
        Some("Silence sample rate must be greater than zero"@)
    } else if channels == 0 {
        Some("Silence channel count must be greater than zero"@)
    } else if policy_of(chars_of(config.channel_policy)) matches Ok(ChannelPolicy::Channel(i)) && i
        >= channels {
        Some("Selected silence channel is out of range"@)
    } else if frames_in(sample_rate, config.window()) == 0 {
        Some("Silence window is smaller than one sample frame"@)
    } else if frames_in(sample_rate, config.step()) == 0 {
        Some("Silence step is smaller than one sample frame"@)
    } else {
        None
    }
}

impl StreamingSilenceDetector {
    /// Sample frames per second.
    pub closed spec fn rate(&self) -> u32 {
        self.sample_rate
    }

    /// Samples per frame.
    pub closed spec fn width(&self) -> u16 {
        self.channels
    }

    /// What counts as silence.
    pub closed spec fn settings(&self) -> SilenceConfig {
        self.config
    }

    /// Frames of a window.
    pub closed spec fn window(&self) -> nat {
        self.window_frames as nat
    }

    /// Frames between the starts of two windows.
    pub closed spec fn step(&self) -> nat {
        self.step_frames as nat
    }

    /// The channels that count.
    pub closed spec fn channel(&self) -> ChannelPolicy {
        self.policy
    }

    /// There are channels and a rate, and a window reaches to the next one.
    pub open spec fn wf(&self) -> bool {
        &&& self.rate() > 0
        &&& self.width() > 0
        &&& 0 < self.step() <= self.window()
        &&& self.window() <= u64::MAX
        &&& self@.waiting <= u64::MAX
    }

    /// Whether this detector listens as that one did.
    pub open spec fn like(&self, other: &Self) -> bool {
        &&& self.rate() == other.rate()
        &&& self.width() == other.width()
        &&& self.window() == other.window()
        &&& self.step() == other.step()
        &&& self.channel() == other.channel()
        &&& self.settings() == other.settings()
    }

    pub fn new(sample_rate: u32, channels: u16, config: &SilenceConfig) -> (r: Result<Self, String>)
        ensures
            match r {
                Ok(d) => {
                    &&& detector_fault(sample_rate, channels, *config) is None
                    &&& d.wf()
                    &&& d@ == Heard::nothing()
                    &&& d.rate() == sample_rate
                    &&& d.width() == channels
                    &&& d.settings() == *config
                    &&& d.window() == frames_in(sample_rate, config.window())
                    &&& d.step() == frames_in(sample_rate, config.step())
                    &&& policy_of(chars_of(config.channel_policy)) == Ok::<
                        ChannelPolicy,
                        Seq<char>,
                    >(d.channel())
                },
                Err(e) => detector_fault(sample_rate, channels, *config) == Some(e@),
            },
    {
        match config.validate() {
            Ok(()) => {},
            Err(e) => {
                return Err(e);
            },
        }
        if sample_rate == 0 {
            return Err("Silence sample rate must be greater than zero".to_owned());
        }
        if channels == 0 {
            return Err("Silence channel count must be greater than zero".to_owned());
        }
        let policy: ChannelPolicy = match config.resolved_policy() {
            Ok(p) => p,
            Err(e) => {
                return Err(e);
            },
        };
        if let ChannelPolicy::Channel(index) = policy {
            if index >= channels {
                return Err("Selected silence channel is out of range".to_owned());
            }
        }
        let window_ms: u32 = config.resolved_window_ms();
        let step_ms: u32 = config.resolved_step_ms();
        let window_frames: u64 = frames_for_ms(sample_rate, window_ms);
        let step_frames: u64 = frames_for_ms(sample_rate, step_ms);
        if window_frames == 0 {
            return Err("Silence window is smaller than one sample frame".to_owned());
        }
        if step_frames == 0 {
            return Err("Silence step is smaller than one sample frame".to_owned());
        }
        assert(step_ms * sample_rate <= window_ms * sample_rate) by (nonlinear_arith)
            requires
                0 <= step_ms <= window_ms,
                0 <= sample_rate,
        ;
        let d = StreamingSilenceDetector {
            sample_rate,
            channels,
            policy,
            config: config.clone(),
            window_frames,
            step_frames,
            leftover_frames: 0,
            leftover_origin_us: 0,
            next_source_us: None,
            in_silence: false,
            silence_start_us: 0,
            regions: Vec::new(),
        };
        assert(d@.regions =~= Seq::<(u64, u64)>::empty());
        Ok(d)
    }

    pub fn sample_rate(&self) -> (r: u32)
        ensures
            r == self.rate(),
    {
        self.sample_rate
    }

    pub fn channels(&self) -> (r: u16)
        ensures
            r == self.width(),
    {
        self.channels
    }

    /// The channels that count.
    pub fn channel_policy(&self) -> (r: ChannelPolicy)
        ensures
            r == self.channel(),
    {
        self.policy
    }

    /// Frames of a window, and frames between the starts of two windows.
    pub fn window_and_step(&self) -> (r: (u64, u64))
        ensures
            r.0 == self.window(),
            r.1 == self.step(),
    {
        (self.window_frames, self.step_frames)
    }

    fn time_after(&self, origin: u64, frames: u64) -> (r: u64)
        ensures
            r == later(origin, frames as nat, self.rate()),
    {
        let t: u64 = frame_us(frames, self.sample_rate);
        if t > u64::MAX - origin {
            u64::MAX
        } else {
            origin + t
        }
    }

    /// Whether frames from `source_start_us` on continue what was heard. Where they
    /// do not, the frames that wait for a window are dropped.
    pub fn is_contiguous(&self, source_start_us: u64) -> (r: bool)
        requires
            self.wf(),
        ensures
            r == self@.continues(source_start_us, self.rate()),
    {
        match self.next_source_us {
            None => true,
            Some(expected) => {
                let frame: u64 = 1_000_000 / (self.sample_rate as u64);
                let slack: u64 = if frame > 1 {
                    frame
                } else {
                    1
                };
                let off: u64 = if source_start_us >= expected {
                    source_start_us - expected
                } else {
                    expected - source_start_us
                };
                off <= slack
            },
        }
    }

    fn observe(&mut self, silent: bool, window_us: u64)
        requires
            old(self).wf(),
        ensures
            final(self).wf(),
            final(self).like(old(self)),
            final(self)@ == old(self)@.observed(silent, window_us),
    {
        if silent && !self.in_silence {
            self.in_silence = true;
            self.silence_start_us = window_us;
        } else if !silent && self.in_silence {
            self.in_silence = false;
            if window_us > self.silence_start_us {
                self.regions.push((self.silence_start_us, window_us));
            }
        }
    }

    fn flush_run(&mut self)
        requires
            old(self).wf(),
        ensures
            final(self).wf(),
            final(self).like(old(self)),
            final(self)@ == old(self)@.flushed(old(self).rate()),
    {
        if !self.in_silence {
            return;
        }
        let end_us: u64 = if self.leftover_frames > 0 {
            self.time_after(self.leftover_origin_us, self.leftover_frames)
        } else {
            match self.next_source_us {
                Some(t) => t,
                None => self.silence_start_us,
            }
        };
        if end_us > self.silence_start_us {
            self.regions.push((self.silence_start_us, end_us));
        }
        self.in_silence = false;
    }

    /// What follows does not continue what was heard.
    pub fn notify_discontinuity(&mut self)
        requires
            old(self).wf(),
        ensures
            final(self).wf(),
            final(self).like(old(self)),
            final(self)@ == old(self)@.interrupted(old(self).rate()),
    {
        self.flush_run();
        self.leftover_frames = 0;
        self.leftover_origin_us = 0;
        self.next_source_us = None;
        self.in_silence = false;
    }

    /// How many windows are to be judged when `frames` frames from `source_start_us`
    /// on follow. Windows are counted from the first frame that waits.
    pub fn windows_in(&self, frames: u64, source_start_us: u64) -> (r: u64)
        requires
            self.wf(),
            self@.waiting + frames <= u64::MAX,
        ensures
            r == windows(
                self@.before(source_start_us, self.rate()).waiting + frames as nat,
                self.window(),
                self.step(),
            ),
    {
        let kept: u64 = if self.is_contiguous(source_start_us) {
            self.leftover_frames
        } else {
            0
        };
        let total: u64 = kept + frames;
        if total < self.window_frames {
            0
        } else {
            let q: u64 = (total - self.window_frames) / self.step_frames;
            assert(q <= total - self.window_frames) by (nonlinear_arith)
                requires
                    q == (total - self.window_frames) / (self.step_frames as int),
                    total >= self.window_frames,
                    self.step_frames >= 1,
            ;
            q + 1
        }
    }

    /// Takes `samples` samples from `source_start_us` on in, where `silent` says of
    /// each window whether it is.
    pub fn feed(&mut self, samples: u64, source_start_us: u64, silent: &Vec<bool>) -> (r: Result<
        (),
        String,
    >)
        requires
            old(self).wf(),
            old(self)@.waiting + samples <= u64::MAX,
            samples % (old(self).width() as u64) == 0 ==> silent@.len() == windows(
                old(self)@.before(source_start_us, old(self).rate()).waiting + (samples / (
                old(self).width() as u64)) as nat,
                old(self).window(),
                old(self).step(),
            ) || samples == 0,
        ensures
            final(self).wf(),
            final(self).like(old(self)),
            match r {
                Ok(()) => samples % (old(self).width() as u64) == 0 && final(self)@ == fed(
                    old(self)@,
                    (samples / (old(self).width() as u64)) as nat,
                    source_start_us,
                    silent@,
                    old(self).window(),
                    old(self).step(),
                    old(self).rate(),
                ),
                Err(e) => samples % (old(self).width() as u64) != 0 && *final(self) == *old(self)
                    && e@ == "PCM chunk is not an integer number of sample frames"@,
            },
    {
        if samples == 0 {
            return Ok(());
        }
        if samples % (self.channels as u64) != 0 {
            return Err("PCM chunk is not an integer number of sample frames".to_owned());
        }
        let frames: u64 = samples / (self.channels as u64);
        assert(1 <= frames <= samples) by (nonlinear_arith)
            requires
                frames == samples / (self.channels as u64),
                samples % (self.channels as u64) == 0,
                samples >= 1,
                self.channels >= 1,
        ;
        if !self.is_contiguous(source_start_us) {
            self.notify_discontinuity();
        }
        let ghost h = self@;
        let origin: u64 = if self.leftover_frames == 0 {
            source_start_us
        } else {
            self.leftover_origin_us
        };
        let total: u64 = self.leftover_frames + frames;
        let count: usize = silent.len();
        let ghost rate = self.rate();
        let ghost step = self.step();
        let ghost window = self.window();
        proof {
            lemma_windows(total as nat, window, step);
        }
        let mut k: usize = 0;
        let mut frame: u64 = 0;
        assert(0 * step == 0) by (nonlinear_arith);
        while k < count
            invariant
                k <= count == silent@.len(),
                self.wf(),
                self.like(old(self)),
                rate == self.rate(),
                step == self.step(),
                window == self.window(),
                frame == k * step,
                count == windows(total as nat, window, step),
                count * step <= total || count == 0,
                self@ == h.observed_all(silent@, k as nat, origin, step, rate),
            decreases count - k,
        {
            let at: u64 = self.time_after(origin, frame);
            self.observe(silent[k], at);
            proof {
                assert((k + 1) * step <= count * step) by (nonlinear_arith)
                    requires
                        k + 1 <= count,
                        step >= 0,
                ;
                assert((k + 1) * step == k * step + step) by (nonlinear_arith);
            }
            frame = frame + self.step_frames;
            k = k + 1;
        }
        let left: u64 = total - frame;
        if left > 0 {
            self.leftover_frames = left;
            self.leftover_origin_us = self.time_after(origin, frame);
        } else {
            self.leftover_frames = 0;
            self.leftover_origin_us = 0;
        }
        self.next_source_us = Some(self.time_after(origin, total));
        Ok(())
    }

    /// The silent stretches so far, as they were heard.
    pub fn take_raw_regions(&mut self) -> (r: Vec<(u64, u64)>)
        requires
            old(self).wf(),
        ensures
            final(self).wf(),
            final(self).like(old(self)),
            r@ == old(self)@.flushed(old(self).rate()).regions,
            final(self)@ == (Heard {
                regions: Seq::empty(),
                ..old(self)@.flushed(old(self).rate())
            }),
    {
        self.flush_run();
        let mut out: Vec<(u64, u64)> = Vec::new();
        std::mem::swap(&mut out, &mut self.regions);
        assert(self@.regions =~= Seq::<(u64, u64)>::empty());
        out
    }

    /// The cuts that the silent stretches give.
    pub fn finish(self) -> (r: Vec<(u64, u64)>)
        requires
            self.wf(),
        ensures
            exists|s: Seq<(u64, u64)>| #[trigger]
                sorting::is_sorting_of(self@.flushed(self.rate()).regions, s) && r@ == cuts_of(
                    merged(s),
                    self.settings().min_duration_ms * 1_000,
                    self.settings().padding_ms * 1_000,
                ),
    {
        let mut d = self;
        let raw: Vec<(u64, u64)> = d.take_raw_regions();
        finalize_regions(raw, &d.config)
    }
}

/// What has been heard after `frames` more frames from `start` on, where `silent`
/// says of each window whether it is.
pub open spec fn fed(
    h: Heard,
    frames: nat,
    start: u64,
    silent: Seq<bool>,
    window: nat,
    step: nat,
    rate: u32,
) -> Heard {
    if frames == 0 {
        h
    } else {
        let b = h.before(start, rate);
        let origin = b.origin(start);
        let total = b.waiting + frames;
        let used = (windows(total, window, step) * step) as nat;
        Heard {
            waiting: (total - used) as nat,
            waiting_from: if total > used {
                later(origin, used, rate)
            } else {
                0
            },
            expected: Some(later(origin, total, rate)),
            ..b.observed_all(silent, windows(total, window, step), origin, step, rate)
        }
    }
}

proof fn lemma_windows(total: nat, window: nat, step: nat)
    requires
        0 < step <= window,
    ensures
        windows(total, window, step) * step <= total,
        windows(total, window, step) <= total,
{
    if total >= window {
        let q = (total - window) / (step as int);
        assert(q * step <= total - window && q >= 0 && q <= total - window) by (nonlinear_arith)
            requires
                q == (total - window) / (step as int),
                total >= window,
                step >= 1,
        ;
        assert((q + 1) * step == q * step + step) by (nonlinear_arith);
    } else {
        assert(0 * step == 0) by (nonlinear_arith);
    }
}

proof fn lemma_later(origin: u64, frames: nat, rate: u32)
    requires
        rate > 0,
        origin + frames as int * 1_000_000 / (rate as int) <= u64::MAX,
    ensures
        later(origin, frames, rate) == origin + frames as int * 1_000_000 / (rate as int),
        0 <= frames as int * 1_000_000 / (rate as int),
{
    let q = frames as int * 1_000_000 / (rate as int);
    assert(0 <= q) by (nonlinear_arith)
        requires
            q == frames as int * 1_000_000 / (rate as int),
            frames >= 0,
            rate > 0,
    ;
    assert(q % 0x1_0000_0000_0000_0000 == q);
}

proof fn lemma_later_grows(a: int, b: int, step: int, rate: int)
    requires
        0 <= a <= b,
        0 <= step,
        0 < rate,
    ensures
        0 <= a * step <= b * step,
        0 <= a * step * 1_000_000 / rate <= b * step * 1_000_000 / rate,
{
    assert(0 <= a * step <= b * step) by (nonlinear_arith)
        requires
            0 <= a <= b,
            0 <= step,
    ;
    let p = a * step * 1_000_000;
    let q = b * step * 1_000_000;
    assert(0 <= p / rate <= q / rate) by (nonlinear_arith)
        requires
            0 <= p <= q,
            0 < rate,
    ;
}

proof fn lemma_observed(h: Heard, silent: bool, at: u64, x: int)
    requires
        forall|i: int| 0 <= i < h.regions.len() ==> (#[trigger] h.regions[i]).1 <= at,
        h.silent ==> h.since <= at,
    ensures
        forall|i: int|
            0 <= i < h.observed(silent, at).regions.len() ==> (#[trigger] h.observed(
                silent,
                at,
            ).regions[i]).1 <= at,
        h.observed(silent, at).silent == silent,
        h.observed(silent, at).silent ==> h.observed(silent, at).since <= at,
        h.regions.len() <= h.observed(silent, at).regions.len(),
        h.observed(silent, at).regions.take(h.regions.len() as int) == h.regions,
        in_regions(h.observed(silent, at).regions, x) || (h.observed(silent, at).silent
            && h.observed(silent, at).since <= x) <==> if at <= x {
            silent
        } else {
            in_regions(h.regions, x) || (h.silent && h.since <= x)
        },
{
    let o = h.observed(silent, at);
    assert(o.regions.take(h.regions.len() as int) =~= h.regions);
    if in_regions(h.regions, x) {
        let i = choose|i: int| 0 <= i < h.regions.len() && (#[trigger] h.regions[i]).0 <= x
            < h.regions[i].1;
        assert(o.regions[i] == h.regions[i]);
        assert(in_regions(o.regions, x));
        assert(h.regions[i].1 <= at);
    }
    if in_regions(o.regions, x) {
        let i = choose|i: int| 0 <= i < o.regions.len() && (#[trigger] o.regions[i]).0 <= x
            < o.regions[i].1;
        if i < h.regions.len() {
            assert(o.regions[i] == h.regions[i]);
            assert(in_regions(h.regions, x));
        }
    }
    if !silent && h.silent && h.since <= x < at {
        assert(o.regions.last() == (h.since, at));
        assert(o.regions[o.regions.len() - 1].0 <= x < o.regions[o.regions.len() - 1].1);
        assert(in_regions(o.regions, x));
    }
}

/// After windows have been judged, a time is silent exactly when the last window that starts
/// at or before it is. What was heard before the first window stays as it was, and no silent
/// stretch is lost. A silence that still lasts counts from where it began.
pub proof fn windows_decide_what_is_silent(
    h: Heard,
    silent: Seq<bool>,
    k: nat,
    origin: u64,
    step: nat,
    rate: u32,
    x: int,
)
    requires
        rate > 0,
        0 < k <= silent.len(),
        origin + (k - 1) * step * 1_000_000 / (rate as int) <= u64::MAX,
        forall|i: int| 0 <= i < h.regions.len() ==> (#[trigger] h.regions[i]).1 <= origin,
        h.silent ==> h.since <= origin,
    ensures
        ({
            let after = h.observed_all(silent, k, origin, step, rate);
            let is_silent = in_regions(after.regions, x) || (after.silent && after.since <= x);
            &&& after.waiting == h.waiting
            &&& after.waiting_from == h.waiting_from
            &&& after.expected == h.expected
            &&& after.regions.take(h.regions.len() as int) == h.regions
            &&& h.regions.len() <= after.regions.len()
            &&& after.silent == silent[k - 1]
            &&& x < origin ==> (is_silent <==> in_regions(h.regions, x) || (h.silent && h.since
                <= x))
            &&& forall|j: int|
                0 <= j < k && origin + #[trigger] (j * step) * 1_000_000 / (rate as int) <= x && (j
                    + 1 == k || x < origin + (j + 1) * step * 1_000_000 / (rate as int)) ==> (
                is_silent <==> silent[j])
        }),
        ({
            let after = h.observed_all(silent, k, origin, step, rate);
            let last = origin + (k - 1) * step * 1_000_000 / (rate as int);
            &&& forall|i: int|
                0 <= i < after.regions.len() ==> (#[trigger] after.regions[i]).1 <= last
            &&& after.silent ==> after.since <= last
        }),
    decreases k,
{
    let after = h.observed_all(silent, k, origin, step, rate);
    let before = h.observed_all(silent, (k - 1) as nat, origin, step, rate);
    let r = rate as int;
    let at = later(origin, ((k - 1) * step) as nat, rate);
    lemma_later_grows(0, k - 1, step as int, r);
    assert(0 * step == 0) by (nonlinear_arith);
    lemma_later(origin, ((k - 1) * step) as nat, rate);
    let is_silent = in_regions(after.regions, x) || (after.silent && after.since <= x);
    if k > 1 {
        lemma_later_grows(k - 2, k - 1, step as int, r);
        windows_decide_what_is_silent(h, silent, (k - 1) as nat, origin, step, rate, x);
        lemma_observed(before, silent[k - 1], at, x);
        assert(after.regions.take(h.regions.len() as int) =~= before.regions.take(
            before.regions.len() as int,
        ).take(h.regions.len() as int));
        assert(after.regions.take(before.regions.len() as int) == before.regions);
        assert forall|i: int| 0 <= i < h.regions.len() implies after.regions[i] == h.regions[i] by {
            assert(after.regions[i] == after.regions.take(before.regions.len() as int)[i]);
            assert(before.regions.take(h.regions.len() as int)[i] == h.regions[i]);
        }
        assert(after.regions.take(h.regions.len() as int) =~= h.regions);
        assert forall|j: int|
            0 <= j < k && origin + #[trigger] (j * step) * 1_000_000 / r <= x && (j + 1 == k || x
                < origin + (j + 1) * step * 1_000_000 / r) implies (is_silent <==> silent[j]) by {
            if j < k - 1 {
                lemma_later_grows(j + 1, k - 1, step as int, r);
                assert(x < at);
            }
        }
    } else {
        assert(before == h);
        lemma_observed(h, silent[0], at, x);
    }
}

proof fn lemma_flushed(h: Heard, rate: u32, x: int)
    ensures
        in_regions(h.flushed(rate).regions, x) <==> in_regions(h.regions, x) || (h.silent && h.since
            <= x < h.end(rate)),
{
    let f = h.flushed(rate);
    if in_regions(h.regions, x) {
        let i = choose|i: int| 0 <= i < h.regions.len() && (#[trigger] h.regions[i]).0 <= x
            < h.regions[i].1;
        assert(f.regions[i] == h.regions[i]);
    }
    if in_regions(f.regions, x) {
        let i = choose|i: int| 0 <= i < f.regions.len() && (#[trigger] f.regions[i]).0 <= x
            < f.regions[i].1;
        if i < h.regions.len() {
            assert(f.regions[i] == h.regions[i]);
        }
    }
    if h.silent && h.since <= x < h.end(rate) {
        assert(f.regions[f.regions.len() - 1] == (h.since, h.end(rate)));
    }
}

/// Where hearing ends or breaks off, the silence that still lasts ends with what was heard,
/// and nothing else becomes silent: neither what went before nor what was not heard. After
/// a break nothing waits, nothing is expected and nothing lasts.
pub proof fn silence_ends_with_what_was_heard(h: Heard, rate: u32, x: int)
    ensures
        in_regions(h.flushed(rate).regions, x) <==> in_regions(h.regions, x) || (h.silent && h.since
            <= x < if h.waiting > 0 {
            later(h.waiting_from, h.waiting, rate)
        } else if h.expected is Some {
            h.expected->0
        } else {
            h.since
        }),
        h.flushed(rate).regions.take(h.regions.len() as int) == h.regions,
        h.regions.len() <= h.flushed(rate).regions.len(),
        !h.flushed(rate).silent,
        h.flushed(rate).waiting == h.waiting,
        h.flushed(rate).waiting_from == h.waiting_from,
        h.flushed(rate).expected == h.expected,
        h.interrupted(rate).regions == h.flushed(rate).regions,
        !h.interrupted(rate).silent,
        h.interrupted(rate).waiting == 0,
        h.interrupted(rate).expected is None,
{
    lemma_flushed(h, rate, x);
    assert(h.flushed(rate).regions.take(h.regions.len() as int) =~= h.regions);
}

/// As many windows are judged as fit: a window fits when its last frame is there.
pub proof fn windows_fit(total: nat, window: nat, step: nat, j: nat)
    requires
        0 < step <= window,
    ensures
        j < windows(total, window, step) <==> j * step + window <= total,
{
    let n = windows(total, window, step) as int;
    let (t, w, s, i) = (total as int, window as int, step as int, j as int);
    assert(i * s >= 0) by (nonlinear_arith)
        requires
            i >= 0,
            s > 0,
    ;
    if t >= w {
        let q = (t - w) / s;
        assert(q * s <= t - w < (q + 1) * s) by (nonlinear_arith)
            requires
                q == (t - w) / s,
                s > 0,
        ;
        if i <= q {
            assert(i * s <= q * s) by (nonlinear_arith)
                requires
                    i <= q,
                    s > 0,
            ;
        } else {
            assert((q + 1) * s <= i * s) by (nonlinear_arith)
                requires
                    q + 1 <= i,
                    s > 0,
            ;
        }
    }
}

/// What is heard in one go is silent where its windows are: up to the end of the last frame,
/// give or take a microsecond, a time is silent exactly when the last window that starts at
/// or before it is, and behind the end nothing is silent.
pub proof fn silence_is_where_windows_are_silent(
    frames: nat,
    start: u64,
    silent: Seq<bool>,
    window: nat,
    step: nat,
    rate: u32,
    x: int,
)
    requires
        rate > 0,
        0 < step <= window <= frames,
        silent.len() == windows(frames, window, step),
        start + frames as int * 1_000_000 / (rate as int) <= u64::MAX,
    ensures
        ({
            let regions = fed(
                Heard::nothing(),
                frames,
                start,
                silent,
                window,
                step,
                rate,
            ).flushed(rate).regions;
            let end = start + frames as int * 1_000_000 / (rate as int);
            &&& x < start ==> !in_regions(regions, x)
            &&& x >= end ==> !in_regions(regions, x)
            &&& forall|j: int|
                0 <= j < silent.len() && start + #[trigger] (j * step) * 1_000_000 / (rate as int)
                    <= x && x < end - 1 && (j + 1 == silent.len() || x < start + (j + 1) * step
                    * 1_000_000 / (rate as int)) ==> (in_regions(regions, x) <==> silent[j])
        }),
{
    let h = Heard::nothing();
    let r = rate as int;
    let n = windows(frames, window, step);
    let used = (n * step) as nat;
    let end = start + frames as int * 1_000_000 / r;
    windows_fit(frames, window, step, 0);
    assert(0 * step == 0) by (nonlinear_arith);
    lemma_windows(frames, window, step);
    assert(h.before(start, rate) == h);
    let seen = h.observed_all(silent, n, start, step, rate);
    let after = fed(h, frames, start, silent, window, step, rate);
    lemma_later_grows(n - 1, n as int, step as int, r);
    let u = used as int * 1_000_000;
    let f = frames as int * 1_000_000;
    assert(u / r <= f / r) by (nonlinear_arith)
        requires
            u <= f,
            r > 0,
    ;
    windows_decide_what_is_silent(h, silent, n, start, step, rate, x);
    assert(after.regions == seen.regions && after.silent == seen.silent && after.since
        == seen.since);
    lemma_later(start, used, rate);
    lemma_later(start, frames, rate);
    let left = (frames - used) as int * 1_000_000;
    assert(left == f - u);
    assert(f / r - 1 <= u / r + left / r <= f / r && left / r >= 0) by (nonlinear_arith)
        requires
            left == f - u,
            left >= 0,
            r > 0,
    ;
    if frames > used {
        lemma_later(after.waiting_from, (frames - used) as nat, rate);
    }
    assert(end - 1 <= after.end(rate) <= end);
    lemma_flushed(after, rate, x);
    let last = start + (n - 1) * step * 1_000_000 / r;
    if x >= end && in_regions(after.regions, x) {
        let i = choose|i: int| 0 <= i < after.regions.len() && (#[trigger] after.regions[i]).0 <= x
            < after.regions[i].1;
        assert(after.regions[i].1 <= last);
    }
}

/// Hearing more never takes a silent stretch back.
pub proof fn silent_stretches_stay(
    h: Heard,
    frames: nat,
    start: u64,
    silent: Seq<bool>,
    window: nat,
    step: nat,
    rate: u32,
)
    ensures
        h.regions.len() <= fed(h, frames, start, silent, window, step, rate).regions.len(),
        fed(h, frames, start, silent, window, step, rate).regions.take(h.regions.len() as int)
            == h.regions,
{
    let after = fed(h, frames, start, silent, window, step, rate);
    if frames == 0 {
        assert(h.regions.take(h.regions.len() as int) =~= h.regions);
    } else {
        let b = h.before(start, rate);
        silence_ends_with_what_was_heard(h, rate, 0);
        assert(h.regions.take(h.regions.len() as int) =~= h.regions);
        lemma_regions_stay(
            b,
            silent,
            windows(b.waiting + frames, window, step),
            b.origin(start),
            step,
            rate,
        );
        assert forall|i: int| 0 <= i < h.regions.len() implies after.regions[i] == h.regions[i] by {
            assert(after.regions.take(b.regions.len() as int)[i] == b.regions[i]);
            assert(b.regions.take(h.regions.len() as int)[i] == h.regions[i]);
        }
        assert(after.regions.take(h.regions.len() as int) =~= h.regions);
    }
}

proof fn lemma_regions_stay(
    h: Heard,
    silent: Seq<bool>,
    k: nat,
    origin: u64,
    step: nat,
    rate: u32,
)
    ensures
        h.regions.len() <= h.observed_all(silent, k, origin, step, rate).regions.len(),
        h.observed_all(silent, k, origin, step, rate).regions.take(h.regions.len() as int)
            == h.regions,
    decreases k,
{
    let after = h.observed_all(silent, k, origin, step, rate);
    if k > 0 {
        lemma_regions_stay(h, silent, (k - 1) as nat, origin, step, rate);
        let before = h.observed_all(silent, (k - 1) as nat, origin, step, rate);
        assert(after.regions.take(h.regions.len() as int) =~= before.regions.take(
            h.regions.len() as int,
        ));
    } else {
        assert(after.regions.take(h.regions.len() as int) =~= h.regions);
    }
}

/// Finds the silence in one piece of a track.
pub struct SilenceDetector;

impl SilenceDetector {
    /// Suggested cuts of one piece of a track, from its first frame on, where `silent`
    /// says of each window whether it is.
    pub fn detect_interleaved(
        samples: u64,
        sample_rate: u32,
        channels: u16,
        config: &SilenceConfig,
        silent: &Vec<bool>,
    ) -> (r: Result<Vec<SilenceCutInterval>, String>)
        requires
            detector_fault(sample_rate, channels, *config) is None && samples % (channels as u64) == 0
                && samples > 0 ==> silent@.len() == windows(
                (samples / (channels as u64)) as nat,
                frames_in(sample_rate, config.window()) as nat,
                frames_in(sample_rate, config.step()) as nat,
            ),
        ensures
            match r {
                Ok(v) => {
                    &&& detector_fault(sample_rate, channels, *config) is None
                    &&& samples % (channels as u64) == 0
                    &&& exists|s: Seq<(u64, u64)>| #[trigger]
                        sorting::is_sorting_of(
                            fed(
                                Heard::nothing(),
                                (samples / (channels as u64)) as nat,
                                0,
                                silent@,
                                frames_in(sample_rate, config.window()) as nat,
                                frames_in(sample_rate, config.step()) as nat,
                                sample_rate,
                            ).flushed(sample_rate).regions,
                            s,
                        ) && are_cuts(
                            v@,
                            cuts_of(
                                merged(s),
                                config.min_duration_ms * 1_000,
                                config.padding_ms * 1_000,
                            ),
                        )
                },
                Err(e) => if detector_fault(sample_rate, channels, *config) is Some {
                    detector_fault(sample_rate, channels, *config) == Some(e@)
                } else {
                    samples % (channels as u64) != 0 && e@
                        == "PCM chunk is not an integer number of sample frames"@
                },
            },
    {
        let mut d: StreamingSilenceDetector = match StreamingSilenceDetector::new(
            sample_rate,
            channels,
            config,
        ) {
            Ok(d) => d,
            Err(e) => {
                return Err(e);
            },
        };
        match d.feed(samples, 0, silent) {
            Ok(()) => {},
            Err(e) => {
                return Err(e);
            },
        }
        let ranges: Vec<(u64, u64)> = d.finish();
        Ok(intervals_from_source_ranges(&ranges))
    }
}

/// Whether `v` are the suggested cuts of these stretches of the source, where
/// nothing is edited.
pub open spec fn are_cuts(v: Seq<SilenceCutInterval>, ranges: Seq<(u64, u64)>) -> bool {
    &&& v.len() == ranges.len()
    &&& forall|i: int|
        0 <= i < v.len() ==> is_cut(#[trigger] v[i], (i + 1) as nat, ranges[i], ranges[i])
}

/// Frames continue what was heard where they start when it ended, give or take one frame, or
/// one microsecond where a frame is shorter; and where nothing was heard before.
pub proof fn frames_continue_within_a_frame(h: Heard, start: u64, rate: u32)
    requires
        rate > 0,
    ensures
        h.expected is None ==> h.continues(start, rate),
        h.expected matches Some(e) ==> (h.continues(start, rate) <==> {
            let apart = if start >= e {
                start - e
            } else {
                e - start
            };
            apart <= 1 || apart * rate <= 1_000_000
        }),
{
    if let Some(e) = h.expected {
        let apart = if start >= e {
            start - e
        } else {
            e - start
        };
        let r = rate as int;
        assert(apart <= 1_000_000int / r <==> apart * r <= 1_000_000) by (nonlinear_arith)
            requires
                r > 0,
                apart >= 0,
        ;
    }
}

/// Frames that continue what was heard are heard with those that wait: windows are counted
/// from the first of them, what is in no window that follows waits on, and the next frames are
/// expected when all of them have played. Frames that do not continue start anew.
pub proof fn waiting_frames_are_heard_with_the_next(
    h: Heard,
    frames: nat,
    start: u64,
    silent: Seq<bool>,
    window: nat,
    step: nat,
    rate: u32,
)
    requires
        0 < frames,
        0 < step <= window,
        rate > 0,
    ensures
        ({
            let after = fed(h, frames, start, silent, window, step, rate);
            let kept = if h.continues(start, rate) {
                h.waiting
            } else {
                0
            };
            let from = if kept > 0 {
                h.waiting_from
            } else {
                start
            };
            let total = kept + frames;
            &&& after.waiting == total - windows(total, window, step) * step
            &&& from + total as int * 1_000_000 / (rate as int) <= u64::MAX ==> after.expected
                == Some((from + total as int * 1_000_000 / (rate as int)) as u64)
            &&& total < window ==> after.waiting == total && after.waiting_from == from
            &&& !h.continues(start, rate) ==> after == fed(
                h.interrupted(rate),
                frames,
                start,
                silent,
                window,
                step,
                rate,
            )
        }),
        fed(h, 0, start, silent, window, step, rate) == h,
{
    let kept = if h.continues(start, rate) {
        h.waiting
    } else {
        0
    };
    let from = if kept > 0 {
        h.waiting_from
    } else {
        start
    };
    let total = kept + frames;
    lemma_windows(total, window, step);
    if from + total as int * 1_000_000 / (rate as int) <= u64::MAX {
        lemma_later(from, total, rate);
    }
    if total < window {
        assert(0 * step == 0) by (nonlinear_arith);
        lemma_no_frames(from, rate);
    }
}

proof fn lemma_no_frames(origin: u64, rate: u32)
    requires
        rate > 0,
    ensures
        later(origin, 0, rate) == origin,
{
    let r = rate as int;
    assert(0int / r == 0) by (nonlinear_arith)
        requires
            r > 0,
    ;
    lemma_later(origin, 0, rate);
}

/// As many frames are in some milliseconds as the rate says, of which none is cut short.
pub proof fn whole_frames_are_in_milliseconds(sample_rate: u32, ms: u32)
    ensures
        frames_in(sample_rate, ms) * 1_000 <= ms * sample_rate < (frames_in(sample_rate, ms) + 1)
            * 1_000,
{
}

/// Windows last as long as they are asked to, and start as far apart, or else half a window.
pub proof fn windows_are_as_asked_for(c: SilenceConfig)
    requires
        c.fault() is None,
    ensures
        c.window_ms matches Some(w) ==> c.window() == w,
        c.step_ms matches Some(s) ==> c.step() == s,
        c.step_ms is None && c.window() >= 2 ==> c.step() == c.window() / 2,
        0 < c.step() <= c.window(),
        c.window_ms is None ==> c.window() == DEFAULT_WINDOW_MS,
{
}

proof fn lemma_nothing_to_trim(s: Seq<char>)
    requires
        s.len() > 0,
        !text::white_space(s[0]),
        !text::white_space(s[s.len() - 1]),
    ensures
        text::trimmed(s) == s,
{
    let p = |c: char| text::white_space(c);
    assert(text::strip_start(s, p) == s);
    assert(s.last() == s[s.len() - 1]);
    assert(text::strip_end(s, p) == s);
}

proof fn lemma_channel_name(i: u16)
    ensures
        ({
            let name = "channel:"@ + text::decimal(i as nat);
            &&& text::trimmed(name) == name
            &&& name.skip("channel:"@.len() as int) == text::decimal(i as nat)
            &&& text::has_prefix(name, "channel:"@)
            &&& name != "max_energy"@
            &&& name != "maxEnergy"@
        }),
{
    reveal_strlit("channel:");
    let d = text::decimal(i as nat);
    let name = "channel:"@ + d;
    text::written_numbers_are_read_back(i as nat);
    assert(name[0] == 'c');
    assert(name[name.len() - 1] == d[d.len() - 1]);
    assert('0' <= d[d.len() - 1] <= '9');
    assert(!text::white_space(name[0]) && !text::white_space(name[name.len() - 1]));
    lemma_nothing_to_trim(name);
    assert(name.skip(8) =~= d);
    assert(name.take(8) =~= "channel:"@);
    assert("max_energy"@[0] == 'm') by {
        reveal_strlit("max_energy");
    }
    assert("maxEnergy"@[0] == 'm') by {
        reveal_strlit("maxEnergy");
    }
}

/// The text of a choice of channels stands for that choice.
pub proof fn channel_policies_are_read_back(policy: ChannelPolicy)
    ensures
        policy_of(Some(policy_name(policy))) == Ok::<ChannelPolicy, Seq<char>>(policy),
        policy_of(None) == Ok::<ChannelPolicy, Seq<char>>(ChannelPolicy::MaxEnergy),
{
    match policy {
        ChannelPolicy::MaxEnergy => {
            assert("max_energy"@.len() == 10 && "max_energy"@[0] == 'm' && "max_energy"@[9] == 'y')
                by {
                reveal_strlit("max_energy");
            }
            lemma_nothing_to_trim("max_energy"@);
        },
        ChannelPolicy::Channel(i) => {
            let d = text::decimal(i as nat);
            text::written_numbers_are_read_back(i as nat);
            lemma_channel_name(i);
            assert('0' <= d[0] <= '9');
            assert(d[0] != '+');
        },
    }
}

/// Where nothing is edited, each cut is suggested as the stretch of the source that it is.
pub proof fn suggestions_are_the_cuts(
    v: Seq<SilenceCutInterval>,
    ranges: Seq<(u64, u64)>,
    i: int,
)
    requires
        are_cuts(v, ranges),
        0 <= i < v.len(),
        ranges[i].0 <= ranges[i].1,
    ensures
        v.len() == ranges.len(),
        v[i].start_us == ranges[i].0,
        v[i].end_us == ranges[i].1,
        v[i].source_start_us == ranges[i].0,
        v[i].source_end_us == ranges[i].1,
        v[i].duration_ms * 1_000 <= ranges[i].1 - ranges[i].0 < (v[i].duration_ms + 1) * 1_000,
        v[i].selected,
        v[i].id@ == "silence-"@ + text::decimal((i + 1) as nat),
{
    assert(is_cut(v[i], (i + 1) as nat, ranges[i], ranges[i]));
}

} // verus!
