//! Finding the silence of a recorded track. What cannot be read is a gap, and never
//! counts as silence.
use crate::dsp::silence;
use crate::dsp::silence::{
    channel_policy_name,
    cut_interval,
    finalize_regions,
    ChannelPolicy,
    SilenceConfig,
    SilenceCutInterval,
    SilenceDetectionResult,
    StreamingSilenceDetector,
};
use crate::paths;
use crate::paths::{safe_path, PathProbe};
use crate::project::manifest::TrackType;
use crate::project::pcm::WavInfo;
use crate::project::reader::SegmentSummary;
use crate::project::revision::{copy_intervals, MAX_CUTS_PER_REVISION};
use crate::project::waveform;
use crate::project::waveform::push_diagnostic;
use crate::sorting;
use crate::timeline;
use crate::timeline::{RetainedInterval, TimelineMapper};
use vstd::prelude::*;
use vstd::string::*;

verus! {

/// Why a segment is a gap.
#[derive(Debug)]
pub enum SoundGap {
    UnsafePath(String),
    Missing,
    SizeMismatch,
    Unsupported(String),
    Unreadable(String),
}

impl SoundGap {
    /// What is told of a gap at this path.
    pub open spec fn told(self, path: Seq<char>) -> Seq<char> {
        match self {
            SoundGap::UnsafePath(e) => "Unsafe audio path treated as a gap, not silence: "@ + path
                + " ("@ + e@ + ")"@,
            SoundGap::Missing => "Missing file treated as a gap, not silence: "@ + path,
            SoundGap::SizeMismatch => "Size-mismatched audio treated as a gap, not silence: "@
                + path,
            SoundGap::Unsupported(e) => "Unsupported encoding treated as a gap, not silence: "@
                + path + " ("@ + e@ + ")"@,
            SoundGap::Unreadable(e) => "Unreadable audio treated as a gap, not silence: "@ + path
                + " ("@ + e@ + ")"@,
        }
    }

    /// What is told of a gap at this path.
    pub fn message(&self, path: &str) -> (t: String)
        ensures
            t@ == self.told(path@),
    {
        match self {
            SoundGap::UnsafePath(e) => with_reason(
                "Unsafe audio path treated as a gap, not silence: ",
                path,
                e.as_str(),
            ),
            SoundGap::Missing => {
                let mut t: String = "Missing file treated as a gap, not silence: ".to_owned();
                t.append(path);
                t
            },
            SoundGap::SizeMismatch => {
                let mut t: String =
                    "Size-mismatched audio treated as a gap, not silence: ".to_owned();
                t.append(path);
                t
            },
            SoundGap::Unsupported(e) => with_reason(
                "Unsupported encoding treated as a gap, not silence: ",
                path,
                e.as_str(),
            ),
            SoundGap::Unreadable(e) => with_reason(
                "Unreadable audio treated as a gap, not silence: ",
                path,
                e.as_str(),
            ),
        }
    }
}

/// Whether `r` is why the sound of a segment cannot be read, before its file is opened, and
/// `None` when it can. Its file is of `file_len` bytes, where it is one.
pub open spec fn is_sound_gap(
    r: Option<SoundGap>,
    segment: SegmentSummary,
    probes: Seq<PathProbe>,
    file_len: Option<u64>,
) -> bool {
    match paths::path_fault(segment.relative_path@, probes) {
        Some(why) => r matches Some(SoundGap::UnsafePath(e)) && e@ == why,
        None => if !segment.available || file_len is None {
            r == Some(SoundGap::Missing)
        } else if file_len != Some(segment.size_bytes) {
            r == Some(SoundGap::SizeMismatch)
        } else {
            r is None
        },
    }
}

/// Tells why the sound of a segment cannot be read, before its file is opened.
pub fn sound_gap(segment: &SegmentSummary, probes: &Vec<PathProbe>, file_len: Option<u64>) -> (r:
    Option<SoundGap>)
    requires
        paths::parts(segment.relative_path@).len() <= probes@.len(),
    ensures
        is_sound_gap(r, *segment, probes@, file_len),
{
    match safe_path(segment.relative_path.as_str(), probes) {
        Ok(()) => {},
        Err(e) => {
            return Some(SoundGap::UnsafePath(e));
        },
    }
    if !segment.available {
        return Some(SoundGap::Missing);
    }
    match file_len {
        None => Some(SoundGap::Missing),
        Some(n) => if n != segment.size_bytes {
            Some(SoundGap::SizeMismatch)
        } else {
            None
        },
    }
}

fn with_reason(what: &str, path: &str, reason: &str) -> (t: String)
    ensures
        t@ == what@ + path@ + " ("@ + reason@ + ")"@,
{
    let mut t: String = what.to_owned();
    t.append(path);
    t.append(" (");
    t.append(reason);
    t.append(")");
    t
}

/// The frames of a chunk that lie in a segment: of at most `frames`, the most that
/// end by `end_us`.
pub open spec fn frames_inside(
    rate: u32,
    start_us: u64,
    end_us: u64,
    frame_index: nat,
    frames: nat,
) -> nat
    decreases frames,
{
    if frames == 0 || silence::later(start_us, frame_index + frames, rate) <= end_us {
        frames
    } else {
        frames_inside(rate, start_us, end_us, frame_index, (frames - 1) as nat)
    }
}

/// The part of a chunk that is to be heard: its source time, and how many of its
/// frames; `None` when it lies past the end of the segment.
pub fn plan_chunk(
    info: &WavInfo,
    start_us: u64,
    end_us: u64,
    frame_index: u64,
    frames: u64,
) -> (r: Option<(u64, u64)>)
    requires
        info.wf(),
        frame_index + frames <= u64::MAX,
    ensures
        ({
            let at = silence::later(start_us, frame_index as nat, info.sample_rate);
            let n = frames_inside(
                info.sample_rate,
                start_us,
                end_us,
                frame_index as nat,
                frames as nat,
            );
            match r {
                Some((t, k)) => at < end_us && n > 0 && t == at && k == n,
                None => at >= end_us || n == 0,
            }
        }),
{
    let at: u64 = saturating_sum(start_us, info.frame_us(frame_index));
    if at >= end_us {
        return None;
    }
    let mut n: u64 = frames;
    while n > 0
        invariant_except_break
            n <= frames,
            info.wf(),
            frame_index + frames <= u64::MAX,
            frames_inside(
                info.sample_rate,
                start_us,
                end_us,
                frame_index as nat,
                frames as nat,
            ) == frames_inside(
                info.sample_rate,
                start_us,
                end_us,
                frame_index as nat,
                n as nat,
            ),
        ensures
            n == frames_inside(
                info.sample_rate,
                start_us,
                end_us,
                frame_index as nat,
                frames as nat,
            ),
        decreases n,
    {
        let end: u64 = saturating_sum(start_us, info.frame_us(frame_index + n));
        if end <= end_us {
            break;
        }
        n = n - 1;
    }
    if n == 0 {
        None
    } else {
        Some((at, n))
    }
}

fn saturating_sum(a: u64, b: u64) -> (r: u64)
    ensures
        r == silence::sat_add(a as int, b as int),
{
    if b > u64::MAX - a {
        u64::MAX
    } else {
        a + b
    }
}

/// What has been heard of a track while its segments are read.
#[derive(Debug)]
pub struct TrackSilence {
    pub config: SilenceConfig,
    pub policy: ChannelPolicy,
    pub detector: Option<StreamingSilenceDetector>,
    pub raw_regions: Vec<(u64, u64)>,
    pub diagnostics: Vec<String>,
    pub sample_rate: u32,
    pub channels: u16,
}

/// Why the silence of a track cannot be looked for; `None` when it can.
pub open spec fn start_fault(config: SilenceConfig, t: TrackType) -> Option<Seq<char>> {
    if config.fault() is Some {
        config.fault()
    } else if !waveform::is_audio(t) {
        Some("Track is not audio"@)
    } else {
        None
    }
}

/// The silent stretches so far, with those of the segment that is being heard.
pub open spec fn gathered(
    raw: Seq<(u64, u64)>,
    detector: Option<StreamingSilenceDetector>,
) -> Seq<(u64, u64)> {
    match detector {
        Some(d) => raw + d@.flushed(d.rate()).regions,
        None => raw,
    }
}

impl TrackSilence {
    /// The detector, if there is one, listens as the configuration says, and there are not
    /// too many notes.
    pub open spec fn wf(&self) -> bool {
        &&& self.config.fault() is None
        &&& silence::policy_of(silence::chars_of(self.config.channel_policy)) == Ok::<
            ChannelPolicy,
            Seq<char>,
        >(self.policy)
        &&& self.detector matches Some(d) ==> d.wf() && d.rate() == self.sample_rate && d.width()
            == self.channels
        &&& self.diagnostics@.len() <= waveform::MAX_NOTES
    }

    /// Nothing heard yet.
    pub fn start(config: &SilenceConfig, track_type: TrackType) -> (r: Result<Self, String>)
        ensures
            match r {
                Ok(s) => {
                    &&& start_fault(*config, track_type) is None
                    &&& s.wf()
                    &&& s.config == *config
                    &&& s.detector is None
                    &&& s.raw_regions@ == Seq::<(u64, u64)>::empty()
                    &&& s.diagnostics@.len() == 0
                    &&& s.sample_rate == 0
                    &&& s.channels == 0
                },
                Err(e) => start_fault(*config, track_type) == Some(e@),
            },
    {
        match config.validate() {
            Ok(()) => {},
            Err(e) => {
                return Err(e);
            },
        }
        if !(track_type == TrackType::MicAudio || track_type == TrackType::SystemAudio) {
            return Err("Track is not audio".to_owned());
        }
        let policy: ChannelPolicy = match config.resolved_policy() {
            Ok(p) => p,
            Err(e) => {
                return Err(e);
            },
        };
        Ok(
            TrackSilence {
                config: config.clone(),
                policy,
                detector: None,
                raw_regions: Vec::new(),
                diagnostics: Vec::new(),
                sample_rate: 0,
                channels: 0,
            },
        )
    }

    /// What is found on a track without segments: nothing, whatever is retained of it.
    pub fn empty(self, track_id: String) -> (r: SilenceDetectionResult)
        requires
            self.wf(),
        ensures
            r.track_id == track_id,
            r.sample_rate == self.sample_rate,
            r.channels == self.channels,
            r.channel_policy@ == silence::policy_name(self.policy),
            r.suggestions@.len() == 0,
            paths::texts(r.diagnostics@) == waveform::with_note(
                paths::texts(self.diagnostics@),
                "Audio track is empty; no PCM segments to analyze"@,
            ),
    {
        let mut diagnostics: Vec<String> = self.diagnostics;
        push_diagnostic(
            &mut diagnostics,
            "Audio track is empty; no PCM segments to analyze".to_owned(),
        );
        SilenceDetectionResult {
            track_id,
            sample_rate: self.sample_rate,
            channels: self.channels,
            channel_policy: channel_policy_name(self.policy),
            suggestions: Vec::new(),
            diagnostics,
        }
    }

    fn take_regions(&mut self, interrupt: bool)
        requires
            old(self).wf(),
        ensures
            final(self).wf(),
            final(self).config == old(self).config,
            final(self).diagnostics == old(self).diagnostics,
            final(self).sample_rate == old(self).sample_rate,
            final(self).channels == old(self).channels,
            final(self).raw_regions@ == gathered(old(self).raw_regions@, old(self).detector),
            match old(self).detector {
                None => final(self).detector is None,
                Some(d) => final(self).detector matches Some(after) && after.like(&d) && after@ == (
                silence::Heard {
                    regions: Seq::empty(),
                    ..if interrupt {
                        d@.interrupted(d.rate())
                    } else {
                        d@.flushed(d.rate())
                    }
                }),
            },
    {
        let mut taken: Option<StreamingSilenceDetector> = None;
        std::mem::swap(&mut taken, &mut self.detector);
        match taken {
            None => {},
            Some(d) => {
                let mut active: StreamingSilenceDetector = d;
                if interrupt {
                    active.notify_discontinuity();
                }
                let more: Vec<(u64, u64)> = active.take_raw_regions();
                push_regions(&mut self.raw_regions, &more);
                self.detector = Some(active);
            },
        }
    }

    /// A segment at this path is a gap.
    pub fn gap(&mut self, gap: &SoundGap, path: &str)
        requires
            old(self).wf(),
        ensures
            final(self).wf(),
            final(self).config == old(self).config,
            final(self).sample_rate == old(self).sample_rate,
            final(self).channels == old(self).channels,
            final(self).raw_regions@ == gathered(old(self).raw_regions@, old(self).detector),
            match old(self).detector {
                None => final(self).detector is None,
                Some(d) => final(self).detector matches Some(after) && after.like(&d) && after@ == (
                silence::Heard { regions: Seq::empty(), ..d@.interrupted(d.rate()) }),
            },
            paths::texts(final(self).diagnostics@) == waveform::with_note(
                paths::texts(old(self).diagnostics@),
                gap.told(path@),
            ),
    {
        self.take_regions(true);
        push_diagnostic(&mut self.diagnostics, gap.message(path));
    }

    /// A segment with this sound begins. A detector of another rate or number of
    /// channels is replaced. Returns whether the segment is to be heard.
    pub fn begin_segment(&mut self, info: &WavInfo) -> (listen: bool)
        requires
            old(self).wf(),
            info.wf(),
        ensures
            final(self).wf(),
            final(self).config == old(self).config,
            ({
                let keeps = old(self).detector matches Some(d) && d.rate() == info.sample_rate
                    && d.width() == info.channels;
                let fault = silence::detector_fault(
                    info.sample_rate,
                    info.channels,
                    old(self).config,
                );
                &&& listen == (keeps || fault is None)
                &&& keeps ==> final(self).detector == old(self).detector
                    && final(self).raw_regions@ == old(self).raw_regions@
                    && final(self).diagnostics@ == old(self).diagnostics@
                &&& !keeps ==> final(self).raw_regions@ == gathered(
                    old(self).raw_regions@,
                    old(self).detector,
                )
                &&& !keeps && fault is None ==> final(self).detector is Some
                    && final(self).detector.unwrap()@ == silence::Heard::nothing()
                    && final(self).detector.unwrap().settings() == old(self).config
                    && final(self).sample_rate == info.sample_rate && final(self).channels
                    == info.channels && final(self).diagnostics@ == old(self).diagnostics@
                &&& !keeps && fault is Some ==> final(self).detector is None && paths::texts(
                    final(self).diagnostics@,
                ) == waveform::with_note(paths::texts(old(self).diagnostics@), fault.unwrap())
                    && final(self).sample_rate == old(self).sample_rate && final(self).channels
                    == old(self).channels
            }),
    {
        let keeps: bool = match &self.detector {
            Some(d) => d.sample_rate() == info.sample_rate && d.channels() == info.channels,
            None => false,
        };
        if keeps {
            return true;
        }
        self.take_regions(false);
        self.detector = None;
        match StreamingSilenceDetector::new(info.sample_rate, info.channels, &self.config) {
            Ok(d) => {
                self.sample_rate = info.sample_rate;
                self.channels = info.channels;
                self.detector = Some(d);
                true
            },
            Err(e) => {
                push_diagnostic(&mut self.diagnostics, e);
                false
            },
        }
    }
}

fn push_regions(out: &mut Vec<(u64, u64)>, more: &Vec<(u64, u64)>)
    ensures
        final(out)@ == old(out)@ + more@,
{
    let mut i: usize = 0;
    assert(out@ + more@.take(0) =~= out@);
    while i < more.len()
        invariant
            i <= more@.len(),
            out@ == old(out)@ + more@.take(i as int),
        decreases more@.len() - i,
    {
        out.push(more[i]);
        i = i + 1;
        assert(more@.take(i as int) =~= more@.take(i - 1).push(more@[i - 1]));
        assert(out@ =~= old(out)@ + more@.take(i as int));
    }
    assert(more@.take(more@.len() as int) =~= more@);
}

/// The cuts that stretches of the source give on the edited timeline, in order: the
/// edited range, and the stretch that it plays a part of.
pub open spec fn offers(retained: Seq<RetainedInterval>, ranges: Seq<(u64, u64)>, n: nat) -> Seq<
    ((int, int), (u64, u64)),
>
    decreases n,
{
    if n == 0 {
        Seq::empty()
    } else {
        let r = ranges[n - 1];
        offers(retained, ranges, (n - 1) as nat) + timeline::edited_ranges(
            retained,
            0,
            r.0 as int,
            r.1 as int,
        ).map_values(|e: (int, int)| (e, r))
    }
}

/// Whether `c` is the suggested cut number `n` of an offer.
pub open spec fn offered(c: SilenceCutInterval, n: nat, o: ((int, int), (u64, u64))) -> bool {
    let (edited, source) = o;
    &&& edited.0 <= u64::MAX
    &&& edited.1 <= u64::MAX
    &&& silence::is_cut(c, n, (edited.0 as u64, edited.1 as u64), source)
}

/// Whether `v` are the suggested cuts of the first offers, as many as one revision
/// can take.
pub open spec fn suggests(
    v: Seq<SilenceCutInterval>,
    o: Seq<((int, int), (u64, u64))>,
) -> bool {
    &&& v.len() == timeline::min(o.len() as int, MAX_CUTS_PER_REVISION as int)
    &&& forall|i: int|
        0 <= i < v.len() ==> offered(#[trigger] v[i], (i + 1) as nat, o[i])
}

/// Suggested cuts, and whether there were more than one revision can take.
pub fn suggest_cuts(mapper: &TimelineMapper, ranges: &Vec<(u64, u64)>) -> (r: (
    Vec<SilenceCutInterval>,
    bool,
))
    requires
        mapper.wf(),
    ensures
        suggests(r.0@, offers(mapper@, ranges@, ranges@.len())),
        r.1 == (offers(mapper@, ranges@, ranges@.len()).len() > MAX_CUTS_PER_REVISION),
{
    let mut out: Vec<SilenceCutInterval> = Vec::new();
    let mut bounded: bool = false;
    let mut i: usize = 0;
    let ghost retained = mapper@;
    while i < ranges.len()
        invariant
            i <= ranges@.len(),
            retained == mapper@,
            mapper.wf(),
            suggests(out@, offers(retained, ranges@, i as nat)),
            bounded == (offers(retained, ranges@, i as nat).len() > MAX_CUTS_PER_REVISION),
        decreases ranges@.len() - i,
    {
        let source: (u64, u64) = ranges[i];
        let edited: Vec<(u64, u64)> = mapper.source_range_to_edited(source.0, source.1);
        let ghost before = offers(retained, ranges@, i as nat);
        let ghost here = timeline::edited_ranges(
            retained,
            0,
            source.0 as int,
            source.1 as int,
        ).map_values(|e: (int, int)| (e, source));
        let ghost all = before + here;
        assert(offers(retained, ranges@, (i + 1) as nat) == all);
        assert(edited@.len() == timeline::pairs(edited@).len());
        assert(here.len() == edited@.len());
        let mut k: usize = 0;
        assert(before + here.take(0) =~= before);
        while k < edited.len()
            invariant
                k <= edited@.len() == here.len(),
                all == before + here,
                timeline::pairs(edited@) == timeline::edited_ranges(
                    retained,
                    0,
                    source.0 as int,
                    source.1 as int,
                ),
                here == timeline::pairs(edited@).map_values(|e: (int, int)| (e, source)),
                suggests(out@, before + here.take(k as int)),
                bounded == (before.len() + k > MAX_CUTS_PER_REVISION),
            decreases edited@.len() - k,
        {
            let ghost upto = before + here.take(k as int);
            let ghost next = before + here.take(k + 1);
            assert(next =~= upto.push(here[k as int]));
            assert(here[k as int] == ((edited@[k as int].0 as int, edited@[k as int].1 as int), source));
            let ghost shown = out@;
            if out.len() >= MAX_CUTS_PER_REVISION {
                bounded = true;
            } else {
                out.push(cut_interval(out.len() + 1, edited[k], source));
            }
            assert forall|j: int| 0 <= j < out@.len() implies offered(
                #[trigger] out@[j],
                (j + 1) as nat,
                next[j],
            ) by {
                if j < shown.len() {
                    assert(out@[j] == shown[j]);
                    assert(next[j] == upto[j]);
                }
            }
            k = k + 1;
        }
        assert(here.take(here.len() as int) =~= here);
        i = i + 1;
    }
    (out, bounded)
}

impl TrackSilence {
    /// What was found on the track, as cuts of its edited timeline.
    pub fn finish(self, track_id: String, retained: &Vec<RetainedInterval>) -> (r: Result<
        SilenceDetectionResult,
        String,
    >)
        requires
            self.wf(),
        ensures
            match r {
                Ok(found) => {
                    &&& timeline::retained_fault(retained@) is None
                    &&& found.track_id == track_id
                    &&& found.sample_rate == self.sample_rate
                    &&& found.channels == self.channels
                    &&& found.channel_policy@ == silence::policy_name(self.policy)
                    &&& found.diagnostics@.len() <= waveform::MAX_NOTES
                    &&& exists|s: Seq<(u64, u64)>| #[trigger]
                        sorting::is_sorting_of(gathered(self.raw_regions@, self.detector), s) && ({
                            let cuts = silence::cuts_of(
                                silence::merged(s),
                                self.config.min_duration_ms * 1_000,
                                self.config.padding_ms * 1_000,
                            );
                            let o = offers(retained@, cuts, cuts.len());
                            &&& suggests(found.suggestions@, o)
                            &&& paths::texts(found.diagnostics@) == if o.len()
                                > MAX_CUTS_PER_REVISION {
                                waveform::with_note(
                                    paths::texts(self.diagnostics@),
                                    "Silence suggestion count was bounded to one revision of ripple cuts"@,
                                )
                            } else {
                                paths::texts(self.diagnostics@)
                            }
                        })
                },
                Err(e) => timeline::retained_fault(retained@) == Some(e@),
            },
    {
        let ghost whole = self;
        let mut s: TrackSilence = self;
        s.take_regions(false);
        let ghost raw = s.raw_regions@;
        let mut regions: Vec<(u64, u64)> = Vec::new();
        std::mem::swap(&mut regions, &mut s.raw_regions);
        let source_ranges: Vec<(u64, u64)> = finalize_regions(regions, &s.config);
        let mapper: TimelineMapper = match TimelineMapper::try_new(copy_intervals(retained)) {
            Ok(m) => m,
            Err(e) => {
                return Err(e);
            },
        };
        let (suggestions, bounded): (Vec<SilenceCutInterval>, bool) = suggest_cuts(
            &mapper,
            &source_ranges,
        );
        let mut diagnostics: Vec<String> = s.diagnostics;
        if bounded {
            push_diagnostic(
                &mut diagnostics,
                "Silence suggestion count was bounded to one revision of ripple cuts".to_owned(),
            );
        }
        Ok(
            SilenceDetectionResult {
                track_id,
                sample_rate: s.sample_rate,
                channels: s.channels,
                channel_policy: channel_policy_name(s.policy),
                suggestions,
                diagnostics,
            },
        )
    }
}

proof fn lemma_frames_inside(rate: u32, start_us: u64, end_us: u64, frame_index: nat, frames: nat)
    ensures
        ({
            let n = frames_inside(rate, start_us, end_us, frame_index, frames);
            &&& n <= frames
            &&& n == 0 || silence::later(start_us, frame_index + n, rate) <= end_us
            &&& n == frames || silence::later(start_us, frame_index + n + 1, rate) > end_us
        }),
    decreases frames,
{
    if frames > 0 && silence::later(start_us, frame_index + frames, rate) > end_us {
        lemma_frames_inside(rate, start_us, end_us, frame_index, (frames - 1) as nat);
    }
}

/// As many frames of a chunk are heard as end by the end of their segment: the last of them
/// does, and the next one would not.
pub proof fn frames_end_with_their_segment(
    rate: u32,
    start_us: u64,
    end_us: u64,
    frame_index: nat,
    frames: nat,
)
    requires
        rate > 0,
        start_us + (frame_index + frames) as int * 1_000_000 / (rate as int) <= u64::MAX,
    ensures
        ({
            let n = frames_inside(rate, start_us, end_us, frame_index, frames);
            &&& n <= frames
            &&& n > 0 ==> start_us + (frame_index + n) as int * 1_000_000 / (rate as int) <= end_us
            &&& n < frames ==> start_us + (frame_index + n + 1) as int * 1_000_000 / (rate as int)
                > end_us
        }),
{
    lemma_frames_inside(rate, start_us, end_us, frame_index, frames);
    let n = frames_inside(rate, start_us, end_us, frame_index, frames);
    lemma_time_of(start_us, frame_index + n, frame_index + frames, rate);
    if n < frames {
        lemma_time_of(start_us, frame_index + n + 1, frame_index + frames, rate);
    }
}

proof fn lemma_time_of(start_us: u64, frames: nat, limit: nat, rate: u32)
    requires
        rate > 0,
        frames <= limit,
        start_us + limit as int * 1_000_000 / (rate as int) <= u64::MAX,
    ensures
        silence::later(start_us, frames, rate) == start_us + frames as int * 1_000_000 / (
        rate as int),
{
    let q = frames as int * 1_000_000 / (rate as int);
    assert(0 <= q <= limit as int * 1_000_000 / (rate as int)) by (nonlinear_arith)
        requires
            q == frames as int * 1_000_000 / (rate as int),
            frames <= limit,
            rate > 0,
    ;
    assert(q % 0x1_0000_0000_0000_0000 == q);
}

/// A segment is listened to exactly where its path is safe, it can be used, and its file has
/// the size that was recorded.
pub proof fn only_whole_segments_are_heard(
    r: Option<SoundGap>,
    segment: SegmentSummary,
    probes: Seq<PathProbe>,
    file_len: Option<u64>,
)
    requires
        is_sound_gap(r, segment, probes, file_len),
    ensures
        r is None <==> paths::path_fault(segment.relative_path@, probes) is None
            && segment.available && file_len == Some(segment.size_bytes),
        paths::path_fault(segment.relative_path@, probes) is Some ==> r matches Some(
            SoundGap::UnsafePath(_),
        ),
{
}

proof fn lemma_offers(
    retained: Seq<RetainedInterval>,
    ranges: Seq<(u64, u64)>,
    n: nat,
    t: int,
    source: (u64, u64),
)
    requires
        timeline::ordered(retained),
        n <= ranges.len(),
        0 <= t,
    ensures
        (exists|i: int|
            0 <= i < offers(retained, ranges, n).len() && (#[trigger] offers(
                retained,
                ranges,
                n,
            )[i]).1 == source && offers(retained, ranges, n)[i].0.0 <= t < offers(
                retained,
                ranges,
                n,
            )[i].0.1) <==> (exists|k: int| 0 <= k < n && #[trigger] ranges[k] == source) && (
        timeline::to_source(retained, t) matches Some(x) && source.0 <= x < source.1),
    decreases n,
{
    if n > 0 {
        let r = ranges[n - 1];
        let before = offers(retained, ranges, (n - 1) as nat);
        let edited = timeline::edited_ranges(retained, 0, r.0 as int, r.1 as int);
        let last = edited.map_values(|e: (int, int)| (e, r));
        let all = offers(retained, ranges, n);
        assert(all == before + last);
        lemma_offers(retained, ranges, (n - 1) as nat, t, source);
        timeline::edited_ranges_are_exact(retained, r.0 as int, r.1 as int, t);
        if exists|i: int|
            0 <= i < all.len() && (#[trigger] all[i]).1 == source && all[i].0.0 <= t
                < all[i].0.1 {
            let i = choose|i: int|
                0 <= i < all.len() && (#[trigger] all[i]).1 == source && all[i].0.0 <= t
                    < all[i].0.1;
            if i < before.len() {
                assert(before[i] == all[i]);
            } else {
                let j = i - before.len();
                assert(last[j] == all[i]);
                assert(edited[j].0 <= t < edited[j].1);
                assert(timeline::in_ranges(edited, t));
                assert(ranges[n - 1] == source);
            }
        }
        if exists|i: int|
            0 <= i < before.len() && (#[trigger] before[i]).1 == source && before[i].0.0 <= t
                < before[i].0.1 {
            let i = choose|i: int|
                0 <= i < before.len() && (#[trigger] before[i]).1 == source && before[i].0.0 <= t
                    < before[i].0.1;
            assert(all[i] == before[i]);
        }
        if r == source && timeline::in_ranges(edited, t) {
            let j = choose|j: int| 0 <= j < edited.len() && (#[trigger] edited[j]).0 <= t
                < edited[j].1;
            assert(all[before.len() + j] == last[j]);
            assert(last[j] == (edited[j], r));
        }
        if exists|k: int| 0 <= k < n && #[trigger] ranges[k] == source {
            let k = choose|k: int| 0 <= k < n && #[trigger] ranges[k] == source;
            if k < n - 1 {
                assert(0 <= k < (n - 1) as nat && ranges[k] == source);
            }
        }
    }
}

/// What is offered to be cut is what plays of the silence: an edited time lies in an offer
/// for a silent stretch exactly when what plays at it lies in that stretch.
pub proof fn offers_are_where_silence_plays(
    retained: Seq<RetainedInterval>,
    ranges: Seq<(u64, u64)>,
    t: int,
    source: (u64, u64),
)
    requires
        timeline::ordered(retained),
        0 <= t,
    ensures
        (exists|i: int|
            0 <= i < offers(retained, ranges, ranges.len()).len() && (#[trigger] offers(
                retained,
                ranges,
                ranges.len(),
            )[i]).1 == source && offers(retained, ranges, ranges.len())[i].0.0 <= t < offers(
                retained,
                ranges,
                ranges.len(),
            )[i].0.1) <==> ranges.contains(source) && (timeline::to_source(
            retained,
            t,
        ) matches Some(x) && source.0 <= x < source.1),
{
    lemma_offers(retained, ranges, ranges.len(), t, source);
    if ranges.contains(source) {
        let k = choose|k: int| 0 <= k < ranges.len() && ranges[k] == source;
        assert(ranges[k] == source);
    }
}

/// A suggestion names the edited range that it would cut and the silence that plays there,
/// says how long the range is in whole milliseconds, and is selected. Suggestions are
/// numbered from one on, and there are no more of them than one revision takes.
pub proof fn suggestions_name_what_they_cut(
    v: Seq<SilenceCutInterval>,
    o: Seq<((int, int), (u64, u64))>,
    i: int,
)
    requires
        suggests(v, o),
        0 <= i < v.len(),
        0 <= o[i].0.0 <= o[i].0.1,
    ensures
        v.len() <= 256,
        o.len() <= 256 ==> v.len() == o.len(),
        v[i].start_us == o[i].0.0,
        v[i].end_us == o[i].0.1,
        v[i].source_start_us == o[i].1.0,
        v[i].source_end_us == o[i].1.1,
        v[i].duration_ms * 1_000 <= v[i].end_us - v[i].start_us < (v[i].duration_ms + 1) * 1_000,
        v[i].selected,
        v[i].id@ == "silence-"@ + crate::text::decimal((i + 1) as nat),
{
    assert(offered(v[i], (i + 1) as nat, o[i]));
}

/// Silence that was found stays found: where another detector takes over, what the one before
/// it found is kept, in its order, with the silence that it still heard.
pub proof fn found_silence_is_gathered(
    raw: Seq<(u64, u64)>,
    detector: Option<StreamingSilenceDetector>,
    x: int,
)
    ensures
        gathered(raw, detector).len() >= raw.len(),
        gathered(raw, detector).take(raw.len() as int) == raw,
        detector is None ==> gathered(raw, detector) == raw,
        detector matches Some(d) ==> (silence::in_regions(gathered(raw, detector), x)
            <==> silence::in_regions(raw, x) || silence::in_regions(d@.regions, x) || (d@.silent
            && d@.since <= x < if d@.waiting > 0 {
            silence::later(d@.waiting_from, d@.waiting, d.rate())
        } else if d@.expected is Some {
            d@.expected->0
        } else {
            d@.since
        })),
{
    let all = gathered(raw, detector);
    assert(all.take(raw.len() as int) =~= raw);
    if let Some(d) = detector {
        silence::silence_ends_with_what_was_heard(d@, d.rate(), x);
        let more = d@.flushed(d.rate()).regions;
        if silence::in_regions(raw, x) {
            let i = choose|i: int| 0 <= i < raw.len() && (#[trigger] raw[i]).0 <= x < raw[i].1;
            assert(all[i] == raw[i]);
        }
        if silence::in_regions(more, x) {
            let i = choose|i: int| 0 <= i < more.len() && (#[trigger] more[i]).0 <= x < more[i].1;
            assert(all[i + raw.len()] == more[i]);
        }
        if silence::in_regions(all, x) {
            let i = choose|i: int| 0 <= i < all.len() && (#[trigger] all[i]).0 <= x < all[i].1;
            if i < raw.len() {
                assert(all[i] == raw[i]);
            } else {
                assert(all[i] == more[i - raw.len()]);
            }
        }
    }
}

} // verus!
