//! Committing the segments of a track. A segment is flushed, published under a name
//! that is never reused, and then entered in the journal. One that is published but
//! not in the journal is kept as pending until it is.
use crate::paths;
use crate::project::journal::JournalRecord;
use crate::project::manifest::TrackType;
use crate::text;
use vstd::prelude::*;
use vstd::string::*;

verus! {

/// How long a segment should be.
pub const TARGET_DURATION_US: u64 = 2_000_000;

/// How far a host time may be ahead of the session's.
pub const SLACK_US: u64 = 5_000_000;

/// Host times up to this are never taken for times since boot.
pub const ABSOLUTE_FLOOR_US: u64 = 30_000_000;

/// A failure that is to happen once.
#[derive(Debug, Clone, Copy, PartialEq, Eq, Structural)]
pub enum DurabilityFault {
    NoFault,
    /// After the flush, before the segment is published.
    FailSync,
    /// When the journal is written.
    FailJournalAppend,
}

impl Default for DurabilityFault {
    fn default() -> (r: Self)
        ensures
            r == DurabilityFault::NoFault,
    {
        DurabilityFault::NoFault
    }
}

/// Why a segment could not be committed.
#[derive(Debug, PartialEq)]
pub enum SegmentWriterError {
    Io(String),
    Journal(String),
    NoActiveSegment,
    DestinationAlreadyExists(String),
    PendingPublication,
}

impl SegmentWriterError {
    /// The message for people.
    pub open spec fn text(self) -> Seq<char> {
        match self {
            SegmentWriterError::Io(e) => "IO error: "@ + e@,
            SegmentWriterError::Journal(e) => "Journal error: "@ + e@,
            SegmentWriterError::NoActiveSegment => "No active segment in progress"@,
            SegmentWriterError::DestinationAlreadyExists(p) =>
                "Destination segment already exists: "@ + paths::path_debug(p@),
            SegmentWriterError::PendingPublication =>
                "Unjournaled publication pending; retry commit before opening a new segment"@,
        }
    }

    /// The message for people.
    pub fn message(&self) -> (t: String)
        ensures
            t@ == self.text(),
    {
        match self {
            SegmentWriterError::Io(e) => {
                let mut t: String = "IO error: ".to_owned();
                t.append(e.as_str());
                t
            },
            SegmentWriterError::Journal(e) => {
                let mut t: String = "Journal error: ".to_owned();
                t.append(e.as_str());
                t
            },
            SegmentWriterError::NoActiveSegment => "No active segment in progress".to_owned(),
            SegmentWriterError::DestinationAlreadyExists(p) => {
                let mut t: String = "Destination segment already exists: ".to_owned();
                t.append(paths::debug_path(p.as_str()).as_str());
                t
            },
            SegmentWriterError::PendingPublication =>
                "Unjournaled publication pending; retry commit before opening a new segment".to_owned(),
        }
    }
}

/// A committed segment.
#[derive(Debug, PartialEq)]
pub struct SegmentCommitResult {
    pub seq: u64,
    pub relative_path: String,
    pub start_us: u64,
    pub end_us: u64,
    pub size_bytes: u64,
}

/// A segment that is published and not yet in the journal.
#[derive(Debug, PartialEq)]
pub struct PendingPublication {
    pub seq: u64,
    pub relative_path: String,
    pub start_us: u64,
    pub end_us: u64,
    pub size_bytes: u64,
    pub is_keyframe_start: bool,
    pub media_timescale: u32,
    pub media_start_value: i64,
    pub host_anchor_us: i64,
}

impl Clone for PendingPublication {
    fn clone(&self) -> (r: Self)
        ensures
            r == *self,
    {
        PendingPublication {
            seq: self.seq,
            relative_path: self.relative_path.clone(),
            start_us: self.start_us,
            end_us: self.end_us,
            size_bytes: self.size_bytes,
            is_keyframe_start: self.is_keyframe_start,
            media_timescale: self.media_timescale,
            media_start_value: self.media_start_value,
            host_anchor_us: self.host_anchor_us,
        }
    }
}

/// The segment that is being written.
#[derive(Debug, Clone, Copy, PartialEq, Eq, Structural)]
pub struct ActiveSegment {
    pub start_us: u64,
    pub bytes: u64,
    /// Whether its file is open.
    pub open: bool,
}

/// The writer of a track's segments.
#[derive(Debug)]
pub struct TrackSegmentWriter {
    pub track_id: String,
    pub track_type: TrackType,
    pub codec: String,
    pub current_seq: u64,
    pub active: Option<ActiveSegment>,
    pub pending_publication: Option<PendingPublication>,
    pub injected_fault: DurabilityFault,
    /// The first host time, where host times count from boot.
    pub native_host_origin: Option<u64>,
}

/// The extension of a track's files.
pub open spec fn extension_of(t: TrackType) -> Seq<char> {
    if t == TrackType::Screen || t == TrackType::Webcam {
        "mp4"@
    } else {
        "wav"@
    }
}

/// The extension of a track's files.
pub fn track_extension(t: TrackType) -> (r: String)
    ensures
        r@ == extension_of(t),
{
    match t {
        TrackType::Screen => "mp4".to_owned(),
        TrackType::Webcam => "mp4".to_owned(),
        TrackType::SystemAudio => "wav".to_owned(),
        TrackType::MicAudio => "wav".to_owned(),
    }
}

/// The name of a committed segment.
pub open spec fn segment_name(seq: nat, t: TrackType) -> Seq<char> {
    text::padded(seq, 6) + "."@ + extension_of(t)
}

/// The path of a committed segment.
pub open spec fn segment_path(id: Seq<char>, seq: nat, t: TrackType) -> Seq<char> {
    "media/"@ + id + "/"@ + segment_name(seq, t)
}

fn committed_name(seq: u64, t: TrackType) -> (r: String)
    ensures
        r@ == segment_name(seq as nat, t),
{
    let mut r: String = String::new();
    text::push_padded(&mut r, seq, 6);
    r.append(".");
    r.append(track_extension(t).as_str());
    assert(r@ =~= segment_name(seq as nat, t));
    r
}

fn committed_path(id: &str, seq: u64, t: TrackType) -> (r: String)
    ensures
        r@ == segment_path(id@, seq as nat, t),
{
    let mut r: String = "media/".to_owned();
    r.append(id);
    r.append("/");
    r.append(committed_name(seq, t).as_str());
    r
}

/// What stands before the first full stop.
pub open spec fn before_dot(s: Seq<char>) -> Seq<char>
    decreases s.len(),
{
    if s.len() == 0 || s[0] == '.' {
        Seq::empty()
    } else {
        seq![s[0]] + before_dot(s.drop_first())
    }
}

/// The number of a segment from its file's name, zero when it has none: six digits
/// before the first full stop.
pub open spec fn number_in(name: Seq<char>) -> nat {
    let stem = before_dot(name);
    if stem.len() == 6 {
        text::number_of(stem, u32::MAX).unwrap_or(0) as nat
    } else {
        0
    }
}

fn stem_of(name: &str) -> (r: String)
    ensures
        r@ == before_dot(name@),
{
    let v = text::to_chars(name);
    let mut out: String = String::new();
    let mut i: usize = 0;
    assert(v@.skip(0) =~= v@);
    while i < v.len() && v[i] != '.'
        invariant
            i <= v@.len(),
            before_dot(v@) == out@ + before_dot(v@.skip(i as int)),
        decreases v@.len() - i,
    {
        let ghost rest = v@.skip(i as int);
        let ghost before = out@;
        out.push(v[i]);
        proof {
            assert(rest.drop_first() =~= v@.skip(i + 1));
            assert(before + (seq![rest[0]] + before_dot(rest.drop_first())) =~= out@ + before_dot(
                v@.skip(i + 1),
            ));
        }
        i = i + 1;
    }
    proof {
        let rest = v@.skip(i as int);
        if rest.len() > 0 {
            assert(rest[0] == v@[i as int]);
        }
        assert(out@ + Seq::<char>::empty() =~= out@);
    }
    out
}

/// The largest number in the first `n` names.
pub open spec fn largest_number(names: Seq<Seq<char>>, n: nat) -> nat
    decreases n,
{
    if n == 0 {
        0
    } else {
        let before = largest_number(names, (n - 1) as nat);
        let here = number_in(names[n - 1]);
        if here > before {
            here
        } else {
            before
        }
    }
}

/// The number of the next segment, in a directory that holds files of these names.
pub fn next_sequence(names: &Vec<String>) -> (r: u64)
    ensures
        r == largest_number(paths::texts(names@), names@.len()) + 1,
{
    let mut most: u32 = 0;
    let mut i: usize = 0;
    while i < names.len()
        invariant
            i <= names@.len(),
            most == largest_number(paths::texts(names@), i as nat),
        decreases names@.len() - i,
    {
        assert(paths::texts(names@)[i as int] == names@[i as int]@);
        let stem = stem_of(names[i].as_str());
        let v = text::to_chars(stem.as_str());
        if v.len() == 6 {
            match text::parse_number(stem.as_str(), u32::MAX) {
                Some(n) => {
                    if n > most {
                        most = n;
                    }
                },
                None => {},
            }
        }
        i = i + 1;
    }
    (most as u64) + 1
}

/// What a commit goes on with.
#[derive(Debug, PartialEq, Eq)]
pub enum CommitStep {
    /// The pending segment goes into the journal.
    Journal,
    /// The active segment is flushed.
    Flush,
}

/// What the commit of a finished segment begins with.
#[derive(Debug, Clone, Copy, PartialEq, Eq, Structural)]
pub enum NativeStep {
    /// Nothing is pending: the segment is published.
    Publish,
    /// The segment is the pending one: it goes into the journal, which answers the commit.
    JournalAndAnswer,
    /// Another segment is pending: it goes into the journal before this one is published.
    JournalAndGoOn,
}

/// The journal's record of a pending segment.
pub open spec fn record_of(id: String, p: PendingPublication) -> JournalRecord {
    JournalRecord::SegmentCommitted {
        seq: p.seq,
        track_id: id,
        relative_path: p.relative_path,
        start_us: p.start_us,
        end_us: p.end_us,
        size_bytes: p.size_bytes,
        is_keyframe_start: p.is_keyframe_start,
        media_timescale: p.media_timescale,
        media_start_value: p.media_start_value,
        host_anchor_us: p.host_anchor_us,
    }
}

impl TrackSegmentWriter {
    /// Whether a segment is being written.
    pub open spec fn writing(self) -> bool {
        self.active matches Some(a) && a.open
    }

    /// Whether there is anything left to commit.
    pub open spec fn unfinished(self) -> bool {
        self.pending_publication is Some || self.writing()
    }

    /// What the commit of the finished segment with an index begins with.
    pub open spec fn step_for(self, index: u32) -> NativeStep {
        match self.pending_publication {
            None => NativeStep::Publish,
            Some(p) => if p.seq == index + 1 {
                NativeStep::JournalAndAnswer
            } else {
                NativeStep::JournalAndGoOn
            },
        }
    }

    /// Whether the next record is refused before it goes into the journal.
    pub open spec fn refuses_record(self) -> bool {
        self.injected_fault == DurabilityFault::FailJournalAppend
    }

    /// The record with which the pending segment goes into the journal.
    pub open spec fn pending_record(self) -> JournalRecord {
        record_of(self.track_id, self.pending_publication.unwrap())
    }

    /// The writer after it was asked for the record of the pending segment.
    pub open spec fn staged(self) -> TrackSegmentWriter {
        if self.refuses_record() {
            TrackSegmentWriter { injected_fault: DurabilityFault::NoFault, ..self }
        } else {
            self
        }
    }

    /// The writer after the record of the pending segment went into the journal, or did
    /// not.
    pub open spec fn after_append(self, appended: bool) -> TrackSegmentWriter {
        let p = self.pending_publication.unwrap();
        if appended {
            TrackSegmentWriter {
                pending_publication: None,
                current_seq: if p.seq >= self.current_seq {
                    (p.seq + 1) as u64
                } else {
                    self.current_seq
                },
                ..self
            }
        } else {
            self
        }
    }

    /// The writer of a track, whose directory holds files of these names.
    pub fn new(
        track_id: String,
        track_type: TrackType,
        codec: String,
        names: &Vec<String>,
    ) -> (r: Self)
        ensures
            r.track_id == track_id,
            r.track_type == track_type,
            r.codec == codec,
            r.current_seq == largest_number(paths::texts(names@), names@.len()) + 1,
            r.active is None,
            r.pending_publication is None,
            r.injected_fault == DurabilityFault::NoFault,
            r.native_host_origin is None,
    {
        TrackSegmentWriter {
            track_id,
            track_type,
            codec,
            current_seq: next_sequence(names),
            active: None,
            pending_publication: None,
            injected_fault: DurabilityFault::NoFault,
            native_host_origin: None,
        }
    }

    pub fn inject_fault(&mut self, fault: DurabilityFault)
        ensures
            *final(self) == (TrackSegmentWriter { injected_fault: fault, ..*old(self) }),
    {
        self.injected_fault = fault;
    }

    pub fn has_pending_publication(&self) -> (r: bool)
        ensures
            r == (self.pending_publication is Some),
    {
        self.pending_publication.is_some()
    }

    pub fn has_active_segment(&self) -> (r: bool)
        ensures
            r == self.writing(),
    {
        match self.active {
            Some(a) => a.open,
            None => false,
        }
    }

    fn take_fault(&mut self, expected: DurabilityFault) -> (r: bool)
        ensures
            r == (old(self).injected_fault == expected),
            *final(self) == if r {
                (TrackSegmentWriter { injected_fault: DurabilityFault::NoFault, ..*old(self) })
            } else {
                *old(self)
            },
    {
        if self.injected_fault == expected {
            self.injected_fault = DurabilityFault::NoFault;
            true
        } else {
            false
        }
    }

    pub fn track_id(&self) -> (r: &str)
        ensures
            r@ == self.track_id@,
    {
        self.track_id.as_str()
    }

    pub fn track_type(&self) -> (r: TrackType)
        ensures
            r == self.track_type,
    {
        self.track_type
    }

    pub fn codec(&self) -> (r: &str)
        ensures
            r@ == self.codec@,
    {
        self.codec.as_str()
    }

    pub fn current_seq(&self) -> (r: u64)
        ensures
            r == self.current_seq,
    {
        self.current_seq
    }

    pub fn target_duration_us(&self) -> (r: u64)
        ensures
            r == TARGET_DURATION_US,
    {
        TARGET_DURATION_US
    }

    /// The names of the next segment: as it is written, and as it is committed.
    pub fn candidate(&self) -> (r: (String, String))
        ensures
            r.0@ == text::padded(self.current_seq as nat, 6) + ".tmp"@,
            r.1@ == segment_name(self.current_seq as nat, self.track_type),
    {
        let mut temp: String = String::new();
        text::push_padded(&mut temp, self.current_seq, 6);
        temp.append(".tmp");
        assert(temp@ =~= text::padded(self.current_seq as nat, 6) + ".tmp"@);
        (temp, committed_name(self.current_seq, self.track_type))
    }

    /// Whether a segment can begin.
    pub fn check_begin(&self) -> (r: Result<(), SegmentWriterError>)
        ensures
            match r {
                Ok(()) => self.pending_publication is None,
                Err(e) => self.pending_publication is Some && e
                    == SegmentWriterError::PendingPublication,
            },
    {
        if self.pending_publication.is_some() {
            return Err(SegmentWriterError::PendingPublication);
        }
        Ok(())
    }

    /// One of the candidate's names is taken: the next number is tried.
    pub fn candidate_taken(&mut self)
        requires
            old(self).current_seq < u64::MAX,
        ensures
            *final(self) == (TrackSegmentWriter {
                current_seq: (old(self).current_seq + 1) as u64,
                ..*old(self)
            }),
    {
        self.current_seq = self.current_seq + 1;
    }

    /// The candidate's file has been made.
    pub fn begin_segment(&mut self, start_us: u64) -> (r: Result<(), SegmentWriterError>)
        ensures
            match r {
                Ok(()) => old(self).pending_publication is None && *final(self) == (
                TrackSegmentWriter {
                    active: Some(ActiveSegment { start_us, bytes: 0, open: true }),
                    ..*old(self)
                }),
                Err(e) => old(self).pending_publication is Some && *final(self) == *old(self) && e
                    == SegmentWriterError::PendingPublication,
            },
    {
        if self.pending_publication.is_some() {
            return Err(SegmentWriterError::PendingPublication);
        }
        self.active = Some(ActiveSegment { start_us, bytes: 0, open: true });
        Ok(())
    }

    /// `len` bytes have been written to the active segment.
    pub fn write_data(&mut self, len: u64) -> (r: Result<(), SegmentWriterError>)
        requires
            old(self).active matches Some(a) ==> a.bytes + len <= u64::MAX,
        ensures
            match r {
                Ok(()) => old(self).active matches Some(a) && a.open && *final(self) == (
                TrackSegmentWriter {
                    active: Some(ActiveSegment { bytes: (a.bytes + len) as u64, ..a }),
                    ..*old(self)
                }),
                Err(e) => !(old(self).active matches Some(a) && a.open) && *final(self)
                    == *old(self) && e == SegmentWriterError::NoActiveSegment,
            },
    {
        match self.active {
            Some(a) => {
                if !a.open {
                    return Err(SegmentWriterError::NoActiveSegment);
                }
                self.active = Some(ActiveSegment { bytes: a.bytes + len, ..a });
                Ok(())
            },
            None => Err(SegmentWriterError::NoActiveSegment),
        }
    }

    /// What a commit goes on with.
    pub fn commit_step(&self) -> (r: Result<CommitStep, SegmentWriterError>)
        ensures
            match r {
                Ok(CommitStep::Journal) => self.pending_publication is Some,
                Ok(CommitStep::Flush) => self.pending_publication is None && self.writing(),
                Err(e) => !self.unfinished() && e == SegmentWriterError::NoActiveSegment,
            },
    {
        if self.pending_publication.is_some() {
            return Ok(CommitStep::Journal);
        }
        match self.active {
            Some(a) => if a.open {
                Ok(CommitStep::Flush)
            } else {
                Err(SegmentWriterError::NoActiveSegment)
            },
            None => Err(SegmentWriterError::NoActiveSegment),
        }
    }

    /// The active segment is flushed: where it is to be published.
    pub fn flushed(&mut self) -> (r: Result<String, SegmentWriterError>)
        ensures
            match r {
                Ok(path) => old(self).injected_fault != DurabilityFault::FailSync && *final(self)
                    == *old(self) && path@ == segment_path(
                    old(self).track_id@,
                    old(self).current_seq as nat,
                    old(self).track_type,
                ),
                Err(e) => old(self).injected_fault == DurabilityFault::FailSync && *final(self) == (
                TrackSegmentWriter { injected_fault: DurabilityFault::NoFault, ..*old(self) }) && (
                e matches SegmentWriterError::Io(m) && m@ == "injected sync failure"@),
            },
    {
        if self.take_fault(DurabilityFault::FailSync) {
            return Err(SegmentWriterError::Io("injected sync failure".to_owned()));
        }
        Ok(committed_path(self.track_id.as_str(), self.current_seq, self.track_type))
    }

    /// The active segment could not be published, and its file could be opened again
    /// or not.
    pub fn publish_failed(&mut self, reopened: bool)
        ensures
            match old(self).active {
                Some(a) => *final(self) == (TrackSegmentWriter {
                    active: Some(ActiveSegment { open: reopened, ..a }),
                    ..*old(self)
                }),
                None => *final(self) == *old(self),
            },
    {
        match self.active {
            Some(a) => {
                self.active = Some(ActiveSegment { open: reopened, ..a });
            },
            None => {},
        }
    }

    /// The active segment is published: it is pending until it is in the journal.
    pub fn published(&mut self, end_us: u64, is_keyframe_start: bool)
        requires
            old(self).active is Some,
            old(self).pending_publication is None,
        ensures
            final(self).active is None,
            final(self).pending_publication matches Some(p) && {
                &&& p.seq == old(self).current_seq
                &&& p.relative_path@ == segment_path(
                    old(self).track_id@,
                    old(self).current_seq as nat,
                    old(self).track_type,
                )
                &&& p.start_us == old(self).active.unwrap().start_us
                &&& p.end_us == end_us
                &&& p.size_bytes == old(self).active.unwrap().bytes
                &&& p.is_keyframe_start == is_keyframe_start
                &&& p.media_timescale == 0
                &&& p.media_start_value == 0
                &&& p.host_anchor_us == 0
            },
            *final(self) == (TrackSegmentWriter {
                active: None,
                pending_publication: final(self).pending_publication,
                ..*old(self)
            }),
    {
        match self.active {
            Some(a) => {
                let relative_path = committed_path(
                    self.track_id.as_str(),
                    self.current_seq,
                    self.track_type,
                );
                self.pending_publication = Some(
                    PendingPublication {
                        seq: self.current_seq,
                        relative_path,
                        start_us: a.start_us,
                        end_us,
                        size_bytes: a.bytes,
                        is_keyframe_start,
                        media_timescale: 0,
                        media_start_value: 0,
                        host_anchor_us: 0,
                    },
                );
                self.active = None;
            },
            None => {},
        }
    }

    /// The record with which the pending segment goes into the journal.
    pub fn stage_pending(&mut self) -> (r: Result<JournalRecord, SegmentWriterError>)
        requires
            old(self).pending_publication is Some,
        ensures
            *final(self) == old(self).staged(),
            match r {
                Ok(record) => !old(self).refuses_record() && record == old(self).pending_record(),
                Err(e) => old(self).refuses_record() && (e matches SegmentWriterError::Journal(m)
                    && m@ == "injected journal append failure"@),
            },
    {
        if self.take_fault(DurabilityFault::FailJournalAppend) {
            return Err(SegmentWriterError::Journal("injected journal append failure".to_owned()));
        }
        let p: PendingPublication = match &self.pending_publication {
            Some(p) => p.clone(),
            None => {
                return Err(SegmentWriterError::NoActiveSegment);
            },
        };
        Ok(
            JournalRecord::SegmentCommitted {
                seq: p.seq,
                track_id: self.track_id.clone(),
                relative_path: p.relative_path,
                start_us: p.start_us,
                end_us: p.end_us,
                size_bytes: p.size_bytes,
                is_keyframe_start: p.is_keyframe_start,
                media_timescale: p.media_timescale,
                media_start_value: p.media_start_value,
                host_anchor_us: p.host_anchor_us,
            },
        )
    }

    /// The record of the pending segment went into the journal, or could not: then the
    /// segment stays pending.
    pub fn finish_pending_journal(&mut self, appended: Result<(), String>) -> (r: Result<
        SegmentCommitResult,
        SegmentWriterError,
    >)
        requires
            old(self).pending_publication is Some,
            old(self).pending_publication.unwrap().seq < u64::MAX,
        ensures
            *final(self) == old(self).after_append(appended is Ok),
            match appended {
                Ok(()) => {
                    let p = old(self).pending_publication.unwrap();
                    &&& r matches Ok(c) && c == (SegmentCommitResult {
                        seq: p.seq,
                        relative_path: p.relative_path,
                        start_us: p.start_us,
                        end_us: p.end_us,
                        size_bytes: p.size_bytes,
                    })
                    &&& final(self).current_seq > p.seq
                },
                Err(e) => r == Err::<SegmentCommitResult, SegmentWriterError>(
                    SegmentWriterError::Journal(e),
                ),
            },
    {
        match appended {
            Ok(()) => {},
            Err(e) => {
                return Err(SegmentWriterError::Journal(e));
            },
        }
        let mut taken: Option<PendingPublication> = None;
        std::mem::swap(&mut taken, &mut self.pending_publication);
        let p: PendingPublication = taken.unwrap();
        if p.seq >= self.current_seq {
            self.current_seq = p.seq + 1;
        }
        Ok(
            SegmentCommitResult {
                seq: p.seq,
                relative_path: p.relative_path,
                start_us: p.start_us,
                end_us: p.end_us,
                size_bytes: p.size_bytes,
            },
        )
    }

    /// Whether there is anything left to commit when the recording ends. Where there
    /// is not, a closed segment is dropped.
    pub fn finalize(&mut self) -> (r: bool)
        ensures
            r == old(self).unfinished(),
            *final(self) == if r {
                *old(self)
            } else {
                (TrackSegmentWriter { active: None, ..*old(self) })
            },
    {
        if self.pending_publication.is_some() || self.has_active_segment() {
            return true;
        }
        self.active = None;
        false
    }
}

/// The writer, the journal, and whether the pending segment is in it, after tries to
/// journal it: of each of the first `n` tries it is given whether the append works. Once
/// the segment is in the journal there is nothing left to try.
pub open spec fn after_tries(
    w: TrackSegmentWriter,
    journal: Seq<JournalRecord>,
    works: Seq<bool>,
    n: nat,
) -> (TrackSegmentWriter, Seq<JournalRecord>, bool)
    decreases n,
{
    if n == 0 {
        (w, journal, false)
    } else {
        let (v, j, done) = after_tries(w, journal, works, (n - 1) as nat);
        if done {
            (v, j, done)
        } else if v.refuses_record() {
            (v.staged(), j, false)
        } else if works[n - 1] {
            (v.staged().after_append(true), j.push(v.pending_record()), true)
        } else {
            (v.staged().after_append(false), j, false)
        }
    }
}

/// A published segment whose record could not be appended is never given up: as long as
/// every try fails it stays pending, the journal stays as it was, and a recording that
/// ends is told that there is something left to commit. The first try that works adds
/// exactly one record, that of the published file, and leaves nothing pending.
pub proof fn published_segments_are_journaled_once(
    w: TrackSegmentWriter,
    journal: Seq<JournalRecord>,
    works: Seq<bool>,
    n: nat,
)
    requires
        w.pending_publication is Some,
        n <= works.len(),
    ensures
        ({
            let (v, j, done) = after_tries(w, journal, works, n);
            &&& !done ==> v.unfinished() && v.pending_publication == w.pending_publication
                && v.pending_record() == w.pending_record() && j == journal
            &&& done ==> v.pending_publication is None && j == journal.push(w.pending_record())
            &&& v.active == w.active
            &&& n > 0 && works[n - 1] && !w.refuses_record() ==> done
        }),
    decreases n,
{
    if n > 0 {
        published_segments_are_journaled_once(w, journal, works, (n - 1) as nat);
        if !w.refuses_record() {
            lemma_no_new_refusal(w, journal, works, (n - 1) as nat);
        }
    }
}

/// No segment is published while another one is pending: its commit goes to the journal
/// first, and only once the pending segment is in it does the next commit publish. As long
/// as that fails, a commit begins as before.
pub proof fn nothing_pending_is_overwritten(w: TrackSegmentWriter, index: u32)
    requires
        w.pending_publication is Some,
    ensures
        w.step_for(index) != NativeStep::Publish,
        w.step_for(index) == NativeStep::JournalAndAnswer <==> w.pending_record().number() == index
            + 1,
        w.staged().after_append(false).step_for(index) == w.step_for(index),
        w.staged().after_append(true).step_for(index) == NativeStep::Publish,
{
}

proof fn lemma_no_new_refusal(
    w: TrackSegmentWriter,
    journal: Seq<JournalRecord>,
    works: Seq<bool>,
    n: nat,
)
    requires
        !w.refuses_record(),
    ensures
        !after_tries(w, journal, works, n).0.refuses_record(),
    decreases n,
{
    if n > 0 {
        lemma_no_new_refusal(w, journal, works, (n - 1) as nat);
    }
}

/// The session time of a host time, and the origin that is known after it. Host
/// times far ahead of the session are taken as times since boot, and count from the
/// first of them.
pub open spec fn session_time(origin: Option<u64>, host: u64, elapsed: u64) -> (u64, Option<u64>) {
    match origin {
        Some(o) => (
            if host >= o {
                (host - o) as u64
            } else {
                0
            },
            origin,
        ),
        None => if host > elapsed + SLACK_US && host > ABSOLUTE_FLOOR_US {
            (0, Some(host))
        } else {
            (host, None)
        },
    }
}

/// Once there is an origin, session times are as far apart as host times.
pub proof fn rebased_times_keep_their_distance(origin: u64, a: u64, b: u64, x: u64, y: u64)
    requires
        origin <= a <= b,
    ensures
        session_time(Some(origin), b, y).0 - session_time(Some(origin), a, x).0 == b - a,
        session_time(Some(origin), a, x).1 == Some(origin),
{
}

/// A refusal of a native segment.
pub open spec fn refused(e: SegmentWriterError, why: Seq<char>) -> bool {
    e matches SegmentWriterError::Io(m) && m@ == why
}

impl TrackSegmentWriter {
    /// The paths of a segment that was finished elsewhere: as it was written, and as
    /// it is to be committed.
    pub fn native_paths(&self, index: u32, host_anchor_us: i64, timescale: u32) -> (r: Result<
        (String, String),
        SegmentWriterError,
    >)
        ensures
            match r {
                Ok(p) => {
                    &&& host_anchor_us >= 0
                    &&& timescale > 0
                    &&& p.1@ == segment_path(self.track_id@, (index + 1) as nat, self.track_type)
                    &&& p.0@ == p.1@ + ".tmp"@
                },
                Err(e) => (host_anchor_us < 0 || timescale == 0) && refused(
                    e,
                    "Invalid native clock anchor"@,
                ),
            },
    {
        if host_anchor_us < 0 || timescale == 0 {
            return Err(SegmentWriterError::Io("Invalid native clock anchor".to_owned()));
        }
        let committed = committed_path(self.track_id.as_str(), (index as u64) + 1, self.track_type);
        let mut temp: String = committed.clone();
        temp.append(".tmp");
        Ok((temp, committed))
    }

    /// Checks that the file that was handed over is the expected one, and no
    /// symbolic link.
    pub fn check_native_file(same_file: bool, is_symlink: bool) -> (r: Result<
        (),
        SegmentWriterError,
    >)
        ensures
            match r {
                Ok(()) => same_file && !is_symlink,
                Err(e) => (!same_file || is_symlink) && refused(
                    e,
                    "Unexpected native segment path"@,
                ),
            },
    {
        if !same_file || is_symlink {
            return Err(SegmentWriterError::Io("Unexpected native segment path".to_owned()));
        }
        Ok(())
    }

    fn session_start_us(&mut self, host_us: u64, session_elapsed_us: u64) -> (r: u64)
        ensures
            (r, final(self).native_host_origin) == session_time(
                old(self).native_host_origin,
                host_us,
                session_elapsed_us,
            ),
            *final(self) == (TrackSegmentWriter {
                native_host_origin: final(self).native_host_origin,
                ..*old(self)
            }),
    {
        match self.native_host_origin {
            Some(origin) => if host_us >= origin {
                host_us - origin
            } else {
                0
            },
            None => {
                let limit: u64 = if session_elapsed_us > u64::MAX - SLACK_US {
                    u64::MAX
                } else {
                    session_elapsed_us + SLACK_US
                };
                if host_us > limit && host_us > ABSOLUTE_FLOOR_US {
                    self.native_host_origin = Some(host_us);
                    0
                } else {
                    host_us
                }
            },
        }
    }

    /// The session time of a finished segment, whose media was found valid: its start
    /// and its end.
    pub fn native_interval(
        &mut self,
        duration_us: u64,
        is_keyframe_start: bool,
        host_anchor_us: i64,
        session_elapsed_us: u64,
    ) -> (r: Result<(u64, u64), SegmentWriterError>)
        requires
            host_anchor_us >= 0,
        ensures
            ({
                let t = session_time(
                    old(self).native_host_origin,
                    host_anchor_us as u64,
                    session_elapsed_us,
                );
                if duration_us == 0 || !is_keyframe_start {
                    &&& *final(self) == *old(self)
                    &&& r matches Err(e) && refused(
                        e,
                        "Native segment has no duration or independent start"@,
                    )
                } else if old(self).injected_fault == DurabilityFault::FailSync {
                    &&& *final(self) == (TrackSegmentWriter {
                        injected_fault: DurabilityFault::NoFault,
                        ..*old(self)
                    })
                    &&& r matches Err(e) && refused(e, "injected sync failure"@)
                } else {
                    &&& *final(self) == (TrackSegmentWriter {
                        native_host_origin: t.1,
                        ..*old(self)
                    })
                    &&& match r {
                        Ok(span) => span.0 == t.0 && span.1 == t.0 + duration_us,
                        Err(e) => t.0 + duration_us > u64::MAX && refused(
                            e,
                            "Native segment time overflow"@,
                        ),
                    }
                }
            }),
    {
        if duration_us == 0 || !is_keyframe_start {
            return Err(
                SegmentWriterError::Io(
                    "Native segment has no duration or independent start".to_owned(),
                ),
            );
        }
        if self.take_fault(DurabilityFault::FailSync) {
            return Err(SegmentWriterError::Io("injected sync failure".to_owned()));
        }
        let start_us: u64 = self.session_start_us(host_anchor_us as u64, session_elapsed_us);
        if duration_us > u64::MAX - start_us {
            return Err(SegmentWriterError::Io("Native segment time overflow".to_owned()));
        }
        Ok((start_us, start_us + duration_us))
    }

    /// What the commit of a finished segment begins with: what was published before goes
    /// into the journal first, and that is the answer where it is this very segment.
    pub fn native_step(&self, index: u32) -> (r: NativeStep)
        ensures
            r == self.step_for(index),
    {
        match &self.pending_publication {
            None => NativeStep::Publish,
            Some(p) => if p.seq == (index as u64) + 1 {
                NativeStep::JournalAndAnswer
            } else {
                NativeStep::JournalAndGoOn
            },
        }
    }

    /// A finished segment is published: it is pending until it is in the journal.
    pub fn native_published(
        &mut self,
        index: u32,
        span: (u64, u64),
        size_bytes: u64,
        is_keyframe_start: bool,
        timescale: u32,
        media_start_value: i64,
    )
        requires
            span.0 <= i64::MAX,
            old(self).pending_publication is None,
        ensures
            final(self).pending_publication matches Some(p) && {
                &&& p.seq == index + 1
                &&& p.relative_path@ == segment_path(
                    old(self).track_id@,
                    (index + 1) as nat,
                    old(self).track_type,
                )
                &&& p.start_us == span.0
                &&& p.end_us == span.1
                &&& p.size_bytes == size_bytes
                &&& p.is_keyframe_start == is_keyframe_start
                &&& p.media_timescale == timescale
                &&& p.media_start_value == media_start_value
                &&& p.host_anchor_us == span.0
            },
            *final(self) == (TrackSegmentWriter {
                pending_publication: final(self).pending_publication,
                ..*old(self)
            }),
    {
        let seq: u64 = (index as u64) + 1;
        let relative_path = committed_path(self.track_id.as_str(), seq, self.track_type);
        self.pending_publication = Some(
            PendingPublication {
                seq,
                relative_path,
                start_us: span.0,
                end_us: span.1,
                size_bytes,
                is_keyframe_start,
                media_timescale: timescale,
                media_start_value,
                host_anchor_us: span.0 as i64,
            },
        );
    }
}

proof fn lemma_padded_plain(n: nat, width: nat)
    ensures
        text::padded(n, width).len() > 0,
        forall|i: int|
            0 <= i < text::padded(n, width).len() ==> '0' <= #[trigger] text::padded(n, width)[i]
                <= '9',
    decreases width, n,
{
    if width <= 1 {
        lemma_decimal_plain(n);
    } else {
        lemma_padded_plain(n / 10, (width - 1) as nat);
        let before = text::padded(n / 10, (width - 1) as nat);
        assert forall|i: int| 0 <= i < text::padded(n, width).len() implies '0'
            <= #[trigger] text::padded(n, width)[i] <= '9' by {
            if i < before.len() {
                assert(text::padded(n, width)[i] == before[i]);
            }
        }
    }
}

proof fn lemma_decimal_plain(n: nat)
    ensures
        text::decimal(n).len() > 0,
        forall|i: int|
            0 <= i < text::decimal(n).len() ==> '0' <= #[trigger] text::decimal(n)[i] <= '9',
    decreases n,
{
    if n >= 10 {
        lemma_decimal_plain(n / 10);
        let before = text::decimal(n / 10);
        assert forall|i: int| 0 <= i < text::decimal(n).len() implies '0'
            <= #[trigger] text::decimal(n)[i] <= '9' by {
            if i < before.len() {
                assert(text::decimal(n)[i] == before[i]);
            }
        }
    }
}

/// A committed segment's path belongs to its track, whatever its number.
pub proof fn committed_segments_belong_to_their_track(id: Seq<char>, seq: nat, t: TrackType)
    requires
        paths::safe_id(id),
    ensures
        paths::belonging_fault(id, segment_path(id, seq, t)) is None,
{
    reveal_strlit("media/");
    reveal_strlit("media");
    reveal_strlit("/");
    reveal_strlit(".");
    reveal_strlit("..");
    reveal_strlit("mp4");
    reveal_strlit("wav");
    let name = segment_name(seq, t);
    let number = text::padded(seq, 6);
    lemma_padded_plain(seq, 6);
    assert(name[0] == number[0]);
    let dir = "media"@.push('/') + id;
    assert(segment_path(id, seq, t) =~= dir.push('/') + name);
    assert forall|i: int| 0 <= i < name.len() implies name[i] != '/' by {
        if i < number.len() {
            assert(name[i] == number[i]);
        } else if i > number.len() {
            let k = i - number.len() - 1;
            assert(name[i] == extension_of(t)[k]);
            assert(k == 0 || k == 1 || k == 2);
        }
    }
    paths::a_plain_name_is_one_part("media"@);
    paths::joining_a_name_adds_a_part("media"@, id);
    assert(paths::plain_name(name)) by {
        assert(name != "."@ && name != ".."@);
    }
    paths::joining_a_name_adds_a_part(dir, name);
    assert(paths::parts(segment_path(id, seq, t)).take(2) =~= paths::media_dir(id));
}

/// What is committed is what was published: the record that goes into the journal lists the
/// segment with its track, its path, its times and its size.
pub proof fn published_segments_are_listed(id: String, p: PendingPublication)
    ensures
        record_of(id, p).number() == p.seq,
        crate::project::reader::segment_of(record_of(id, p)) matches Some(listed) && {
            &&& listed.track_id == id
            &&& listed.relative_path == p.relative_path
            &&& listed.start_us == p.start_us
            &&& listed.end_us == p.end_us
            &&& listed.size_bytes == p.size_bytes
            &&& listed.is_keyframe_start == Some(p.is_keyframe_start)
            &&& listed.media_timescale == p.media_timescale
            &&& listed.media_start_value == p.media_start_value
            &&& listed.host_anchor_us == p.host_anchor_us
        },
{
}

/// Once a segment is journaled nothing is pending, and the next one has a larger number.
/// While it is not, everything stays.
pub proof fn journaled_segments_are_done(w: TrackSegmentWriter)
    requires
        w.pending_publication is Some,
        w.pending_publication->0.seq < u64::MAX,
    ensures
        ({
            let after = w.after_append(true);
            &&& after.pending_publication is None
            &&& after.current_seq > w.pending_publication->0.seq
            &&& after.current_seq >= w.current_seq
            &&& after.current_seq == w.current_seq || after.current_seq
                == w.pending_publication->0.seq + 1
            &&& after.active == w.active
            &&& after.track_id == w.track_id
            &&& after.native_host_origin == w.native_host_origin
        }),
        w.after_append(false) == w,
{
}

/// Host times that already count from the session's start stay as they are. Those that count
/// from boot, far ahead of the session, count from the first of them: it is the start.
pub proof fn host_times_count_from_the_first(host: u64, elapsed: u64, later: u64, at: u64)
    requires
        host <= later,
    ensures
        ({
            let first = session_time(None, host, elapsed);
            let second = session_time(first.1, later, at);
            let from_boot = host > elapsed + 5_000_000 && host > 30_000_000;
            &&& !from_boot ==> first == (host, None::<u64>)
            &&& from_boot ==> first.0 == 0 && second.0 == later - host && second.1 == Some(host)
        }),
{
}

proof fn lemma_before_dot(a: Seq<char>, b: Seq<char>)
    requires
        forall|i: int| 0 <= i < a.len() ==> #[trigger] a[i] != '.',
    ensures
        before_dot(a + seq!['.'] + b) == a,
    decreases a.len(),
{
    let s = a + seq!['.'] + b;
    if a.len() > 0 {
        assert(s.drop_first() =~= a.drop_first() + seq!['.'] + b);
        lemma_before_dot(a.drop_first(), b);
        assert(s[0] == a[0]);
        assert(seq![s[0]] + a.drop_first() =~= a);
    } else {
        assert(s[0] == '.');
    }
}

/// The number of a segment is read back from the name of its file.
pub proof fn segment_numbers_are_read_back(seq: nat, t: TrackType)
    requires
        seq <= 999_999,
    ensures
        number_in(segment_name(seq, t)) == seq,
{
    let p = text::padded(seq, 6);
    text::padded_numbers_are_read_back(seq, 6);
    reveal_strlit(".");
    assert("."@ =~= seq!['.']);
    assert forall|i: int| 0 <= i < p.len() implies #[trigger] p[i] != '.' by {
        assert('0' <= p[i] <= '9');
    }
    lemma_before_dot(p, extension_of(t));
    assert(p.len() == 6) by {
        reveal_with_fuel(text::padded, 6);
    }
    assert('0' <= p[0] <= '9');
}

proof fn lemma_largest(names: Seq<Seq<char>>, n: nat, i: int)
    requires
        0 <= i < n <= names.len(),
    ensures
        number_in(names[i]) <= largest_number(names, n),
    decreases n,
{
    if i < n - 1 {
        lemma_largest(names, (n - 1) as nat, i);
    }
}

proof fn lemma_largest_attained(names: Seq<Seq<char>>, n: nat)
    requires
        n <= names.len(),
    ensures
        largest_number(names, n) == 0 || exists|i: int|
            0 <= i < n && number_in(#[trigger] names[i]) == largest_number(names, n),
    decreases n,
{
    if n > 0 {
        lemma_largest_attained(names, (n - 1) as nat);
        let before = largest_number(names, (n - 1) as nat);
        if largest_number(names, n) == before {
            if before != 0 {
                let i = choose|i: int| 0 <= i < n - 1 && number_in(#[trigger] names[i]) == before;
                assert(number_in(names[i]) == before);
            }
        } else {
            assert(number_in(names[n - 1]) == largest_number(names, n));
        }
    }
}

/// A new segment takes the number behind the largest that is there, so that its file is none
/// of those that are.
pub proof fn new_segments_have_new_names(names: Seq<Seq<char>>, t: TrackType)
    requires
        largest_number(names, names.len()) < 999_999,
    ensures
        !names.contains(segment_name(largest_number(names, names.len()) + 1, t)),
        forall|i: int|
            0 <= i < names.len() ==> number_in(#[trigger] names[i]) <= largest_number(
                names,
                names.len(),
            ),
        largest_number(names, names.len()) == 0 || exists|i: int|
            0 <= i < names.len() && number_in(#[trigger] names[i]) == largest_number(
                names,
                names.len(),
            ),
{
    let top = largest_number(names, names.len());
    segment_numbers_are_read_back(top + 1, t);
    lemma_largest_attained(names, names.len());
    assert forall|i: int| 0 <= i < names.len() implies number_in(#[trigger] names[i]) <= top by {
        lemma_largest(names, names.len(), i);
    }
    if names.contains(segment_name(top + 1, t)) {
        let i = choose|i: int| 0 <= i < names.len() && names[i] == segment_name(top + 1, t);
        assert(number_in(names[i]) <= top);
    }
}

} // verus!
