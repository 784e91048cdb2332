//! The append-only journal: its records, their numbers, and its lines.
use crate::text;
use vstd::prelude::*;
use vstd::string::*;

verus! {

/// One line of the journal.
#[derive(Debug, PartialEq)]
pub enum JournalRecord {
    SegmentCommitted {
        seq: u64,
        track_id: String,
        relative_path: String,
        start_us: u64,
        end_us: u64,
        size_bytes: u64,
        is_keyframe_start: bool,
        /// Ticks per second of the media clock; zero when there is none.
        media_timescale: u32,
        /// Media-clock value at which the segment starts.
        media_start_value: i64,
        /// Host-clock anchor at which that value was published.
        host_anchor_us: i64,
    },
    Discontinuity { seq: u64, track_id: String, t_us: u64, reason: String },
    PauseStarted { seq: u64, t_us: u64 },
    PauseEnded { seq: u64, start_us: u64, end_us: u64 },
    UnindexedSegmentRecovered {
        seq: u64,
        track_id: String,
        relative_path: String,
        start_us: u64,
        end_us: u64,
        size_bytes: u64,
        media_timescale: u32,
        media_start_value: i64,
        host_anchor_us: i64,
    },
    Checkpoint { seq: u64, t_us: u64, total_duration_us: u64 },
    RuntimeError {
        seq: u64,
        track_id: String,
        error_code: i32,
        message: String,
        t_us: u64,
        recoverable: bool,
    },
}

impl JournalRecord {
    /// The record's number.
    pub open spec fn number(self) -> u64 {
        match self {
            JournalRecord::SegmentCommitted { seq, .. } => seq,
            JournalRecord::Discontinuity { seq, .. } => seq,
            JournalRecord::PauseStarted { seq, .. } => seq,
            JournalRecord::PauseEnded { seq, .. } => seq,
            JournalRecord::UnindexedSegmentRecovered { seq, .. } => seq,
            JournalRecord::Checkpoint { seq, .. } => seq,
            JournalRecord::RuntimeError { seq, .. } => seq,
        }
    }

    /// The record with another number.
    pub open spec fn numbered(self, n: u64) -> JournalRecord {
        match self {
            JournalRecord::SegmentCommitted {
                seq: _,
                track_id,
                relative_path,
                start_us,
                end_us,
                size_bytes,
                is_keyframe_start,
                media_timescale,
                media_start_value,
                host_anchor_us,
            } => JournalRecord::SegmentCommitted {
                seq: n,
                track_id,
                relative_path,
                start_us,
                end_us,
                size_bytes,
                is_keyframe_start,
                media_timescale,
                media_start_value,
                host_anchor_us,
            },
            JournalRecord::Discontinuity { seq: _, track_id, t_us, reason } =>
                JournalRecord::Discontinuity { seq: n, track_id, t_us, reason },
            JournalRecord::PauseStarted { seq: _, t_us } => JournalRecord::PauseStarted {
                seq: n,
                t_us,
            },
            JournalRecord::PauseEnded { seq: _, start_us, end_us } => JournalRecord::PauseEnded {
                seq: n,
                start_us,
                end_us,
            },
            JournalRecord::UnindexedSegmentRecovered {
                seq: _,
                track_id,
                relative_path,
                start_us,
                end_us,
                size_bytes,
                media_timescale,
                media_start_value,
                host_anchor_us,
            } => JournalRecord::UnindexedSegmentRecovered {
                seq: n,
                track_id,
                relative_path,
                start_us,
                end_us,
                size_bytes,
                media_timescale,
                media_start_value,
                host_anchor_us,
            },
            JournalRecord::Checkpoint { seq: _, t_us, total_duration_us } =>
                JournalRecord::Checkpoint { seq: n, t_us, total_duration_us },
            JournalRecord::RuntimeError {
                seq: _,
                track_id,
                error_code,
                message,
                t_us,
                recoverable,
            } => JournalRecord::RuntimeError {
                seq: n,
                track_id,
                error_code,
                message,
                t_us,
                recoverable,
            },
        }
    }

    pub fn seq(&self) -> (n: u64)
        ensures
            n == self.number(),
    {
        match self {
            JournalRecord::SegmentCommitted { seq, .. } => *seq,
            JournalRecord::Discontinuity { seq, .. } => *seq,
            JournalRecord::PauseStarted { seq, .. } => *seq,
            JournalRecord::PauseEnded { seq, .. } => *seq,
            JournalRecord::UnindexedSegmentRecovered { seq, .. } => *seq,
            JournalRecord::Checkpoint { seq, .. } => *seq,
            JournalRecord::RuntimeError { seq, .. } => *seq,
        }
    }

    pub fn set_seq(&mut self, new_seq: u64)
        ensures
            *final(self) == old(self).numbered(new_seq),
    {
        match self {
            JournalRecord::SegmentCommitted { seq, .. } => {
                *seq = new_seq;
            },
            JournalRecord::Discontinuity { seq, .. } => {
                *seq = new_seq;
            },
            JournalRecord::PauseStarted { seq, .. } => {
                *seq = new_seq;
            },
            JournalRecord::PauseEnded { seq, .. } => {
                *seq = new_seq;
            },
            JournalRecord::UnindexedSegmentRecovered { seq, .. } => {
                *seq = new_seq;
            },
            JournalRecord::Checkpoint { seq, .. } => {
                *seq = new_seq;
            },
            JournalRecord::RuntimeError { seq, .. } => {
                *seq = new_seq;
            },
        }
    }
}

/// Why a journal could not be used.
#[derive(Debug, PartialEq)]
pub enum JournalError {
    Io(String),
    Serde(String),
    /// The number of a line that is no record, and why.
    CorruptLine(usize, String),
    /// A failure that was asked for.
    Injected,
}

impl JournalError {
    /// The message for people.
    pub open spec fn text(self) -> Seq<char> {
        match self {
            JournalError::Io(e) => "IO error: "@ + e@,
            JournalError::Serde(e) => "Serialization error: "@ + e@,
            JournalError::CorruptLine(n, e) => "Corrupt journal: unparseable line "@
                + text::decimal(n as nat) + ": "@ + e@,
            JournalError::Injected => "injected failure: journal append"@,
        }
    }

    /// The message for people.
    pub fn message(&self) -> (t: String)
        ensures
            t@ == self.text(),
    {
        match self {
            JournalError::Io(e) => {
                let mut t: String = "IO error: ".to_owned();
                t.append(e.as_str());
                t
            },
            JournalError::Serde(e) => {
                let mut t: String = "Serialization error: ".to_owned();
                t.append(e.as_str());
                t
            },
            JournalError::CorruptLine(n, e) => {
                let mut t: String = "Corrupt journal: unparseable line ".to_owned();
                text::push_decimal(&mut t, *n as u64);
                t.append(": ");
                t.append(e.as_str());
                t
            },
            JournalError::Injected => "injected failure: journal append".to_owned(),
        }
    }
}

/// The numbering of an open journal. A record gets its number when it is staged,
/// and the number is used up only once the record is on disk.
#[derive(Debug, Clone, Copy, PartialEq, Eq, Structural)]
pub struct ProjectJournal {
    next_seq: u64,
    fail_next_appends: u32,
}

impl ProjectJournal {
    /// The number of the next record.
    pub closed spec fn next(self) -> nat {
        self.next_seq as nat
    }

    /// The number of appends that are to fail.
    pub closed spec fn failing(self) -> nat {
        self.fail_next_appends as nat
    }

    /// Continues after the records that a journal holds.
    pub fn continue_after(records: &Vec<JournalRecord>) -> (j: Self)
        requires
            records@.len() > 0 ==> records@.last().number() < u64::MAX,
        ensures
            j.failing() == 0,
            j.next() == if records@.len() == 0 {
                0
            } else {
                records@.last().number() + 1
            },
    {
        let next_seq: u64 = if records.len() == 0 {
            0
        } else {
            records[records.len() - 1].seq() + 1
        };
        ProjectJournal { next_seq, fail_next_appends: 0 }
    }

    /// Lets the next `n` appends fail without writing. They use up no numbers.
    pub fn inject_fail_next_appends(&mut self, n: u32)
        ensures
            final(self).next() == old(self).next(),
            final(self).failing() == n,
    {
        self.fail_next_appends = n;
    }

    /// The record to write, with the next number; an error where an append is to
    /// fail.
    pub fn stage(&mut self, record: JournalRecord) -> (r: Result<JournalRecord, JournalError>)
        ensures
            final(self).next() == old(self).next(),
            match r {
                Ok(staged) => old(self).failing() == 0 && final(self).failing() == 0 && staged
                    == record.numbered(old(self).next() as u64),
                Err(e) => old(self).failing() > 0 && final(self).failing() == old(self).failing()
                    - 1 && e is Injected,
            },
    {
        if self.fail_next_appends > 0 {
            self.fail_next_appends = self.fail_next_appends - 1;
            return Err(JournalError::Injected);
        }
        let mut staged = record;
        staged.set_seq(self.next_seq);
        Ok(staged)
    }

    /// Uses up the number of a staged record that is on disk, and returns it.
    pub fn written(&mut self) -> (seq: u64)
        requires
            old(self).next() < u64::MAX,
        ensures
            seq == old(self).next(),
            final(self).next() == old(self).next() + 1,
            final(self).failing() == old(self).failing(),
    {
        let seq: u64 = self.next_seq;
        self.next_seq = self.next_seq + 1;
        seq
    }
}

/// The longest prefix of `s` that is empty or ends with a line feed.
pub open spec fn whole_lines(s: Seq<u8>) -> Seq<u8>
    decreases s.len(),
{
    if s.len() == 0 || s.last() == 10 {
        s
    } else {
        whole_lines(s.drop_last())
    }
}

/// The length to which a journal is cut, so that an incomplete last line, left by
/// a crash, is gone.
pub fn repaired_len(data: &[u8]) -> (n: usize)
    ensures
        n <= data@.len(),
        data@.take(n as int) == whole_lines(data@),
{
    let mut n: usize = data.len();
    assert(data@.take(n as int) =~= data@);
    while n > 0 && data[n - 1] != 10
        invariant
            n <= data@.len(),
            whole_lines(data@) == whole_lines(data@.take(n as int)),
        ensures
            n <= data@.len(),
            data@.take(n as int) == whole_lines(data@),
        decreases n,
    {
        assert(data@.take(n as int).drop_last() =~= data@.take(n - 1));
        n = n - 1;
    }
    n
}

/// Repairing changes nothing in a journal whose last line is complete, and after a
/// repair there is nothing left to repair.
pub proof fn repair_is_idempotent(s: Seq<u8>)
    ensures
        s.len() == 0 || s.last() == 10 ==> whole_lines(s) == s,
        whole_lines(whole_lines(s)) == whole_lines(s),
        whole_lines(s).len() == 0 || whole_lines(s).last() == 10,
    decreases s.len(),
{
    if s.len() > 0 && s.last() != 10 {
        repair_is_idempotent(s.drop_last());
    }
}

/// A repair keeps every complete line: what it cuts off holds no line feed.
pub proof fn repair_keeps_complete_lines(s: Seq<u8>)
    ensures
        whole_lines(s).len() <= s.len(),
        whole_lines(s) == s.take(whole_lines(s).len() as int),
        forall|i: int| whole_lines(s).len() <= i < s.len() ==> #[trigger] s[i] != 10,
    decreases s.len(),
{
    if s.len() > 0 && s.last() != 10 {
        let t = s.drop_last();
        repair_keeps_complete_lines(t);
        assert(t.take(whole_lines(t).len() as int) =~= s.take(whole_lines(t).len() as int));
        assert forall|i: int| whole_lines(s).len() <= i < s.len() implies #[trigger] s[i] != 10 by {
            if i < t.len() {
                assert(t[i] != 10);
            }
        }
    } else {
        assert(s.take(s.len() as int) =~= s);
    }
}

/// The end of the line that starts at `at`: behind its line feed, or at the end.
pub open spec fn line_end(s: Seq<u8>, at: int) -> int
    decreases s.len() - at,
{
    if at >= s.len() {
        s.len() as int
    } else if s[at] == 10 {
        at + 1
    } else {
        line_end(s, at + 1)
    }
}

/// The lines of `s` from `at` on, as offsets of their starts and ends.
pub open spec fn lines_from(s: Seq<u8>, at: int) -> Seq<(int, int)>
    decreases s.len() - at,
    when 0 <= at
    via lines_from_decreases
{
    if at >= s.len() {
        Seq::empty()
    } else {
        seq![(at, line_end(s, at))] + lines_from(s, line_end(s, at))
    }
}

#[via_fn]
proof fn lines_from_decreases(s: Seq<u8>, at: int) {
    lemma_line_end(s, at);
}

/// A line is not empty and ends within the text.
pub proof fn lemma_line_end(s: Seq<u8>, at: int)
    requires
        0 <= at,
    ensures
        at < s.len() ==> at < line_end(s, at) <= s.len(),
        at >= s.len() ==> line_end(s, at) == s.len(),
    decreases s.len() - at,
{
    if at < s.len() && s[at] != 10 {
        lemma_line_end(s, at + 1);
    }
}

/// The end of the line that starts at `at`.
pub fn find_line_end(data: &[u8], at: usize) -> (end: usize)
    requires
        at <= data@.len(),
    ensures
        end == line_end(data@, at as int),
        at <= end <= data@.len(),
        at < data@.len() ==> at < end,
{
    let mut i: usize = at;
    while i < data.len()
        invariant
            at <= i <= data@.len(),
            line_end(data@, at as int) == line_end(data@, i as int),
        decreases data@.len() - i,
    {
        if data[i] == 10 {
            return i + 1;
        }
        i = i + 1;
    }
    i
}

/// The lines of a journal, as offsets of their starts and ends. An end is behind
/// the line feed, where there is one.
pub fn journal_lines(data: &[u8]) -> (lines: Vec<(usize, usize)>)
    ensures
        lines@.map_values(|l: (usize, usize)| (l.0 as int, l.1 as int)) == lines_from(data@, 0),
{
    let mut lines: Vec<(usize, usize)> = Vec::new();
    let mut at: usize = 0;
    let ghost f = |l: (usize, usize)| (l.0 as int, l.1 as int);
    assert(lines@.map_values(f) + lines_from(data@, 0) =~= lines_from(data@, 0));
    while at < data.len()
        invariant
            at <= data@.len(),
            f == (|l: (usize, usize)| (l.0 as int, l.1 as int)),
            lines@.map_values(f) + lines_from(data@, at as int) == lines_from(data@, 0),
        decreases data@.len() - at,
    {
        let end: usize = find_line_end(data, at);
        let ghost before = lines@.map_values(f);
        lines.push((at, end));
        assert(lines@.map_values(f) + lines_from(data@, end as int) =~= before + lines_from(
            data@,
            at as int,
        ));
        at = end;
    }
    assert(lines@.map_values(f) =~= lines_from(data@, 0));
    lines
}

/// A number that is given to a record changes its number and nothing else: the last number
/// counts, and giving a record its own changes nothing.
pub proof fn numbering_changes_only_the_number(r: JournalRecord, a: u64, b: u64)
    ensures
        r.numbered(a).number() == a,
        r.numbered(a).numbered(b) == r.numbered(b),
        r.numbered(r.number()) == r,
{
}

proof fn lemma_line(s: Seq<u8>, at: int)
    requires
        0 <= at < s.len(),
    ensures
        at < line_end(s, at) <= s.len(),
        forall|i: int| at <= i < line_end(s, at) - 1 ==> #[trigger] s[i] != 10,
        s[line_end(s, at) - 1] == 10 || line_end(s, at) == s.len(),
    decreases s.len() - at,
{
    reveal_with_fuel(line_end, 2);
    if s[at] != 10 && at + 1 < s.len() {
        lemma_line(s, at + 1);
    }
}

/// A line ends behind the first line feed, or at the end of the data where there is none.
pub proof fn lines_end_at_line_feeds(s: Seq<u8>, at: int)
    requires
        0 <= at < s.len(),
    ensures
        at < line_end(s, at) <= s.len(),
        forall|i: int| at <= i < line_end(s, at) - 1 ==> #[trigger] s[i] != 10,
        s[line_end(s, at) - 1] == 10 || line_end(s, at) == s.len(),
{
    lemma_line(s, at);
}

/// The lines of a journal follow each other without gaps, from its start to its end, and each
/// ends behind its own line feed.
pub proof fn lines_follow_each_other(s: Seq<u8>, at: int, k: int)
    requires
        0 <= at <= s.len(),
        0 <= k < lines_from(s, at).len(),
    ensures
        ({
            let lines = lines_from(s, at);
            &&& lines[0].0 == at
            &&& lines[lines.len() - 1].1 == s.len()
            &&& lines[k].0 < lines[k].1
            &&& k > 0 ==> lines[k].0 == lines[k - 1].1
            &&& forall|i: int| lines[k].0 <= i < lines[k].1 - 1 ==> #[trigger] s[i] != 10
            &&& s[lines[k].1 - 1] == 10 || lines[k].1 == s.len()
        }),
    decreases k,
{
    let lines = lines_from(s, at);
    let end = line_end(s, at);
    lemma_line(s, at);
    let rest = lines_from(s, end);
    assert(lines == seq![(at, end)] + rest);
    lemma_last_line(s, at);
    if k > 0 {
        assert(lines[k] == rest[k - 1]);
        lines_follow_each_other(s, end, k - 1);
        if k > 1 {
            assert(lines[k - 1] == rest[k - 2]);
        }
    }
}

proof fn lemma_last_line(s: Seq<u8>, at: int)
    requires
        0 <= at < s.len(),
    ensures
        lines_from(s, at).len() > 0,
        lines_from(s, at)[lines_from(s, at).len() - 1].1 == s.len(),
    decreases s.len() - at,
{
    let end = line_end(s, at);
    lemma_line(s, at);
    let rest = lines_from(s, end);
    assert(lines_from(s, at) == seq![(at, end)] + rest);
    if end < s.len() {
        lemma_last_line(s, end);
        assert(lines_from(s, at)[rest.len() as int] == rest[rest.len() - 1]);
    }
}

} // verus!
