//! Validation of recorded media: fragmented and ordinary MP4, and WAV.
use crate::bytes;
use crate::project::fragment;
use crate::project::manifest::TrackType;
use crate::project::mp4;
use crate::project::sample_table;
use crate::text;
use vstd::prelude::*;
use vstd::string::*;

verus! {

/// Why recorded media is refused.
#[derive(Debug, PartialEq)]
pub enum MediaValidationError {
    /// The file is too small for its container; its size.
    FileTooSmall(u64),
    /// A box of a type that no recording holds.
    InvalidMp4Box(String),
    /// A box that exceeds the file: its size, its offset, and the file's size.
    InvalidMp4BoxSize(u64, u64, u64),
    MissingRequiredBoxes(String),
    /// A fragment without media data or samples; its sample count.
    EmptyMediaFragment(u64),
    NotKeyframeStart,
    InvalidWavHeader,
    ZeroFilledDummy,
    /// Size, version and reason.
    InvalidMdhdBox(u64, u8, String),
    /// Size and reason.
    InvalidElstBox(u64, String),
    Io(String),
}

/// What a recorded file holds.
#[derive(Debug, PartialEq)]
pub struct MediaValidationInfo {
    pub container_format: String,
    pub size_bytes: u64,
    pub start_us: u64,
    pub end_us: u64,
    pub duration_us: u64,
    pub sample_count: u64,
    pub is_keyframe_start: bool,
    /// Ticks per second of the media clock.
    pub media_timescale: u32,
    /// Media-clock value at which the first sample begins; edit lists can shift it.
    pub media_start_value: i64,
    /// Host-clock anchor, in microseconds; stamped where the segment is committed.
    pub host_anchor_us: i64,
}

/// `MediaValidationInfo` as numbers and characters.
pub struct MediaFacts {
    pub container_format: Seq<char>,
    pub size_bytes: nat,
    pub start_us: nat,
    pub end_us: nat,
    pub duration_us: nat,
    pub sample_count: nat,
    pub is_keyframe_start: bool,
    pub media_timescale: nat,
    pub media_start_value: int,
    pub host_anchor_us: int,
}

impl MediaValidationInfo {
    pub open spec fn facts(self) -> MediaFacts {
        MediaFacts {
            container_format: self.container_format@,
            size_bytes: self.size_bytes as nat,
            start_us: self.start_us as nat,
            end_us: self.end_us as nat,
            duration_us: self.duration_us as nat,
            sample_count: self.sample_count as nat,
            is_keyframe_start: self.is_keyframe_start,
            media_timescale: self.media_timescale as nat,
            media_start_value: self.media_start_value as int,
            host_anchor_us: self.host_anchor_us as int,
        }
    }
}

/// `MediaValidationError` as numbers and characters.
pub enum MediaRefusal {
    FileTooSmall(nat),
    InvalidMp4Box(Seq<char>),
    InvalidMp4BoxSize(nat, nat, nat),
    MissingRequiredBoxes(Seq<char>),
    EmptyMediaFragment(nat),
    NotKeyframeStart,
    InvalidWavHeader,
    ZeroFilledDummy,
    InvalidMdhdBox(nat, nat, Seq<char>),
    InvalidElstBox(nat, Seq<char>),
    Io(Seq<char>),
    /// The file is outside what the checks answer for: a sample frame is shorter than
    /// a byte.
    Undefined,
}

impl MediaValidationError {
    pub open spec fn refusal(self) -> MediaRefusal {
        match self {
            MediaValidationError::FileTooSmall(n) => MediaRefusal::FileTooSmall(n as nat),
            MediaValidationError::InvalidMp4Box(t) => MediaRefusal::InvalidMp4Box(t@),
            MediaValidationError::InvalidMp4BoxSize(a, b, c) => MediaRefusal::InvalidMp4BoxSize(
                a as nat,
                b as nat,
                c as nat,
            ),
            MediaValidationError::MissingRequiredBoxes(t) => MediaRefusal::MissingRequiredBoxes(t@),
            MediaValidationError::EmptyMediaFragment(n) => MediaRefusal::EmptyMediaFragment(
                n as nat,
            ),
            MediaValidationError::NotKeyframeStart => MediaRefusal::NotKeyframeStart,
            MediaValidationError::InvalidWavHeader => MediaRefusal::InvalidWavHeader,
            MediaValidationError::ZeroFilledDummy => MediaRefusal::ZeroFilledDummy,
            MediaValidationError::InvalidMdhdBox(n, v, t) => MediaRefusal::InvalidMdhdBox(
                n as nat,
                v as nat,
                t@,
            ),
            MediaValidationError::InvalidElstBox(n, t) => MediaRefusal::InvalidElstBox(n as nat, t@),
            MediaValidationError::Io(t) => MediaRefusal::Io(t@),
        }
    }

    /// The message for people.
    pub fn message(&self) -> (t: String)
        ensures
            t@ == refusal_text(self.refusal()),
    {
        match self {
            MediaValidationError::FileTooSmall(n) => {
                let mut t: String =
                    "File too small to contain valid media container (size: ".to_owned();
                text::push_decimal(&mut t, *n);
                t.append(" bytes)");
                t
            },
            MediaValidationError::InvalidMp4Box(kind) => {
                let mut t: String = "Invalid MP4 header: unknown box type ".to_owned();
                t.append(debug_text(kind.as_str()).as_str());
                t
            },
            MediaValidationError::InvalidMp4BoxSize(size, offset, len) => {
                let mut t: String = "Invalid MP4 box size ".to_owned();
                text::push_decimal(&mut t, *size);
                t.append(" at offset ");
                text::push_decimal(&mut t, *offset);
                t.append(": exceeds file size ");
                text::push_decimal(&mut t, *len);
                t
            },
            MediaValidationError::MissingRequiredBoxes(what) => {
                let mut t: String = "Missing required MP4 boxes: ".to_owned();
                t.append(what.as_str());
                t
            },
            MediaValidationError::EmptyMediaFragment(n) => {
                let mut t: String =
                    "Fragment missing media data or samples (sample_count: ".to_owned();
                text::push_decimal(&mut t, *n);
                t.append(")");
                t
            },
            MediaValidationError::NotKeyframeStart => {
                "Segment does not start with an independent keyframe".to_owned()
            },
            MediaValidationError::InvalidWavHeader => {
                "Invalid WAV header: expected RIFF/WAVE markers".to_owned()
            },
            MediaValidationError::ZeroFilledDummy => {
                "Zero-filled dummy file detected".to_owned()
            },
            MediaValidationError::InvalidMdhdBox(size, version, why) => {
                let mut t: String = "Invalid mdhd box (size ".to_owned();
                text::push_decimal(&mut t, *size);
                t.append(", version ");
                text::push_decimal(&mut t, *version as u64);
                t.append("): ");
                t.append(why.as_str());
                t
            },
            MediaValidationError::InvalidElstBox(size, why) => {
                let mut t: String = "Invalid elst box (size ".to_owned();
                text::push_decimal(&mut t, *size);
                t.append("): ");
                t.append(why.as_str());
                t
            },
            MediaValidationError::Io(why) => {
                let mut t: String = "IO error: ".to_owned();
                t.append(why.as_str());
                t
            },
        }
    }
}

/// A text as `Debug` prints it, quoted and escaped.
pub uninterp spec fn debug_of(s: Seq<char>) -> Seq<char>;

/// Formatting a `str` with `{:?}` quotes and escapes it. Which characters are
/// escaped, and how, is left to the standard library.
#[verifier::external_body]
fn debug_text(s: &str) -> (t: String)
    ensures
        t@ == debug_of(s@),
{
    format!("{:?}", s)
}

/// The message for a refusal.
pub open spec fn refusal_text(r: MediaRefusal) -> Seq<char> {
    match r {
        MediaRefusal::FileTooSmall(n) => "File too small to contain valid media container (size: "@
            + text::decimal(n) + " bytes)"@,
        MediaRefusal::InvalidMp4Box(kind) => "Invalid MP4 header: unknown box type "@ + debug_of(
            kind,
        ),
        MediaRefusal::InvalidMp4BoxSize(size, offset, len) => "Invalid MP4 box size "@
            + text::decimal(size) + " at offset "@ + text::decimal(offset)
            + ": exceeds file size "@ + text::decimal(len),
        MediaRefusal::MissingRequiredBoxes(what) => "Missing required MP4 boxes: "@ + what,
        MediaRefusal::EmptyMediaFragment(n) =>
            "Fragment missing media data or samples (sample_count: "@ + text::decimal(n) + ")"@,
        MediaRefusal::NotKeyframeStart => "Segment does not start with an independent keyframe"@,
        MediaRefusal::InvalidWavHeader => "Invalid WAV header: expected RIFF/WAVE markers"@,
        MediaRefusal::ZeroFilledDummy => "Zero-filled dummy file detected"@,
        MediaRefusal::InvalidMdhdBox(size, version, why) => "Invalid mdhd box (size "@
            + text::decimal(size) + ", version "@ + text::decimal(version) + "): "@ + why,
        MediaRefusal::InvalidElstBox(size, why) => "Invalid elst box (size "@ + text::decimal(size)
            + "): "@ + why,
        MediaRefusal::Io(why) => "IO error: "@ + why,
        MediaRefusal::Undefined => Seq::empty(),
    }
}

/// A track's media header: its clock rate, duration and language.
#[derive(Debug, Clone, Copy, PartialEq, Eq, Structural)]
pub struct MdhdInfo {
    pub version: u8,
    pub timescale: u32,
    pub duration_ticks: i64,
    /// ISO 639-2/T language code packed into a 15-bit value, or 0.
    pub language: u16,
}

/// Microseconds of `ticks` on a clock of `timescale` ticks a second. A clock that
/// does not run and ticks before its origin count nothing; the rest saturates.
pub open spec fn media_us(ticks: int, timescale: nat) -> nat {
    if timescale == 0 || ticks <= 0 {
        0
    } else if ticks * 1_000_000 / (timescale as int) > u64::MAX {
        u64::MAX as nat
    } else {
        (ticks * 1_000_000 / (timescale as int)) as nat
    }
}

impl MdhdInfo {
    /// Converts a media-clock value, in `timescale` ticks, to microseconds.
    /// Saturates at `u64::MAX`.
    pub fn ticks_to_us(&self, ticks: i64) -> (us: u64)
        ensures
            us == media_us(ticks as int, self.timescale as nat),
    {
        if self.timescale == 0 || ticks <= 0 {
            return 0;
        }
        let scaled: u128 = (ticks as u128) * 1_000_000;
        let us: u128 = scaled / (self.timescale as u128);
        assert(us == ticks * 1_000_000 / (self.timescale as int));
        if us > u64::MAX as u128 {
            u64::MAX
        } else {
            us as u64
        }
    }
}

/// A track's edit list.
#[derive(Debug, Clone, Copy, PartialEq, Eq, Structural)]
pub struct ElstInfo {
    pub version: u8,
    /// Media time of the first edit entry, in media-clock ticks; `None` when that
    /// entry is an empty edit.
    pub first_media_time: Option<i64>,
    /// Segment duration of the first edit entry that is not empty, in ticks of the
    /// movie clock, which `MdhdInfo` does not describe; that of the first entry when
    /// all that are there are empty.
    pub first_segment_duration: i64,
}

/// What an `mdhd` payload says.
pub open spec fn mdhd_of(p: Seq<u8>) -> Result<MdhdInfo, Seq<char>> {
    if p.len() < 4 {
        Err("mdhd payload too small"@)
    } else if p[0] == 0 {
        if p.len() < 24 {
            Err("mdhd v0 too small"@)
        } else {
            Ok(
                (MdhdInfo {
                    version: 0,
                    timescale: bytes::be32(p, 12) as u32,
                    duration_ticks: bytes::be32(p, 16) as i64,
                    language: (bytes::be16(p, 20) % 0x8000) as u16,
                }),
            )
        }
    } else if p[0] == 1 {
        if p.len() < 36 {
            Err("mdhd v1 too small"@)
        } else {
            Ok(
                (MdhdInfo {
                    version: 1,
                    timescale: bytes::be32(p, 20) as u32,
                    duration_ticks: bytes::signed64(bytes::be64(p, 24)) as i64,
                    language: (bytes::be16(p, 32) % 0x8000) as u16,
                }),
            )
        }
    } else {
        Err("unsupported mdhd version "@ + text::decimal(p[0] as nat))
    }
}

/// The length of an edit list's entry.
pub open spec fn edit_size(p: Seq<u8>) -> int {
    if p[0] == 1 {
        20
    } else {
        12
    }
}

/// Where an edit list's entry starts.
pub open spec fn edit_start(p: Seq<u8>, i: int) -> int {
    8 + i * edit_size(p)
}

/// The segment duration of an edit list's entry.
pub open spec fn edit_duration(p: Seq<u8>, i: int) -> int {
    if p[0] == 1 {
        bytes::signed64(bytes::be64(p, edit_start(p, i)))
    } else {
        bytes::be32(p, edit_start(p, i)) as int
    }
}

/// The media time of an edit list's entry; an empty edit has -1.
pub open spec fn edit_time(p: Seq<u8>, i: int) -> int {
    if p[0] == 1 {
        bytes::signed64(bytes::be64(p, edit_start(p, i) + 8))
    } else {
        bytes::signed32(bytes::be32(p, edit_start(p, i) + 4))
    }
}

/// The first entry from `i` on, of `n` in all, that is not empty; `None` if all that are
/// there are empty. An entry that is cut short is not there.
pub open spec fn first_edit(p: Seq<u8>, i: int, n: int) -> Option<int>
    decreases n - i,
{
    if i >= n || p.len() < edit_start(p, i + 1) {
        None
    } else if edit_time(p, i) != -1 {
        Some(i)
    } else {
        first_edit(p, i + 1, n)
    }
}

/// What an `elst` payload says.
pub open spec fn elst_of(p: Seq<u8>) -> Result<ElstInfo, Seq<char>> {
    let n = bytes::be32(p, 4) as int;
    if p.len() < 8 {
        Err("elst payload too small"@)
    } else if n == 0 {
        Ok((ElstInfo { version: p[0], first_media_time: None, first_segment_duration: 0 }))
    } else if p.len() < edit_start(p, 1) {
        Err("elst entry truncated"@)
    } else {
        Ok(
            (ElstInfo {
                version: p[0],
                first_media_time: if edit_time(p, 0) == -1 {
                    None
                } else {
                    Some(edit_time(p, 0) as i64)
                },
                first_segment_duration: match first_edit(p, 0, n) {
                    Some(i) => edit_duration(p, i) as i64,
                    None => edit_duration(p, 0) as i64,
                },
            }),
        )
    }
}

/// The first media header among the boxes from `at` to `end`, or `found`.
pub open spec fn scan_mdia(s: Seq<u8>, at: int, end: int, found: Option<MdhdInfo>) -> Result<
    Option<MdhdInfo>,
    Seq<char>,
>
    decreases end - at,
{
    if at + 8 > end {
        Ok(found)
    } else {
        match mp4::box_at(s, at, end) {
            Err(t) => Err(t),
            Ok(b) => if b.kind == mp4::MDHD && found is None {
                match mdhd_of(s.subrange(b.payload, at + b.size)) {
                    Err(t) => Err(t),
                    Ok(m) => scan_mdia(s, at + b.size, end, Some(m)),
                }
            } else {
                scan_mdia(s, at + b.size, end, found)
            },
        }
    }
}

/// The last edit list among the boxes from `at` to `end`, or `found`.
pub open spec fn scan_edts(s: Seq<u8>, at: int, end: int, found: Option<ElstInfo>) -> Result<
    Option<ElstInfo>,
    Seq<char>,
>
    decreases end - at,
{
    if at + 8 > end {
        Ok(found)
    } else {
        match mp4::box_at(s, at, end) {
            Err(t) => Err(t),
            Ok(b) => if b.kind == mp4::ELST {
                match elst_of(s.subrange(b.payload, at + b.size)) {
                    Err(t) => Err(t),
                    Ok(e) => scan_edts(s, at + b.size, end, Some(e)),
                }
            } else {
                scan_edts(s, at + b.size, end, found)
            },
        }
    }
}

/// The media header and edit list after the boxes of a track from `at` to `end`.
/// Edit lists are read until one has been found.
pub open spec fn scan_trak(
    s: Seq<u8>,
    at: int,
    end: int,
    mdhd: Option<MdhdInfo>,
    elst: Option<ElstInfo>,
) -> Result<(Option<MdhdInfo>, Option<ElstInfo>), Seq<char>>
    decreases end - at,
{
    if at + 8 > end {
        Ok((mdhd, elst))
    } else {
        match mp4::box_at(s, at, end) {
            Err(t) => Err(t),
            Ok(b) => if b.kind == mp4::MDIA {
                match scan_mdia(s, b.payload, at + b.size, mdhd) {
                    Err(e) => Err(e),
                    Ok(m) => scan_trak(s, at + b.size, end, m, elst),
                }
            } else if b.kind == mp4::EDTS && elst is None {
                match scan_edts(s, b.payload, at + b.size, elst) {
                    Err(e) => Err(e),
                    Ok(e) => scan_trak(s, at + b.size, end, mdhd, e),
                }
            } else {
                scan_trak(s, at + b.size, end, mdhd, elst)
            },
        }
    }
}

/// The media header and edit list after the boxes of a movie from `at`.
pub open spec fn scan_movie(
    s: Seq<u8>,
    at: int,
    mdhd: Option<MdhdInfo>,
    elst: Option<ElstInfo>,
) -> Result<(Option<MdhdInfo>, Option<ElstInfo>), Seq<char>>
    decreases s.len() - at,
{
    if at + 8 > s.len() {
        Ok((mdhd, elst))
    } else {
        match mp4::box_at(s, at, s.len() as int) {
            Err(t) => Err(t),
            Ok(b) => if b.kind == mp4::TRAK {
                match scan_trak(s, b.payload, at + b.size, mdhd, elst) {
                    Err(e) => Err(e),
                    Ok(found) => scan_movie(s, at + b.size, found.0, found.1),
                }
            } else {
                scan_movie(s, at + b.size, mdhd, elst)
            },
        }
    }
}

/// What a whole `moov` box says: the first media header and the edit list of its
/// tracks.
pub open spec fn moov_of(s: Seq<u8>) -> Result<(MdhdInfo, Option<ElstInfo>), Seq<char>> {
    if s.len() < 8 {
        Err("moov too small"@)
    } else {
        match scan_movie(s, 8, None, None) {
            Err(e) => Err(e),
            Ok(found) => match found.0 {
                None => Err("missing mdhd"@),
                Some(m) => Ok((m, found.1)),
            },
        }
    }
}

fn read_mdia(data: &[u8], from: usize, end: usize, known: Option<MdhdInfo>) -> (r: Result<
    Option<MdhdInfo>,
    String,
>)
    requires
        from <= end <= data@.len(),
    ensures
        text::told(r) == scan_mdia(data@, from as int, end as int, known),
{
    let mut at: usize = from;
    let mut found: Option<MdhdInfo> = known;
    while end - at >= 8
        invariant
            from <= at <= end <= data@.len(),
            scan_mdia(data@, from as int, end as int, known) == scan_mdia(
                data@,
                at as int,
                end as int,
                found,
            ),
        decreases end - at,
    {
        let b = match mp4::read_box_header(data, at, end) {
            Ok(b) => b,
            Err(t) => {
                return Err(t);
            },
        };
        if b.kind == mp4::MDHD && found.is_none() {
            let payload = vstd::slice::slice_subrange(data, b.payload, at + b.size);
            match MediaValidator::parse_mdhd(payload) {
                Ok(m) => {
                    found = Some(m);
                },
                Err(t) => {
                    return Err(t);
                },
            }
        }
        at = at + b.size;
    }
    Ok(found)
}

fn read_edts(data: &[u8], from: usize, end: usize, known: Option<ElstInfo>) -> (r: Result<
    Option<ElstInfo>,
    String,
>)
    requires
        from <= end <= data@.len(),
    ensures
        text::told(r) == scan_edts(data@, from as int, end as int, known),
{
    let mut at: usize = from;
    let mut found: Option<ElstInfo> = known;
    while end - at >= 8
        invariant
            from <= at <= end <= data@.len(),
            scan_edts(data@, from as int, end as int, known) == scan_edts(
                data@,
                at as int,
                end as int,
                found,
            ),
        decreases end - at,
    {
        let b = match mp4::read_box_header(data, at, end) {
            Ok(b) => b,
            Err(t) => {
                return Err(t);
            },
        };
        if b.kind == mp4::ELST {
            let payload = vstd::slice::slice_subrange(data, b.payload, at + b.size);
            match MediaValidator::parse_elst(payload) {
                Ok(e) => {
                    found = Some(e);
                },
                Err(t) => {
                    return Err(t);
                },
            }
        }
        at = at + b.size;
    }
    Ok(found)
}

fn read_trak(
    data: &[u8],
    from: usize,
    end: usize,
    mdhd0: Option<MdhdInfo>,
    elst0: Option<ElstInfo>,
) -> (r: Result<(Option<MdhdInfo>, Option<ElstInfo>), String>)
    requires
        from <= end <= data@.len(),
    ensures
        text::told(r) == scan_trak(data@, from as int, end as int, mdhd0, elst0),
{
    let mut at: usize = from;
    let mut mdhd: Option<MdhdInfo> = mdhd0;
    let mut elst: Option<ElstInfo> = elst0;
    while end - at >= 8
        invariant
            from <= at <= end <= data@.len(),
            scan_trak(data@, from as int, end as int, mdhd0, elst0) == scan_trak(
                data@,
                at as int,
                end as int,
                mdhd,
                elst,
            ),
        decreases end - at,
    {
        let b = match mp4::read_box_header(data, at, end) {
            Ok(b) => b,
            Err(t) => {
                return Err(t);
            },
        };
        if b.kind == mp4::MDIA {
            match read_mdia(data, b.payload, at + b.size, mdhd) {
                Ok(m) => {
                    mdhd = m;
                },
                Err(e) => {
                    return Err(e);
                },
            }
        } else if b.kind == mp4::EDTS && elst.is_none() {
            match read_edts(data, b.payload, at + b.size, elst) {
                Ok(e) => {
                    elst = e;
                },
                Err(e) => {
                    return Err(e);
                },
            }
        }
        at = at + b.size;
    }
    Ok((mdhd, elst))
}

/// The readers and checks for recorded media.
pub struct MediaValidator;

impl MediaValidator {
    /// Reads the first media header of a `moov` box, and its tracks' edit list.
    pub fn parse_moov(data: &[u8]) -> (r: Result<(MdhdInfo, Option<ElstInfo>), String>)
        ensures
            text::told(r) == moov_of(data@),
    {
        if data.len() < 8 {
            return Err("moov too small".to_owned());
        }
        let end: usize = data.len();
        let mut at: usize = 8;
        let mut mdhd: Option<MdhdInfo> = None;
        let mut elst: Option<ElstInfo> = None;
        while end - at >= 8
            invariant
                8 <= at <= end == data@.len(),
                scan_movie(data@, 8, None, None) == scan_movie(data@, at as int, mdhd, elst),
            decreases end - at,
        {
            let b = match mp4::read_box_header(data, at, end) {
                Ok(b) => b,
                Err(t) => {
                    return Err(t);
                },
            };
            if b.kind == mp4::TRAK {
                match read_trak(data, b.payload, at + b.size, mdhd, elst) {
                    Ok(found) => {
                        mdhd = found.0;
                        elst = found.1;
                    },
                    Err(e) => {
                        return Err(e);
                    },
                }
            }
            at = at + b.size;
        }
        match mdhd {
            None => Err("missing mdhd".to_owned()),
            Some(m) => Ok((m, elst)),
        }
    }

    /// Reads an `mdhd` full box, version 0 or 1.
    pub fn parse_mdhd(payload: &[u8]) -> (r: Result<MdhdInfo, String>)
        ensures
            text::told(r) == mdhd_of(payload@),
    {
        if payload.len() < 4 {
            return Err("mdhd payload too small".to_owned());
        }
        let version: u8 = payload[0];
        if version == 0 {
            if payload.len() < 24 {
                return Err("mdhd v0 too small".to_owned());
            }
            Ok(
                MdhdInfo {
                    version,
                    timescale: bytes::read_be32(payload, 12),
                    duration_ticks: bytes::read_be32(payload, 16) as i64,
                    language: bytes::read_be16(payload, 20) % 0x8000,
                },
            )
        } else if version == 1 {
            if payload.len() < 36 {
                return Err("mdhd v1 too small".to_owned());
            }
            Ok(
                MdhdInfo {
                    version,
                    timescale: bytes::read_be32(payload, 20),
                    duration_ticks: bytes::to_signed64(bytes::read_be64(payload, 24)),
                    language: bytes::read_be16(payload, 32) % 0x8000,
                },
            )
        } else {
            let mut message: String = "unsupported mdhd version ".to_owned();
            text::push_decimal(&mut message, version as u64);
            Err(message)
        }
    }

    /// Reads an `elst` full box, version 0 or 1: the first entry's media time, and the
    /// segment duration of the first entry that is not empty.
    pub fn parse_elst(payload: &[u8]) -> (r: Result<ElstInfo, String>)
        ensures
            text::told(r) == elst_of(payload@),
    {
        let len: usize = payload.len();
        if len < 8 {
            return Err("elst payload too small".to_owned());
        }
        let version: u8 = payload[0];
        let n: u32 = bytes::read_be32(payload, 4);
        if n == 0 {
            return Ok(ElstInfo { version, first_media_time: None, first_segment_duration: 0 });
        }
        let size: usize = if version == 1 {
            20
        } else {
            12
        };
        if len - 8 < size {
            return Err("elst entry truncated".to_owned());
        }
        let (head_duration, head_time): (i64, i64) = read_edit(payload, 8);
        assert(edit_start(payload@, 0) == 8);
        let mut duration: i64 = head_duration;
        let mut i: u32 = 0;
        let mut at: usize = 8;
        let mut found: bool = false;
        while !found && i < n && len - at >= size
            invariant
                len == payload@.len(),
                i <= n,
                8 <= at <= len,
                size == edit_size(payload@),
                at == edit_start(payload@, i as int),
                head_duration == edit_duration(payload@, 0),
                if found {
                    first_edit(payload@, 0, n as int) matches Some(k) && duration == edit_duration(
                        payload@,
                        k,
                    )
                } else {
                    duration == head_duration && first_edit(payload@, 0, n as int) == first_edit(
                        payload@,
                        i as int,
                        n as int,
                    )
                },
            decreases n - i,
        {
            assert(edit_start(payload@, i + 1) == at + size) by (nonlinear_arith)
                requires
                    at == 8 + i * size,
                    edit_start(payload@, i + 1) == 8 + (i + 1) * size,
            ;
            let (d, time): (i64, i64) = read_edit(payload, at);
            if time != -1 {
                duration = d;
                found = true;
            }
            at = at + size;
            i = i + 1;
        }
        assert(edit_start(payload@, i + 1) == at + size) by (nonlinear_arith)
            requires
                at == 8 + i * size,
                edit_start(payload@, i + 1) == 8 + (i + 1) * size,
        ;
        Ok(
            ElstInfo {
                version,
                first_media_time: if head_time == -1 {
                    None
                } else {
                    Some(head_time)
                },
                first_segment_duration: duration,
            },
        )
    }
}

/// Reads the segment duration and the media time of the edit list entry at `at`.
fn read_edit(payload: &[u8], at: usize) -> (r: (i64, i64))
    requires
        8 <= at,
        at + edit_size(payload@) <= payload@.len(),
    ensures
        forall|i: int|
            at == #[trigger] edit_start(payload@, i) ==> r.0 == edit_duration(payload@, i) && r.1
                == edit_time(payload@, i),
{
    if payload[0] == 1 {
        (
            bytes::to_signed64(bytes::read_be64(payload, at)),
            bytes::to_signed64(bytes::read_be64(payload, at + 8)),
        )
    } else {
        (
            bytes::read_be32(payload, at) as i64,
            bytes::to_signed32(bytes::read_be32(payload, at + 4)),
        )
    }
}

/// Whether all of `s[from..to]` is zero.
pub open spec fn all_zero(s: Seq<u8>, from: int, to: int) -> bool {
    forall|i: int| from <= i < to ==> #[trigger] s[i] == 0
}

/// The stretch of up to 512 bytes from `from` that tells a dummy file.
pub open spec fn probe_end(s: Seq<u8>, from: int) -> int {
    if from + 512 <= s.len() {
        from + 512
    } else {
        s.len() as int
    }
}

fn is_zero_filled(data: &[u8], from: usize) -> (r: bool)
    requires
        from <= data@.len(),
    ensures
        r == all_zero(data@, from as int, probe_end(data@, from as int)),
{
    let end: usize = if data.len() - from >= 512 {
        from + 512
    } else {
        data.len()
    };
    let mut i: usize = from;
    while i < end
        invariant
            from <= i <= end <= data@.len(),
            end == probe_end(data@, from as int),
            all_zero(data@, from as int, i as int),
        decreases end - i,
    {
        if data[i] != 0 {
            return false;
        }
        i = i + 1;
    }
    true
}

/// The box types that a recording may hold at its top level. Writers also emit
/// `mfra` and `sidx` when they finish.
pub open spec fn known_box(kind: nat) -> bool {
    kind == mp4::FTYP || kind == mp4::MOOV || kind == mp4::MOOF || kind == mp4::MDAT || kind
        == mp4::FREE || kind == mp4::STYP || kind == mp4::SKIP || kind == mp4::WIDE || kind
        == mp4::PDIN || kind == mp4::UUID || kind == mp4::MFRA || kind == mp4::SIDX || kind
        == mp4::SSIX || kind == mp4::META
}

fn is_known_box(kind: u32) -> (r: bool)
    ensures
        r == known_box(kind as nat),
{
    kind == mp4::FTYP || kind == mp4::MOOV || kind == mp4::MOOF || kind == mp4::MDAT || kind
        == mp4::FREE || kind == mp4::STYP || kind == mp4::SKIP || kind == mp4::WIDE || kind
        == mp4::PDIN || kind == mp4::UUID || kind == mp4::MFRA || kind == mp4::SIDX || kind
        == mp4::SSIX || kind == mp4::META
}

/// The top-level boxes that matter, each as offset and size: the first movie, all
/// fragments, and the last media payload.
#[verifier::ext_equal]
pub struct TopLevel {
    pub typed: bool,
    pub moov: Option<(int, int)>,
    pub moofs: Seq<(int, int)>,
    pub mdat: Option<(int, int)>,
}

/// `top` with the box of type `kind` and `size` bytes at `at`.
pub open spec fn with_box(top: TopLevel, kind: nat, at: int, size: int) -> TopLevel {
    if kind == mp4::FTYP || kind == mp4::STYP {
        TopLevel { typed: true, ..top }
    } else if kind == mp4::MOOV {
        TopLevel {
            moov: if top.moov is None {
                Some((at, size))
            } else {
                top.moov
            },
            ..top
        }
    } else if kind == mp4::MOOF {
        TopLevel { moofs: top.moofs.push((at, size)), ..top }
    } else if kind == mp4::MDAT {
        TopLevel { mdat: Some((at, size)), ..top }
    } else {
        top
    }
}

/// The top-level boxes from `at` on, added to `top`.
pub open spec fn scan_top(s: Seq<u8>, at: int, top: TopLevel) -> Result<TopLevel, MediaRefusal>
    decreases s.len() - at,
{
    if at >= s.len() {
        Ok(top)
    } else if at + 8 > s.len() {
        Err(MediaRefusal::InvalidMp4BoxSize((s.len() - at) as nat, at as nat, s.len()))
    } else if !known_box(bytes::be32(s, at + 4)) {
        Err(MediaRefusal::InvalidMp4Box(text::utf8_lossy(s.subrange(at + 4, at + 8))))
    } else if bytes::be32(s, at) == 1 && at + 16 > s.len() {
        Err(MediaRefusal::InvalidMp4BoxSize(1, at as nat, s.len()))
    } else {
        let (size, header) = mp4::stated_size(s, at, s.len() as int);
        if !mp4::box_fits(size, header, at, s.len() as int) {
            Err(MediaRefusal::InvalidMp4BoxSize(size, at as nat, s.len()))
        } else {
            scan_top(s, at + size, with_box(top, bytes::be32(s, at + 4), at, size as int))
        }
    }
}

/// A file of which no box has been seen.
pub open spec fn no_boxes() -> TopLevel {
    TopLevel { typed: false, moov: None, moofs: Seq::empty(), mdat: None }
}

struct TopBoxes {
    typed: bool,
    moov: Option<(usize, usize)>,
    moofs: Vec<(usize, usize)>,
    mdat: Option<(usize, usize)>,
}

/// An extent as numbers.
pub open spec fn extent(e: (usize, usize)) -> (int, int) {
    (e.0 as int, e.1 as int)
}

/// An optional extent as numbers.
pub open spec fn extent_opt(e: Option<(usize, usize)>) -> Option<(int, int)> {
    match e {
        Some(x) => Some(extent(x)),
        None => None,
    }
}

impl TopBoxes {
    spec fn top(self) -> TopLevel {
        TopLevel {
            typed: self.typed,
            moov: extent_opt(self.moov),
            moofs: self.moofs@.map_values(|e: (usize, usize)| extent(e)),
            mdat: extent_opt(self.mdat),
        }
    }

    /// All extents lie in a file of `len` bytes.
    spec fn within(self, len: int) -> bool {
        &&& self.moov is Some ==> self.moov.unwrap().0 + self.moov.unwrap().1 <= len
        &&& self.mdat is Some ==> self.mdat.unwrap().0 + self.mdat.unwrap().1 <= len && self.mdat.unwrap().1 >= 8
        &&& forall|i: int|
            0 <= i < self.moofs@.len() ==> (#[trigger] self.moofs@[i]).0 + self.moofs@[i].1 <= len
    }
}

fn read_top(data: &[u8]) -> (r: Result<TopBoxes, MediaValidationError>)
    ensures
        match r {
            Ok(t) => scan_top(data@, 0, no_boxes()) == Ok::<TopLevel, MediaRefusal>(t.top())
                && t.within(data@.len() as int),
            Err(e) => scan_top(data@, 0, no_boxes()) == Err::<TopLevel, MediaRefusal>(e.refusal()),
        },
{
    let len: usize = data.len();
    let mut t = TopBoxes { typed: false, moov: None, moofs: Vec::new(), mdat: None };
    let mut at: usize = 0;
    assert(t.top() =~= no_boxes());
    while at < len
        invariant
            at <= len == data@.len(),
            t.within(data@.len() as int),
            scan_top(data@, 0, no_boxes()) == scan_top(data@, at as int, t.top()),
        decreases len - at,
    {
        if len - at < 8 {
            return Err(
                MediaValidationError::InvalidMp4BoxSize(
                    (len - at) as u64,
                    at as u64,
                    len as u64,
                ),
            );
        }
        let raw: u32 = bytes::read_be32(data, at);
        let kind: u32 = bytes::read_be32(data, at + 4);
        if !is_known_box(kind) {
            let name = vstd::slice::slice_subrange(data, at + 4, at + 8);
            return Err(MediaValidationError::InvalidMp4Box(text::from_utf8_lossy(name)));
        }
        let mut size: u64 = raw as u64;
        let mut header: u64 = 8;
        if raw == 1 {
            if len - at < 16 {
                return Err(MediaValidationError::InvalidMp4BoxSize(1, at as u64, len as u64));
            }
            size = bytes::read_be64(data, at + 8);
            header = 16;
        } else if raw == 0 {
            size = (len - at) as u64;
        }
        if size < header || size > (len - at) as u64 {
            return Err(MediaValidationError::InvalidMp4BoxSize(size, at as u64, len as u64));
        }
        let span: usize = size as usize;
        let ghost before = t.top();
        if kind == mp4::FTYP || kind == mp4::STYP {
            t.typed = true;
        } else if kind == mp4::MOOV {
            if t.moov.is_none() {
                t.moov = Some((at, span));
            }
        } else if kind == mp4::MOOF {
            t.moofs.push((at, span));
        } else if kind == mp4::MDAT {
            t.mdat = Some((at, span));
        }
        assert(t.top() =~= with_box(before, kind as nat, at as int, span as int));
        at = at + span;
    }
    Ok(t)
}

/// A sum of ticks, saturating.
pub open spec fn clamp_i64(n: int) -> int {
    if n > i64::MAX {
        i64::MAX as int
    } else {
        n
    }
}

/// A count of samples, saturating.
pub open spec fn clamp_u64(n: nat) -> nat {
    if n > u64::MAX {
        u64::MAX as nat
    } else {
        n
    }
}

/// The fragment in the box at `e`.
pub open spec fn fragment_at(s: Seq<u8>, e: (int, int)) -> fragment::Fragment {
    fragment::scan_moof(s.subrange(e.0, e.0 + e.1), 8, fragment::no_fragment())
}

/// The duration of a fragment's samples, in ticks.
pub open spec fn fragment_ticks(f: fragment::Fragment) -> int {
    clamp_i64(f.sample_ticks * f.samples)
}

/// The ticks and samples of the fragments from `i` on, added to `ticks` and
/// `samples`; `None` when one of them is empty.
pub open spec fn sum_fragments(
    s: Seq<u8>,
    moofs: Seq<(int, int)>,
    i: int,
    ticks: int,
    samples: nat,
) -> Option<(int, nat)>
    decreases moofs.len() - i,
{
    if i >= moofs.len() {
        Some((ticks, samples))
    } else {
        let f = fragment_at(s, moofs[i]);
        if f.samples == 0 {
            None
        } else {
            sum_fragments(
                s,
                moofs,
                i + 1,
                clamp_i64(ticks + fragment_ticks(f)),
                clamp_u64(samples + f.samples as nat),
            )
        }
    }
}

/// What a movie without usable sample tables says: the fragments' timing, moved by
/// the edit list.
pub open spec fn fragmented_facts(
    s: Seq<u8>,
    moofs: Seq<(int, int)>,
    mdhd: MdhdInfo,
    elst: Option<ElstInfo>,
) -> Result<MediaFacts, MediaRefusal> {
    if moofs.len() == 0 {
        Err(MediaRefusal::MissingRequiredBoxes("No sample table or media fragment"@))
    } else {
        match sum_fragments(s, moofs, 0, 0, 0) {
            None => Err(MediaRefusal::EmptyMediaFragment(0)),
            Some((ticks, samples)) => {
                let first = fragment_at(s, moofs[0]);
                let start: int = match elst {
                    Some(e) => match e.first_media_time {
                        Some(t) if t >= 0 => t as int,
                        _ => first.start_ticks as int,
                    },
                    None => first.start_ticks as int,
                };
                let total: int = if mdhd.duration_ticks > ticks {
                    mdhd.duration_ticks as int
                } else {
                    ticks
                };
                let start_us = media_us(start, mdhd.timescale as nat);
                let duration_us = media_us(total, mdhd.timescale as nat);
                if !first.keyframe {
                    Err(MediaRefusal::NotKeyframeStart)
                } else {
                    Ok(
                        (MediaFacts {
                            container_format: "mp4"@,
                            size_bytes: s.len(),
                            start_us,
                            end_us: clamp_u64(start_us + duration_us),
                            duration_us,
                            sample_count: samples,
                            is_keyframe_start: true,
                            media_timescale: mdhd.timescale as nat,
                            media_start_value: start,
                            host_anchor_us: 0,
                        }),
                    )
                }
            },
        }
    }
}

/// What a movie with usable sample tables says.
pub open spec fn tabled_facts(len: nat, mdhd: MdhdInfo, ticks: nat, samples: nat) -> MediaFacts {
    let total: int = if mdhd.duration_ticks > ticks {
        mdhd.duration_ticks as int
    } else {
        ticks as int
    };
    let duration_us = media_us(total, mdhd.timescale as nat);
    MediaFacts {
        container_format: "mp4"@,
        size_bytes: len,
        start_us: 0,
        end_us: duration_us,
        duration_us,
        sample_count: samples,
        is_keyframe_start: true,
        media_timescale: mdhd.timescale as nat,
        media_start_value: 0,
        host_anchor_us: 0,
    }
}

/// What the movie box and the media payload of an MP4 file say. Writers finish
/// recordings with sample tables even where fragments are left over, so tables
/// that hold samples come first.
pub open spec fn movie_facts(
    s: Seq<u8>,
    moov: (int, int),
    mdat: (int, int),
    moofs: Seq<(int, int)>,
) -> Result<MediaFacts, MediaRefusal> {
    let movie = s.subrange(moov.0, moov.0 + moov.1);
    match moov_of(movie) {
        Err(t) => Err(MediaRefusal::InvalidMdhdBox(moov.1 as nat, 0, t)),
        Ok((mdhd, elst)) => match sample_table::sample_table_of(
            movie,
            (mdat.0 as nat, mdat.1 as nat),
        ) {
            Ok((ticks, samples)) => Ok(tabled_facts(s.len(), mdhd, ticks, samples)),
            Err(_) => fragmented_facts(s, moofs, mdhd, elst),
        },
    }
}

/// What an MP4 file says.
pub open spec fn fmp4_facts(s: Seq<u8>) -> Result<MediaFacts, MediaRefusal> {
    if s.len() < 8 {
        Err(MediaRefusal::FileTooSmall(s.len()))
    } else if all_zero(s, 0, probe_end(s, 0)) {
        Err(MediaRefusal::ZeroFilledDummy)
    } else {
        match scan_top(s, 0, no_boxes()) {
            Err(e) => Err(e),
            Ok(top) => if !top.typed {
                Err(MediaRefusal::MissingRequiredBoxes("Missing ftyp/styp header"@))
            } else {
                match (top.moov, top.mdat) {
                    (None, _) => Err(MediaRefusal::MissingRequiredBoxes("Missing moov movie box"@)),
                    (_, None) => Err(
                        MediaRefusal::MissingRequiredBoxes("Missing mdat media data"@),
                    ),
                    (Some(moov), Some(mdat)) => if mdat.1 <= 8 {
                        Err(MediaRefusal::EmptyMediaFragment(0))
                    } else {
                        movie_facts(s, moov, mdat, top.moofs)
                    },
                }
            },
        }
    }
}

/// What a check says; `None` stands for a file that it does not answer for.
pub open spec fn examined(
    r: Option<Result<MediaValidationInfo, MediaValidationError>>,
) -> Result<MediaFacts, MediaRefusal> {
    match r {
        None => Err(MediaRefusal::Undefined),
        Some(Ok(info)) => Ok(info.facts()),
        Some(Err(e)) => Err(e.refusal()),
    }
}

#[verifier::loop_isolation(false)]
fn check_fragments(
    data: &[u8],
    moofs: &Vec<(usize, usize)>,
    mdhd: MdhdInfo,
    elst: Option<ElstInfo>,
) -> (r: Result<MediaValidationInfo, MediaValidationError>)
    requires
        forall|i: int|
            0 <= i < moofs@.len() ==> (#[trigger] moofs@[i]).0 + moofs@[i].1 <= data@.len(),
    ensures
        examined(Some(r)) == fragmented_facts(
            data@,
            moofs@.map_values(|e: (usize, usize)| extent(e)),
            mdhd,
            elst,
        ),
{
    let ghost spans = moofs@.map_values(|e: (usize, usize)| extent(e));
    if moofs.len() == 0 {
        return Err(
            MediaValidationError::MissingRequiredBoxes(
                "No sample table or media fragment".to_owned(),
            ),
        );
    }
    let mut ticks: i64 = 0;
    let mut samples: u64 = 0;
    let mut start: i64 = 0;
    let mut keyframe: bool = false;
    let mut i: usize = 0;
    while i < moofs.len()
        invariant
            i <= moofs@.len(),
            0 <= ticks,
            i > 0 ==> start == fragment_at(data@, spans[0]).start_ticks && keyframe == fragment_at(
                data@,
                spans[0],
            ).keyframe,
            sum_fragments(data@, spans, 0, 0, 0) == sum_fragments(
                data@,
                spans,
                i as int,
                ticks as int,
                samples as nat,
            ),
        decreases moofs@.len() - i,
    {
        let (at, size): (usize, usize) = moofs[i];
        assert(moofs@[i as int].0 + moofs@[i as int].1 <= data@.len());
        assert(data@.len() == data.len());
        let f = fragment::parse_moof_fragment(vstd::slice::slice_subrange(data, at, at + size));
        assert(f == fragment_at(data@, spans[i as int]));
        if f.samples == 0 {
            return Err(MediaValidationError::EmptyMediaFragment(0));
        }
        if i == 0 {
            start = f.start_ticks;
            keyframe = f.keyframe;
        }
        assert(0 <= f.sample_ticks * f.samples <= 0xffff_ffff * 0xffff_ffff_ffff_ffff)
            by (nonlinear_arith)
            requires
                0 <= f.sample_ticks <= 0xffff_ffff,
                0 <= f.samples <= 0xffff_ffff_ffff_ffff,
        ;
        let run: u128 = (f.sample_ticks as u128) * (f.samples as u128);
        let run: i64 = if run > i64::MAX as u128 {
            i64::MAX
        } else {
            run as i64
        };
        ticks = if run > i64::MAX - ticks {
            i64::MAX
        } else {
            ticks + run
        };
        samples = samples.saturating_add(f.samples);
        i = i + 1;
    }
    if !keyframe {
        return Err(MediaValidationError::NotKeyframeStart);
    }
    let start: i64 = match elst {
        Some(e) => match e.first_media_time {
            Some(t) => if t >= 0 {
                t
            } else {
                start
            },
            None => start,
        },
        None => start,
    };
    let total: i64 = if mdhd.duration_ticks > ticks {
        mdhd.duration_ticks
    } else {
        ticks
    };
    let start_us: u64 = mdhd.ticks_to_us(start);
    let duration_us: u64 = mdhd.ticks_to_us(total);
    Ok(
        MediaValidationInfo {
            container_format: "mp4".to_owned(),
            size_bytes: data.len() as u64,
            start_us,
            end_us: start_us.saturating_add(duration_us),
            duration_us,
            sample_count: samples,
            is_keyframe_start: true,
            media_timescale: mdhd.timescale,
            media_start_value: start,
            host_anchor_us: 0,
        },
    )
}

/// Checks an MP4 file.
pub fn examine_fmp4(data: &[u8]) -> (r: Result<MediaValidationInfo, MediaValidationError>)
    ensures
        examined(Some(r)) == fmp4_facts(data@),
{
    if data.len() < 8 {
        return Err(MediaValidationError::FileTooSmall(data.len() as u64));
    }
    if is_zero_filled(data, 0) {
        return Err(MediaValidationError::ZeroFilledDummy);
    }
    let top = match read_top(data) {
        Ok(top) => top,
        Err(e) => {
            return Err(e);
        },
    };
    assert(data@.len() == data.len());
    if !top.typed {
        return Err(
            MediaValidationError::MissingRequiredBoxes("Missing ftyp/styp header".to_owned()),
        );
    }
    let moov: (usize, usize) = match top.moov {
        Some(moov) => moov,
        None => {
            return Err(
                MediaValidationError::MissingRequiredBoxes("Missing moov movie box".to_owned()),
            );
        },
    };
    let mdat: (usize, usize) = match top.mdat {
        Some(mdat) => mdat,
        None => {
            return Err(
                MediaValidationError::MissingRequiredBoxes("Missing mdat media data".to_owned()),
            );
        },
    };
    if mdat.1 <= 8 {
        return Err(MediaValidationError::EmptyMediaFragment(0));
    }
    let movie = vstd::slice::slice_subrange(data, moov.0, moov.0 + moov.1);
    let (mdhd, elst): (MdhdInfo, Option<ElstInfo>) = match MediaValidator::parse_moov(movie) {
        Ok(found) => found,
        Err(t) => {
            return Err(MediaValidationError::InvalidMdhdBox(moov.1 as u64, 0, t));
        },
    };
    match sample_table::regular_sample_table(movie, (mdat.0 as u64, mdat.1 as u64)) {
        Ok((ticks, samples)) => {
            let total: i64 = if mdhd.duration_ticks > ticks as i64 {
                mdhd.duration_ticks
            } else {
                ticks as i64
            };
            let duration_us: u64 = mdhd.ticks_to_us(total);
            Ok(
                MediaValidationInfo {
                    container_format: "mp4".to_owned(),
                    size_bytes: data.len() as u64,
                    start_us: 0,
                    end_us: duration_us,
                    duration_us,
                    sample_count: samples,
                    is_keyframe_start: true,
                    media_timescale: mdhd.timescale,
                    media_start_value: 0,
                    host_anchor_us: 0,
                },
            )
        },
        Err(_) => check_fragments(data, &top.moofs, mdhd, elst),
    }
}

/// Chunk identifiers, as the big-endian value of their four characters.
pub const RIFF: u32 = 0x5249_4646;

pub const WAVE: u32 = 0x5741_5645;

pub const FMT: u32 = 0x666d_7420;

pub const DATA: u32 = 0x6461_7461;

/// What a WAV file's chunks have said so far.
pub struct WavScan {
    pub channels: nat,
    pub sample_rate: nat,
    pub bits: nat,
    pub data_size: nat,
}

/// The format assumed of a file without a format chunk.
pub open spec fn assumed_wav() -> WavScan {
    WavScan { channels: 2, sample_rate: 48_000, bits: 16, data_size: 0 }
}

/// `w` after the chunks from `at` on; an error where a format chunk is cut short.
pub open spec fn scan_wav(s: Seq<u8>, at: int, w: WavScan) -> Result<WavScan, MediaRefusal>
    decreases
            if at <= s.len() {
                s.len() - at
            } else {
                0
            },
{
    if at + 8 > s.len() {
        Ok(w)
    } else {
        let kind = bytes::be32(s, at);
        let size = bytes::le32(s, at + 4);
        if kind == FMT && size >= 16 {
            if at + 24 > s.len() {
                Err(MediaRefusal::Io("failed to fill whole buffer"@))
            } else {
                scan_wav(
                    s,
                    at + 8 + size,
                    WavScan {
                        channels: bytes::le16(s, at + 10),
                        sample_rate: bytes::le32(s, at + 12),
                        bits: bytes::le16(s, at + 22),
                        data_size: w.data_size,
                    },
                )
            }
        } else if kind == DATA {
            scan_wav(s, at + 8 + size, WavScan { data_size: size, ..w })
        } else {
            scan_wav(s, at + 8 + size, w)
        }
    }
}

/// What a WAV file says.
pub open spec fn wav_facts(s: Seq<u8>) -> Result<MediaFacts, MediaRefusal> {
    if s.len() < 44 {
        Err(MediaRefusal::FileTooSmall(s.len()))
    } else if bytes::be32(s, 0) != RIFF || bytes::be32(s, 8) != WAVE {
        Err(MediaRefusal::InvalidWavHeader)
    } else if all_zero(s, 12, probe_end(s, 12)) {
        Err(MediaRefusal::ZeroFilledDummy)
    } else {
        match scan_wav(s, 12, assumed_wav()) {
            Err(e) => Err(e),
            Ok(w) => if w.data_size == 0 || w.sample_rate == 0 || w.channels == 0 || w.bits == 0 {
                Err(MediaRefusal::InvalidWavHeader)
            } else if w.channels * w.bits < 8 {
                Err(MediaRefusal::Undefined)
            } else {
                let frames = w.data_size / (w.channels * w.bits / 8);
                let duration_us = frames * 1_000_000 / w.sample_rate;
                Ok(
                    (MediaFacts {
                        container_format: "wav"@,
                        size_bytes: s.len(),
                        start_us: 0,
                        end_us: duration_us,
                        duration_us,
                        sample_count: frames,
                        is_keyframe_start: true,
                        media_timescale: w.sample_rate,
                        media_start_value: 0,
                        host_anchor_us: 0,
                    }),
                )
            },
        }
    }
}

/// Checks a WAV file; `None` where it does not answer.
pub fn examine_wav(data: &[u8]) -> (r: Option<Result<MediaValidationInfo, MediaValidationError>>)
    ensures
        examined(r) == wav_facts(data@),
{
    let len: usize = data.len();
    if len < 44 {
        return Some(Err(MediaValidationError::FileTooSmall(len as u64)));
    }
    if bytes::read_be32(data, 0) != RIFF || bytes::read_be32(data, 8) != WAVE {
        return Some(Err(MediaValidationError::InvalidWavHeader));
    }
    if is_zero_filled(data, 12) {
        return Some(Err(MediaValidationError::ZeroFilledDummy));
    }
    let mut channels: u16 = 2;
    let mut sample_rate: u32 = 48_000;
    let mut bits: u16 = 16;
    let mut data_size: u32 = 0;
    let mut at: usize = 12;
    while len - at >= 8
        invariant
            12 <= at <= len == data@.len(),
            len >= 44,
            bytes::be32(data@, 0) == RIFF && bytes::be32(data@, 8) == WAVE,
            !all_zero(data@, 12, probe_end(data@, 12)),
            scan_wav(data@, 12, assumed_wav()) == scan_wav(
                data@,
                at as int,
                (WavScan {
                    channels: channels as nat,
                    sample_rate: sample_rate as nat,
                    bits: bits as nat,
                    data_size: data_size as nat,
                }),
            ),
        ensures
            scan_wav(data@, 12, assumed_wav()) == Ok::<WavScan, MediaRefusal>(
                (WavScan {
                    channels: channels as nat,
                    sample_rate: sample_rate as nat,
                    bits: bits as nat,
                    data_size: data_size as nat,
                }),
            ),
        decreases len - at,
    {
        let kind: u32 = bytes::read_be32(data, at);
        let size: u32 = bytes::read_le32(data, at + 4);
        if kind == FMT && size >= 16 {
            if len - at < 24 {
                return Some(
                    Err(MediaValidationError::Io("failed to fill whole buffer".to_owned())),
                );
            }
            channels = bytes::read_le16(data, at + 10);
            sample_rate = bytes::read_le32(data, at + 12);
            bits = bytes::read_le16(data, at + 22);
        } else if kind == DATA {
            data_size = size;
        }
        if size as usize > len - at - 8 {
            assert(scan_wav(data@, 12, assumed_wav()) == scan_wav(
                data@,
                at + 8 + size,
                (WavScan {
                    channels: channels as nat,
                    sample_rate: sample_rate as nat,
                    bits: bits as nat,
                    data_size: data_size as nat,
                }),
            ));
            break;
        }
        at = at + 8 + size as usize;
    }
    if data_size == 0 || sample_rate == 0 || channels == 0 || bits == 0 {
        return Some(Err(MediaValidationError::InvalidWavHeader));
    }
    assert(0 <= channels * bits <= 0xffff * 0xffff) by (nonlinear_arith)
        requires
            0 <= channels <= 0xffff,
            0 <= bits <= 0xffff,
    ;
    let frame_bits: u32 = (channels as u32) * (bits as u32);
    if frame_bits < 8 {
        return None;
    }
    let frames: u64 = (data_size / (frame_bits / 8)) as u64;
    assert(frames <= data_size) by (nonlinear_arith)
        requires
            frames == data_size / (frame_bits / 8),
            frame_bits / 8 >= 1,
    ;
    let duration_us: u64 = frames * 1_000_000 / (sample_rate as u64);
    Some(
        Ok(
            MediaValidationInfo {
                container_format: "wav".to_owned(),
                size_bytes: len as u64,
                start_us: 0,
                end_us: duration_us,
                duration_us,
                sample_count: frames,
                is_keyframe_start: true,
                media_timescale: sample_rate,
                media_start_value: 0,
                host_anchor_us: 0,
            },
        ),
    )
}

/// What a recorded file of a track says.
pub open spec fn media_facts(s: Seq<u8>, kind: TrackType) -> Result<MediaFacts, MediaRefusal> {
    match kind {
        TrackType::Screen | TrackType::Webcam => fmp4_facts(s),
        TrackType::SystemAudio | TrackType::MicAudio => wav_facts(s),
    }
}

impl MediaValidator {
    /// Checks the contents of a recorded file against its track's type, and reads
    /// its timing. Refuses zero-filled files, boxes that do not fit, files without
    /// samples or media data, and segments that do not start with a keyframe.
    pub fn validate(data: &[u8], track_type: TrackType) -> (r: Result<
        MediaValidationInfo,
        MediaValidationError,
    >)
        requires
            media_facts(data@, track_type) != Err::<MediaFacts, MediaRefusal>(
                MediaRefusal::Undefined,
            ),
        ensures
            examined(Some(r)) == media_facts(data@, track_type),
    {
        match Self::examine(data, track_type) {
            Some(r) => r,
            None => Err(MediaValidationError::InvalidWavHeader),
        }
    }

    /// Checks like `validate`, and answers `None` for a file outside its domain.
    pub fn examine(data: &[u8], track_type: TrackType) -> (r: Option<
        Result<MediaValidationInfo, MediaValidationError>,
    >)
        ensures
            examined(r) == media_facts(data@, track_type),
    {
        match track_type {
            TrackType::Screen | TrackType::Webcam => Some(examine_fmp4(data)),
            TrackType::SystemAudio | TrackType::MicAudio => examine_wav(data),
        }
    }
}

/// Ticks of a media clock last as long as its timescale says, to the microsecond below; before
/// the start of the media there is no time.
pub proof fn media_ticks_last_as_long_as_their_timescale_says(ticks: int, timescale: nat)
    requires
        timescale > 0,
        ticks * 1_000_000 < timescale * 0x1_0000_0000_0000_0000,
    ensures
        ticks <= 0 ==> media_us(ticks, timescale) == 0,
        ticks > 0 ==> media_us(ticks, timescale) * timescale <= ticks * 1_000_000 < (media_us(
            ticks,
            timescale,
        ) + 1) * timescale,
{
    if ticks > 0 {
        let n = ticks * 1_000_000;
        let d = timescale as int;
        let q = n / d;
        assert(q * d <= n < (q + 1) * d && 0 <= q < 0x1_0000_0000_0000_0000) by (nonlinear_arith)
            requires
                q == n / d,
                d > 0,
                n > 0,
                n < d * 0x1_0000_0000_0000_0000,
        ;
    }
}

/// What a media header says stands in its bytes, at places that its version fixes.
pub proof fn media_headers_stand_in_their_bytes(p: Seq<u8>)
    requires
        mdhd_of(p) is Ok,
    ensures
        ({
            let m = mdhd_of(p)->Ok_0;
            let at = if p[0] == 0 {
                12int
            } else {
                20
            };
            let end = if p[0] == 0 {
                20int
            } else {
                32
            };
            &&& p[0] == 0 || p[0] == 1
            &&& m.version == p[0]
            &&& m.timescale == 16_777_216 * p[at] + 65_536 * p[at + 1] + 256 * p[at + 2] + p[at + 3]
            &&& p[0] == 0 ==> m.duration_ticks == 16_777_216 * p[16] + 65_536 * p[17] + 256 * p[18]
                + p[19]
            &&& p[0] == 1 ==> m.duration_ticks == bytes::signed64(bytes::be64(p, 24))
            &&& m.language == (256 * p[end] + p[end + 1]) % 0x8000
        }),
{
    reveal(bytes::be64);
    reveal(bytes::be32);
    reveal(bytes::be16);
}

proof fn lemma_first_edit(p: Seq<u8>, i: int, n: int)
    requires
        0 <= i,
    ensures
        match first_edit(p, i, n) {
            Some(k) => i <= k < n && edit_start(p, k + 1) <= p.len() && edit_time(p, k) != -1
                && forall|j: int| i <= j < k ==> #[trigger] edit_time(p, j) == -1,
            None => forall|j: int|
                #![trigger edit_time(p, j)]
                i <= j < n && edit_start(p, j + 1) <= p.len() ==> edit_time(p, j) == -1,
        },
    decreases n - i,
{
    if i < n && edit_start(p, i + 1) <= p.len() {
        if edit_time(p, i) == -1 {
            lemma_first_edit(p, i + 1, n);
        }
    } else if i < n {
        assert forall|j: int|
            #![trigger edit_time(p, j)]
            i <= j < n && edit_start(p, j + 1) <= p.len() implies edit_time(p, j) == -1 by {
            let size = edit_size(p);
            assert((i + 1) * size <= (j + 1) * size) by (nonlinear_arith)
                requires
                    i <= j,
                    size > 0,
            ;
        }
    }
}

/// An edit list says when its first entry starts, unless that is empty, and how long the first
/// entry is that is not: all before it are.
pub proof fn edit_lists_say_their_first_edit(p: Seq<u8>, k: int)
    requires
        elst_of(p) is Ok,
        0 <= k < bytes::be32(p, 4),
        edit_start(p, k + 1) <= p.len(),
        edit_time(p, k) != -1,
        forall|j: int| 0 <= j < k ==> #[trigger] edit_time(p, j) == -1,
    ensures
        ({
            let e = elst_of(p)->Ok_0;
            &&& e.version == p[0]
            &&& e.first_segment_duration == edit_duration(p, k)
            &&& k == 0 ==> (e.first_media_time matches Some(t) && t == edit_time(p, 0))
            &&& k > 0 ==> e.first_media_time is None
        }),
{
    lemma_first_edit(p, 0, bytes::be32(p, 4) as int);
    let n = bytes::be32(p, 4) as int;
    if first_edit(p, 0, n) is None {
        assert(edit_time(p, k) == -1);
    }
    let i = first_edit(p, 0, n)->0;
    if i < k {
        assert(edit_time(p, i) == -1);
    } else if k < i {
        assert(edit_time(p, k) == -1);
    }
    assert(i == k);
    assert(edit_time(p, 0) == edit_time(p, 0));
    reveal(bytes::be64);
    reveal(bytes::be32);
    reveal(bytes::be16);
}

/// One more fragment adds its ticks and its samples to those before it; one without samples
/// spoils them all.
pub proof fn fragments_add_up(
    s: Seq<u8>,
    moofs: Seq<(int, int)>,
    e: (int, int),
    i: int,
    ticks: int,
    samples: nat,
)
    requires
        0 <= i <= moofs.len(),
        0 <= ticks,
    ensures
        ({
            let f = fragment_at(s, e);
            let before = sum_fragments(s, moofs, i, ticks, samples);
            let after = sum_fragments(s, moofs.push(e), i, ticks, samples);
            &&& f.samples == 0 || before is None ==> after is None
            &&& f.samples > 0 && before is Some ==> after is Some
            &&& after is Some && before is Some ==> {
                let (t, n) = before->0;
                &&& t + f.sample_ticks * f.samples <= i64::MAX ==> (after->0).0 == t
                    + f.sample_ticks * f.samples
                &&& n + f.samples <= u64::MAX ==> (after->0).1 == n + f.samples
            }
        }),
    decreases moofs.len() - i,
{
    let more = moofs.push(e);
    if i < moofs.len() {
        assert(more[i] == moofs[i]);
        let f = fragment_at(s, moofs[i]);
        assert(0 <= f.sample_ticks * f.samples) by (nonlinear_arith)
            requires
                0 <= f.sample_ticks,
                0 <= f.samples,
        ;
        if f.samples > 0 {
            fragments_add_up(
                s,
                moofs,
                e,
                i + 1,
                clamp_i64(ticks + fragment_ticks(f)),
                clamp_u64(samples + f.samples as nat),
            );
        }
    } else {
        assert(more[i] == e);
        reveal_with_fuel(sum_fragments, 2);
    }
}

/// A fragmented file starts where its edit list says, or else with its first fragment, and
/// lasts as long as its header or its samples say, whichever is more. It starts with a
/// keyframe.
pub proof fn fragmented_files_start_and_end(
    s: Seq<u8>,
    moofs: Seq<(int, int)>,
    mdhd: MdhdInfo,
    elst: Option<ElstInfo>,
)
    requires
        fragmented_facts(s, moofs, mdhd, elst) is Ok,
    ensures
        ({
            let f = fragmented_facts(s, moofs, mdhd, elst)->Ok_0;
            let first = fragment_at(s, moofs[0]);
            let sum = sum_fragments(s, moofs, 0, 0, 0)->0;
            let edited = elst is Some && elst->0.first_media_time is Some
                && elst->0.first_media_time->0 >= 0;
            &&& moofs.len() > 0
            &&& first.keyframe
            &&& f.is_keyframe_start
            &&& f.size_bytes == s.len()
            &&& f.media_timescale == mdhd.timescale
            &&& f.sample_count == sum.1
            &&& edited ==> f.media_start_value == elst->0.first_media_time->0
            &&& !edited ==> f.media_start_value == first.start_ticks
            &&& f.start_us == media_us(f.media_start_value, mdhd.timescale as nat)
            &&& mdhd.duration_ticks >= sum.0 ==> f.duration_us == media_us(
                mdhd.duration_ticks as int,
                mdhd.timescale as nat,
            )
            &&& mdhd.duration_ticks <= sum.0 ==> f.duration_us == media_us(
                sum.0,
                mdhd.timescale as nat,
            )
            &&& f.start_us + f.duration_us <= u64::MAX ==> f.end_us == f.start_us + f.duration_us
        }),
{
}

/// A sound file lasts as long as its whole frames do at its rate.
pub proof fn sound_files_last_as_long_as_their_frames(s: Seq<u8>)
    requires
        wav_facts(s) is Ok,
    ensures
        ({
            let f = wav_facts(s)->Ok_0;
            let w = scan_wav(s, 12, assumed_wav())->Ok_0;
            let frame = w.channels * w.bits / 8;
            &&& f.sample_count * frame <= w.data_size < (f.sample_count + 1) * frame
            &&& f.duration_us * w.sample_rate <= f.sample_count * 1_000_000 < (f.duration_us + 1)
                * w.sample_rate
            &&& f.start_us == 0
            &&& f.end_us == f.duration_us
            &&& f.media_timescale == w.sample_rate
            &&& f.size_bytes == s.len()
        }),
{
    let f = wav_facts(s)->Ok_0;
    let w = scan_wav(s, 12, assumed_wav())->Ok_0;
    let frame = w.channels * w.bits / 8;
    let d = w.data_size;
    let n = d / frame;
    assert(n * frame <= d < (n + 1) * frame) by (nonlinear_arith)
        requires
            n == d / frame,
            frame > 0,
    ;
    let m = n * 1_000_000;
    let r = w.sample_rate;
    let q = m / r;
    assert(q * r <= m < (q + 1) * r) by (nonlinear_arith)
        requires
            q == m / r,
            r > 0,
    ;
}

proof fn lemma_mdia_keeps(s: Seq<u8>, at: int, end: int, m: MdhdInfo)
    requires
        scan_mdia(s, at, end, Some(m)) is Ok,
    ensures
        scan_mdia(s, at, end, Some(m)) == Ok::<Option<MdhdInfo>, Seq<char>>(Some(m)),
    decreases end - at,
{
    if at + 8 <= end {
        let b = mp4::box_at(s, at, end)->Ok_0;
        lemma_mdia_keeps(s, at + b.size, end, m);
    }
}

proof fn lemma_trak_keeps(s: Seq<u8>, at: int, end: int, m: MdhdInfo, e: Option<ElstInfo>)
    requires
        scan_trak(s, at, end, Some(m), e) is Ok,
    ensures
        (scan_trak(s, at, end, Some(m), e)->Ok_0).0 == Some(m),
        e is Some ==> (scan_trak(s, at, end, Some(m), e)->Ok_0).1 == e,
    decreases end - at,
{
    if at + 8 <= end {
        let b = mp4::box_at(s, at, end)->Ok_0;
        if b.kind == mp4::MDIA {
            lemma_mdia_keeps(s, b.payload, at + b.size, m);
            lemma_trak_keeps(s, at + b.size, end, m, e);
        } else if b.kind == mp4::EDTS && e is None {
            let found = scan_edts(s, b.payload, at + b.size, e)->Ok_0;
            lemma_trak_keeps(s, at + b.size, end, m, found);
        } else {
            lemma_trak_keeps(s, at + b.size, end, m, e);
        }
    }
}

/// Of several media headers of a movie the first counts, and of several edit lists the first:
/// what follows them changes neither.
pub proof fn the_first_media_header_counts(s: Seq<u8>, at: int, m: MdhdInfo, e: Option<ElstInfo>)
    requires
        scan_movie(s, at, Some(m), e) is Ok,
    ensures
        (scan_movie(s, at, Some(m), e)->Ok_0).0 == Some(m),
        e is Some ==> (scan_movie(s, at, Some(m), e)->Ok_0).1 == e,
    decreases s.len() - at,
{
    if at + 8 <= s.len() {
        let b = mp4::box_at(s, at, s.len() as int)->Ok_0;
        if b.kind == mp4::TRAK {
            lemma_trak_keeps(s, b.payload, at + b.size, m, e);
            let found = scan_trak(s, b.payload, at + b.size, Some(m), e)->Ok_0;
            the_first_media_header_counts(s, at + b.size, m, found.1);
        } else {
            the_first_media_header_counts(s, at + b.size, m, e);
        }
    }
}

/// Of several movie boxes the first counts, of several boxes of media data the last, and every
/// fragment counts, in the order in which they stand.
pub proof fn boxes_are_taken_in_their_order(top: TopLevel, at: int, size: int)
    ensures
        top.moov is Some ==> with_box(top, 0x6d6f_6f76, at, size) == top,
        top.moov is None ==> with_box(top, 0x6d6f_6f76, at, size) == (TopLevel {
            moov: Some((at, size)),
            ..top
        }),
        with_box(top, 0x6d64_6174, at, size) == (TopLevel { mdat: Some((at, size)), ..top }),
        with_box(top, 0x6d6f_6f66, at, size) == (TopLevel {
            moofs: top.moofs.push((at, size)),
            ..top
        }),
        with_box(top, 0x6674_7970, at, size) == (TopLevel { typed: true, ..top }),
        with_box(top, 0x7374_7970, at, size) == (TopLevel { typed: true, ..top }),
        with_box(top, 0x6672_6565, at, size) == top,
{
}

/// The entries of an edit list stand one behind the other, each with its duration before its
/// time: of eight bytes each in the first version, and of four otherwise.
pub proof fn edits_stand_one_behind_the_other(p: Seq<u8>, i: int)
    requires
        p.len() > 0,
        0 <= i,
    ensures
        p[0] == 1 ==> edit_duration(p, i) == bytes::signed64(bytes::be64(p, 8 + 20 * i))
            && edit_time(p, i) == bytes::signed64(bytes::be64(p, 16 + 20 * i)),
        p[0] != 1 ==> edit_duration(p, i) == bytes::be32(p, 8 + 12 * i) && edit_time(p, i)
            == bytes::signed32(bytes::be32(p, 12 + 12 * i)),
{
}

/// Whether the boxes that were found are of their kind, and lie in the file.
pub open spec fn boxes_stand_there(s: Seq<u8>, top: TopLevel) -> bool {
    &&& top.moov matches Some(e) ==> 0 <= e.0 && e.0 + e.1 <= s.len() && bytes::be32(s, e.0 + 4)
        == 0x6d6f_6f76
    &&& top.mdat matches Some(e) ==> 0 <= e.0 && e.0 + e.1 <= s.len() && bytes::be32(s, e.0 + 4)
        == 0x6d64_6174
    &&& forall|i: int|
        0 <= i < top.moofs.len() ==> 0 <= (#[trigger] top.moofs[i]).0 && top.moofs[i].0
            + top.moofs[i].1 <= s.len() && bytes::be32(s, top.moofs[i].0 + 4) == 0x6d6f_6f66
}

proof fn lemma_scan_top(s: Seq<u8>, at: int, top: TopLevel)
    requires
        0 <= at,
        boxes_stand_there(s, top),
        scan_top(s, at, top) is Ok,
    ensures
        boxes_stand_there(s, scan_top(s, at, top)->Ok_0),
        top.typed ==> (scan_top(s, at, top)->Ok_0).typed,
        top.moov is Some ==> (scan_top(s, at, top)->Ok_0).moov == top.moov,
    decreases s.len() - at,
{
    if at < s.len() {
        let (size, header) = mp4::stated_size(s, at, s.len() as int);
        let next = with_box(top, bytes::be32(s, at + 4), at, size as int);
        assert(boxes_stand_there(s, next)) by {
            assert forall|i: int| 0 <= i < next.moofs.len() implies 0 <= (
            #[trigger] next.moofs[i]).0 && next.moofs[i].0 + next.moofs[i].1 <= s.len()
                && bytes::be32(s, next.moofs[i].0 + 4) == 0x6d6f_6f66 by {
                if i < top.moofs.len() {
                    assert(next.moofs[i] == top.moofs[i]);
                }
            }
        }
        lemma_scan_top(s, at + size, next);
    }
}

/// The movie box, the media data and the fragments of a file are boxes of it of that kind.
pub proof fn found_top_boxes_stand_there(s: Seq<u8>)
    requires
        scan_top(s, 0, no_boxes()) is Ok,
    ensures
        boxes_stand_there(s, scan_top(s, 0, no_boxes())->Ok_0),
{
    lemma_scan_top(s, 0, no_boxes());
}

/// Whether chunks of a sound file stand at these places, one behind the other, with no other
/// chunk behind them.
pub open spec fn chunks_stand_at(s: Seq<u8>, starts: Seq<int>) -> bool {
    &&& starts.len() > 0
    &&& forall|i: int| 0 <= i < starts.len() ==> #[trigger] starts[i] + 8 <= s.len()
    &&& forall|i: int|
        0 < i < starts.len() ==> #[trigger] starts[i] == starts[i - 1] + 8 + bytes::le32(
            s,
            starts[i - 1] + 4,
        )
    &&& starts.last() + 8 + bytes::le32(s, starts.last() + 4) + 8 > s.len()
}

proof fn lemma_last_chunks(s: Seq<u8>, starts: Seq<int>, i: int, j: int, w: WavScan)
    requires
        chunks_stand_at(s, starts),
        scan_wav(s, starts[i], w) is Ok,
        0 <= i < starts.len(),
        0 <= j < starts.len(),
    ensures
        bytes::be32(s, starts[j]) == DATA && (forall|k: int|
            j < k < starts.len() ==> bytes::be32(s, #[trigger] starts[k]) != DATA) && (i > j
            ==> w.data_size == bytes::le32(s, starts[j] + 4)) ==> (scan_wav(
            s,
            starts[i],
            w,
        )->Ok_0).data_size == bytes::le32(s, starts[j] + 4),
        bytes::be32(s, starts[j]) == FMT && bytes::le32(s, starts[j] + 4) >= 16 && (forall|k: int|
            j < k < starts.len() ==> bytes::be32(s, #[trigger] starts[k]) != FMT) && (i > j
            ==> w.channels == bytes::le16(s, starts[j] + 10) && w.sample_rate == bytes::le32(
            s,
            starts[j] + 12,
        ) && w.bits == bytes::le16(s, starts[j] + 22)) ==> {
            let found = scan_wav(s, starts[i], w)->Ok_0;
            found.channels == bytes::le16(s, starts[j] + 10) && found.sample_rate == bytes::le32(
                s,
                starts[j] + 12,
            ) && found.bits == bytes::le16(s, starts[j] + 22)
        },
    decreases starts.len() - i,
{
    let at = starts[i];
    let kind = bytes::be32(s, at);
    let size = bytes::le32(s, at + 4);
    let next = if kind == FMT && size >= 16 {
        WavScan {
            channels: bytes::le16(s, at + 10),
            sample_rate: bytes::le32(s, at + 12),
            bits: bytes::le16(s, at + 22),
            data_size: w.data_size,
        }
    } else if kind == DATA {
        WavScan { data_size: size, ..w }
    } else {
        w
    };
    assert(at + 8 <= s.len());
    assert(scan_wav(s, at, w) == scan_wav(s, at + 8 + size, next));
    if i + 1 < starts.len() {
        assert(starts[i + 1] == starts[i + 1 - 1] + 8 + bytes::le32(s, starts[i + 1 - 1] + 4));
        lemma_last_chunks(s, starts, i + 1, j, next);
    } else {
        assert(at == starts.last());
        assert(scan_wav(s, at + 8 + size, next) == Ok::<WavScan, MediaRefusal>(next));
    }
}

/// Of several data chunks of a sound file the last one counts, with the length that it states,
/// however many chunks stand before it or behind it.
pub proof fn the_last_data_chunk_counts(s: Seq<u8>, starts: Seq<int>, j: int, w: WavScan)
    requires
        chunks_stand_at(s, starts),
        scan_wav(s, starts[0], w) is Ok,
        0 <= j < starts.len(),
        bytes::be32(s, starts[j]) == 0x6461_7461,
        forall|k: int| j < k < starts.len() ==> bytes::be32(s, #[trigger] starts[k]) != 0x6461_7461,
    ensures
        (scan_wav(s, starts[0], w)->Ok_0).data_size == bytes::le32(s, starts[j] + 4),
{
    lemma_last_chunks(s, starts, 0, j, w);
}

/// Of several format chunks of a sound file the last one counts, with the channels, the rate
/// and the bits that stand in its bytes.
pub proof fn the_last_format_chunk_counts(s: Seq<u8>, starts: Seq<int>, j: int, w: WavScan)
    requires
        chunks_stand_at(s, starts),
        scan_wav(s, starts[0], w) is Ok,
        0 <= j < starts.len(),
        bytes::be32(s, starts[j]) == 0x666d_7420,
        bytes::le32(s, starts[j] + 4) >= 16,
        forall|k: int| j < k < starts.len() ==> bytes::be32(s, #[trigger] starts[k]) != 0x666d_7420,
    ensures
        ({
            let found = scan_wav(s, starts[0], w)->Ok_0;
            &&& found.channels == bytes::le16(s, starts[j] + 10)
            &&& found.sample_rate == bytes::le32(s, starts[j] + 12)
            &&& found.bits == bytes::le16(s, starts[j] + 22)
        }),
{
    lemma_last_chunks(s, starts, 0, j, w);
}

} // verus!
