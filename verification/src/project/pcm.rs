//! Bounded reading of WAV files. Times are counted in sample frames, not in
//! interleaved values.
use crate::bytes;
use crate::project::media_validator::{DATA, FMT, RIFF, WAVE};
use crate::text;
use vstd::prelude::*;
use vstd::string::*;

verus! {

pub const MAX_WAV_BYTES: u64 = 512 * 1024 * 1024;

pub const MAX_CHANNELS: u16 = 8;

pub const MIN_SAMPLE_RATE: u32 = 8_000;

pub const MAX_SAMPLE_RATE: u32 = 192_000;

pub const READ_FRAME_CHUNK: usize = 8_192;

/// The most chunks of a file that are looked at.
pub const MAX_CHUNKS: u32 = 1_024;

/// How a sample is stored.
#[derive(Debug, Clone, Copy, PartialEq, Eq, Structural)]
pub enum PcmEncoding {
    Int16,
    Int24,
    Int32,
    Float32,
}

/// Where a file's sample frames are, and what they hold.
#[derive(Debug, Clone, Copy, PartialEq, Eq, Structural)]
pub struct WavInfo {
    pub encoding: PcmEncoding,
    pub channels: u16,
    pub sample_rate: u32,
    pub bits_per_sample: u16,
    pub block_align: u16,
    pub data_offset: u64,
    pub data_bytes: u64,
    pub frame_count: u64,
}

/// The bytes of one sample.
pub open spec fn sample_width(e: PcmEncoding) -> nat {
    match e {
        PcmEncoding::Int16 => 2,
        PcmEncoding::Int24 => 3,
        PcmEncoding::Int32 => 4,
        PcmEncoding::Float32 => 4,
    }
}

impl WavInfo {
    /// What holds of every file that was accepted: supported channels and rate,
    /// whole frames of the stated width, inside the size limit.
    pub open spec fn wf(self) -> bool {
        &&& 1 <= self.channels <= MAX_CHANNELS
        &&& MIN_SAMPLE_RATE <= self.sample_rate <= MAX_SAMPLE_RATE
        &&& self.bits_per_sample == 8 * sample_width(self.encoding)
        &&& self.block_align == self.channels * sample_width(self.encoding)
        &&& self.frame_count > 0
        &&& self.data_bytes == self.frame_count * self.block_align
        &&& self.data_offset + self.data_bytes <= MAX_WAV_BYTES
    }

    /// The time of a frame, in microseconds, modulo the range of the result.
    pub fn frame_us(&self, frame_index: u64) -> (us: u64)
        ensures
            us == if self.sample_rate == 0 {
                0
            } else {
                (frame_index * 1_000_000 / (self.sample_rate as int))
                    % 0x1_0000_0000_0000_0000
            },
    {
        if self.sample_rate == 0 {
            return 0;
        }
        bytes::low64((frame_index as u128) * 1_000_000 / (self.sample_rate as u128))
    }

    /// The whole frames in a duration, modulo the range of the result.
    pub fn frames_for_us(&self, duration_us: u64) -> (frames: u64)
        ensures
            frames == if self.sample_rate == 0 {
                0
            } else {
                (duration_us * self.sample_rate / 1_000_000) % 0x1_0000_0000_0000_0000
            },
    {
        if self.sample_rate == 0 {
            return 0;
        }
        assert(0 <= duration_us * self.sample_rate <= 0xffff_ffff_ffff_ffff * 0xffff_ffff)
            by (nonlinear_arith)
            requires
                0 <= duration_us <= 0xffff_ffff_ffff_ffff,
                0 <= self.sample_rate <= 0xffff_ffff,
        ;
        bytes::low64((duration_us as u128) * (self.sample_rate as u128) / 1_000_000)
    }
}

/// A format chunk: encoding, channels, sample rate, bits and block alignment.
#[derive(Clone, Copy, PartialEq, Eq, Structural)]
pub struct WavFormat {
    pub encoding: PcmEncoding,
    pub channels: u16,
    pub sample_rate: u32,
    pub bits_per_sample: u16,
    pub block_align: u16,
}

/// The subformat identifiers of extensible formats share all bytes but the first.
pub open spec fn guid_tail() -> Seq<u8> {
    seq![0, 0, 0, 0, 0, 16, 0, 128, 0, 0, 170, 0, 56, 155, 113]
}

/// The format tag of a format chunk's bytes, behind the extensible tag.
pub open spec fn format_tag(s: Seq<u8>, at: int, size: nat) -> Result<nat, Seq<char>> {
    let tag = bytes::le16(s, at);
    if tag != 0xFFFE {
        Ok(tag)
    } else if size < 40 {
        Err("WAV extensible fmt chunk is too small"@)
    } else if s.subrange(at + 25, at + 40) == guid_tail() && (s[at + 24] == 1 || s[at + 24] == 3) {
        Ok(s[at + 24] as nat)
    } else {
        Err("Unsupported WAV extensible subformat"@)
    }
}

/// The encoding of a format tag and a bit depth.
pub open spec fn encoding_of(tag: nat, bits: nat) -> Result<PcmEncoding, Seq<char>> {
    if tag == 1 && bits == 16 {
        Ok(PcmEncoding::Int16)
    } else if tag == 1 && bits == 24 {
        Ok(PcmEncoding::Int24)
    } else if tag == 1 && bits == 32 {
        Ok(PcmEncoding::Int32)
    } else if tag == 3 && bits == 32 {
        Ok(PcmEncoding::Float32)
    } else if tag == 1 || tag == 3 {
        Err("Unsupported PCM bit depth: "@ + text::decimal(bits))
    } else {
        Err("Unsupported WAV encoding: "@ + text::decimal(tag))
    }
}

/// The format chunk of `size` bytes whose payload starts at `at`.
pub open spec fn format_of(s: Seq<u8>, at: int, size: nat) -> Result<WavFormat, Seq<char>> {
    if size < 16 {
        Err("WAV fmt chunk is too small"@)
    } else {
        match format_tag(s, at, size) {
            Err(t) => Err(t),
            Ok(tag) => match encoding_of(tag, bytes::le16(s, at + 14)) {
                Err(t) => Err(t),
                Ok(encoding) => Ok(
                    (WavFormat {
                        encoding,
                        channels: bytes::le16(s, at + 2) as u16,
                        sample_rate: bytes::le32(s, at + 4) as u32,
                        bits_per_sample: bytes::le16(s, at + 14) as u16,
                        block_align: bytes::le16(s, at + 12) as u16,
                    }),
                ),
            },
        }
    }
}

fn is_guid_tail(data: &[u8], at: usize) -> (r: bool)
    requires
        at + 15 <= data@.len(),
    ensures
        r == (data@.subrange(at as int, at + 15) == guid_tail()),
{
    assert(data@.len() == data.len());
    let r: bool = data[at] == 0 && data[at + 1] == 0 && data[at + 2] == 0 && data[at + 3] == 0
        && data[at + 4] == 0 && data[at + 5] == 16 && data[at + 6] == 0 && data[at + 7] == 128
        && data[at + 8] == 0 && data[at + 9] == 0 && data[at + 10] == 170 && data[at + 11] == 0
        && data[at + 12] == 56 && data[at + 13] == 155 && data[at + 14] == 113;
    proof {
        let t = data@.subrange(at as int, at + 15);
        if r {
            assert(t =~= guid_tail());
        } else if t == guid_tail() {
            assert(forall|k: int| 0 <= k < 15 ==> #[trigger] data@[at + k] == t[k]);
            assert(data@[at + 0] == t[0]);
            assert(data@[at + 1] == t[1]);
            assert(data@[at + 2] == t[2]);
            assert(data@[at + 3] == t[3]);
            assert(data@[at + 4] == t[4]);
            assert(data@[at + 5] == t[5]);
            assert(data@[at + 6] == t[6]);
            assert(data@[at + 7] == t[7]);
            assert(data@[at + 8] == t[8]);
            assert(data@[at + 9] == t[9]);
            assert(data@[at + 10] == t[10]);
            assert(data@[at + 11] == t[11]);
            assert(data@[at + 12] == t[12]);
            assert(data@[at + 13] == t[13]);
            assert(data@[at + 14] == t[14]);
        }
    }
    r
}

fn choose_encoding(tag: u16, bits: u16) -> (r: Result<PcmEncoding, String>)
    ensures
        text::told(r) == encoding_of(tag as nat, bits as nat),
        r is Ok ==> bits == 8 * sample_width(r->Ok_0),
{
    if tag == 1 && bits == 16 {
        Ok(PcmEncoding::Int16)
    } else if tag == 1 && bits == 24 {
        Ok(PcmEncoding::Int24)
    } else if tag == 1 && bits == 32 {
        Ok(PcmEncoding::Int32)
    } else if tag == 3 && bits == 32 {
        Ok(PcmEncoding::Float32)
    } else if tag == 1 || tag == 3 {
        let mut t: String = "Unsupported PCM bit depth: ".to_owned();
        text::push_decimal(&mut t, bits as u64);
        Err(t)
    } else {
        let mut t: String = "Unsupported WAV encoding: ".to_owned();
        text::push_decimal(&mut t, tag as u64);
        Err(t)
    }
}

/// Reads the format chunk of `size` bytes whose payload starts at `at`.
pub fn parse_fmt(data: &[u8], at: usize, size: usize) -> (r: Result<WavFormat, String>)
    requires
        at + size <= data@.len(),
    ensures
        text::told(r) == format_of(data@, at as int, size as nat),
        r is Ok ==> r->Ok_0.bits_per_sample == 8 * sample_width(r->Ok_0.encoding),
{
    assert(data@.len() == data.len());
    if size < 16 {
        return Err("WAV fmt chunk is too small".to_owned());
    }
    let mut tag: u16 = bytes::read_le16(data, at);
    let bits: u16 = bytes::read_le16(data, at + 14);
    if tag == 0xFFFE {
        if size < 40 {
            return Err("WAV extensible fmt chunk is too small".to_owned());
        }
        if is_guid_tail(data, at + 25) && (data[at + 24] == 1 || data[at + 24] == 3) {
            tag = data[at + 24] as u16;
        } else {
            return Err("Unsupported WAV extensible subformat".to_owned());
        }
    }
    match choose_encoding(tag, bits) {
        Err(t) => Err(t),
        Ok(encoding) => Ok(
            WavFormat {
                encoding,
                channels: bytes::read_le16(data, at + 2),
                sample_rate: bytes::read_le32(data, at + 4),
                bits_per_sample: bits,
                block_align: bytes::read_le16(data, at + 12),
            },
        ),
    }
}

/// The last format chunk, and offset and size of the first data chunk, among up to
/// `left` chunks from `at` on. A chunk of odd size is followed by a padding byte.
pub open spec fn scan_chunks(
    s: Seq<u8>,
    at: int,
    left: nat,
    format: Option<WavFormat>,
    data: Option<(nat, nat)>,
) -> Result<(Option<WavFormat>, Option<(nat, nat)>), Seq<char>>
    decreases left,
{
    if left == 0 || at + 8 > s.len() {
        Ok((format, data))
    } else {
        let kind = bytes::be32(s, at);
        let size = bytes::le32(s, at + 4);
        let next = at + 8 + size + size % 2;
        if at + 8 + size > s.len() {
            Err("WAV chunk exceeds file size"@)
        } else if kind == FMT {
            match format_of(s, at + 8, size) {
                Err(t) => Err(t),
                Ok(f) => scan_chunks(s, next, (left - 1) as nat, Some(f), data),
            }
        } else if kind == DATA && data is None {
            scan_chunks(s, next, (left - 1) as nat, format, Some(((at + 8) as nat, size)))
        } else {
            scan_chunks(s, next, (left - 1) as nat, format, data)
        }
    }
}

/// Whether a format can be read: supported channels and rate, and a block that is
/// one sample of each channel.
pub open spec fn format_fault(f: WavFormat) -> Option<Seq<char>> {
    if f.channels == 0 || f.channels > MAX_CHANNELS {
        Some("Unsupported WAV channel count"@)
    } else if f.sample_rate < MIN_SAMPLE_RATE || f.sample_rate > MAX_SAMPLE_RATE {
        Some("Unsupported WAV sample rate"@)
    } else if f.block_align == 0 || f.block_align != f.channels * ((f.bits_per_sample + 7) / 8) {
        Some("WAV block align does not match sample format"@)
    } else {
        None
    }
}

/// What a WAV file's contents say.
pub open spec fn wav_of(s: Seq<u8>) -> Result<WavInfo, Seq<char>> {
    if s.len() > MAX_WAV_BYTES {
        Err("WAV exceeds size limit"@)
    } else if s.len() < 12 {
        Err("WAV header is too small"@)
    } else if bytes::be32(s, 0) != RIFF || bytes::be32(s, 8) != WAVE {
        Err("Not a RIFF/WAVE file"@)
    } else {
        match scan_chunks(s, 12, MAX_CHUNKS as nat, None, None) {
            Err(t) => Err(t),
            Ok((None, _)) => Err("WAV is missing a fmt chunk"@),
            Ok((_, None)) => Err("WAV is missing a data chunk"@),
            Ok((Some(f), Some(d))) => match format_fault(f) {
                Some(t) => Err(t),
                None => {
                    let frames = d.1 / (f.block_align as nat);
                    if frames == 0 {
                        Err("WAV data chunk has no complete sample frames"@)
                    } else {
                        Ok(
                            (WavInfo {
                                encoding: f.encoding,
                                channels: f.channels,
                                sample_rate: f.sample_rate,
                                bits_per_sample: f.bits_per_sample,
                                block_align: f.block_align,
                                data_offset: d.0 as u64,
                                data_bytes: (frames * f.block_align) as u64,
                                frame_count: frames as u64,
                            }),
                        )
                    }
                },
            },
        }
    }
}

fn check_format(f: &WavFormat) -> (r: Result<(), String>)
    requires
        f.bits_per_sample == 8 * sample_width(f.encoding),
    ensures
        match r {
            Ok(()) => format_fault(*f) is None,
            Err(e) => format_fault(*f) == Some(e@),
        },
{
    if f.channels == 0 || f.channels > MAX_CHANNELS {
        return Err("Unsupported WAV channel count".to_owned());
    }
    if f.sample_rate < MIN_SAMPLE_RATE || f.sample_rate > MAX_SAMPLE_RATE {
        return Err("Unsupported WAV sample rate".to_owned());
    }
    assert(0 <= f.channels * ((f.bits_per_sample + 7) / 8) <= 32) by (nonlinear_arith)
        requires
            0 <= f.channels <= 8,
            0 <= f.bits_per_sample <= 32,
    ;
    let align: u16 = f.channels * ((f.bits_per_sample + 7) / 8);
    if f.block_align == 0 || f.block_align != align {
        return Err("WAV block align does not match sample format".to_owned());
    }
    Ok(())
}

/// Reads the headers of a WAV file.
pub fn parse_wav(data: &[u8]) -> (r: Result<WavInfo, String>)
    ensures
        text::told(r) == wav_of(data@),
        r is Ok ==> r->Ok_0.wf() && r->Ok_0.data_offset + r->Ok_0.data_bytes <= data@.len(),
{
    let len: usize = data.len();
    if len as u64 > MAX_WAV_BYTES {
        return Err("WAV exceeds size limit".to_owned());
    }
    if len < 12 {
        return Err("WAV header is too small".to_owned());
    }
    if bytes::read_be32(data, 0) != RIFF || bytes::read_be32(data, 8) != WAVE {
        return Err("Not a RIFF/WAVE file".to_owned());
    }
    let mut format: Option<WavFormat> = None;
    let mut samples: Option<(usize, usize)> = None;
    let mut at: usize = 12;
    let mut left: u32 = MAX_CHUNKS;
    while left > 0 && at <= len && len - at >= 8
        invariant
            12 <= at <= len + 1,
            len == data@.len() <= MAX_WAV_BYTES,
            bytes::be32(data@, 0) == RIFF && bytes::be32(data@, 8) == WAVE,
            format is Some ==> format->0.bits_per_sample == 8 * sample_width(format->0.encoding),
            samples is Some ==> samples.unwrap().0 + samples.unwrap().1 <= len,
            scan_chunks(data@, 12, MAX_CHUNKS as nat, None, None) == scan_chunks(
                data@,
                at as int,
                left as nat,
                format,
                match samples {
                    Some(d) => Some((d.0 as nat, d.1 as nat)),
                    None => None,
                },
            ),
        decreases left,
    {
        let kind: u32 = bytes::read_be32(data, at);
        let size: usize = bytes::read_le32(data, at + 4) as usize;
        if size > len - at - 8 {
            return Err("WAV chunk exceeds file size".to_owned());
        }
        if kind == FMT {
            match parse_fmt(data, at + 8, size) {
                Ok(f) => {
                    format = Some(f);
                },
                Err(t) => {
                    return Err(t);
                },
            }
        } else if kind == DATA && samples.is_none() {
            samples = Some((at + 8, size));
        }
        at = at + 8 + size + size % 2;
        left = left - 1;
    }
    let f: WavFormat = match format {
        Some(f) => f,
        None => {
            return Err("WAV is missing a fmt chunk".to_owned());
        },
    };
    let d: (usize, usize) = match samples {
        Some(d) => d,
        None => {
            return Err("WAV is missing a data chunk".to_owned());
        },
    };
    match check_format(&f) {
        Ok(()) => {},
        Err(t) => {
            return Err(t);
        },
    }
    let frames: u64 = d.1 as u64 / (f.block_align as u64);
    if frames == 0 {
        return Err("WAV data chunk has no complete sample frames".to_owned());
    }
    assert(0 <= frames * f.block_align <= d.1) by (nonlinear_arith)
        requires
            frames == d.1 as int / (f.block_align as int),
            f.block_align > 0,
            d.1 >= 0,
    ;
    Ok(
        WavInfo {
            encoding: f.encoding,
            channels: f.channels,
            sample_rate: f.sample_rate,
            bits_per_sample: f.bits_per_sample,
            block_align: f.block_align,
            data_offset: d.0 as u64,
            data_bytes: frames * (f.block_align as u64),
            frame_count: frames,
        },
    )
}

/// Sample `i` of a run of stored samples, as a signed integer; a floating-point
/// sample as its bit pattern.
pub open spec fn stored_sample(s: Seq<u8>, e: PcmEncoding, i: int) -> int {
    match e {
        PcmEncoding::Int16 => {
            let n = bytes::le16(s, 2 * i);
            if n < 0x8000 {
                n as int
            } else {
                n - 0x1_0000
            }
        },
        PcmEncoding::Int24 => {
            let n = bytes::le16(s, 3 * i) + s[3 * i + 2] as nat * 0x1_0000;
            if n < 0x80_0000 {
                n as int
            } else {
                n - 0x100_0000
            }
        },
        PcmEncoding::Int32 | PcmEncoding::Float32 => bytes::signed32(bytes::le32(s, 4 * i)),
    }
}

/// Reads `count` stored samples as signed integers, floating-point samples as bit
/// patterns.
pub fn decode_frames(data: &[u8], encoding: PcmEncoding, count: usize) -> (samples: Vec<i32>)
    requires
        count * sample_width(encoding) <= data@.len(),
    ensures
        samples@.len() == count,
        forall|i: int| 0 <= i < count ==> #[trigger] samples@[i] == stored_sample(data@, encoding, i),
{
    assert(data@.len() == data.len());
    let mut samples: Vec<i32> = Vec::new();
    let mut i: usize = 0;
    while i < count
        invariant
            i <= count,
            count * sample_width(encoding) <= data@.len() <= usize::MAX,
            samples@.len() == i,
            forall|k: int| 0 <= k < i ==> #[trigger] samples@[k] == stored_sample(data@, encoding, k),
        decreases count - i,
    {
        let v: i32 = match encoding {
            PcmEncoding::Int16 => {
                let n: u16 = bytes::read_le16(data, 2 * i);
                if n < 0x8000 {
                    n as i32
                } else {
                    n as i32 - 0x1_0000
                }
            },
            PcmEncoding::Int24 => {
                let n: u32 = bytes::read_le16(data, 3 * i) as u32 + (data[3 * i + 2] as u32)
                    * 0x1_0000;
                if n < 0x80_0000 {
                    n as i32
                } else {
                    n as i32 - 0x100_0000
                }
            },
            PcmEncoding::Int32 | PcmEncoding::Float32 => {
                bytes::to_signed32(bytes::read_le32(data, 4 * i)) as i32
            },
        };
        samples.push(v);
        i = i + 1;
    }
    samples
}

/// A stretch of a file that holds whole frames.
#[derive(Debug, Clone, Copy, PartialEq, Eq, Structural)]
pub struct PcmRead {
    pub offset: u64,
    pub byte_len: u64,
    pub frames: u64,
}

/// A position in the frames of an accepted file.
pub struct PcmReader {
    info: WavInfo,
    next_frame: u64,
}

impl PcmReader {
    /// The file's description.
    pub closed spec fn description(self) -> WavInfo {
        self.info
    }

    /// The next frame to read.
    pub closed spec fn position(self) -> nat {
        self.next_frame as nat
    }

    /// The file was accepted, and the position is one of its frames or its end.
    pub open spec fn wf(self) -> bool {
        self.description().wf() && self.position() <= self.description().frame_count
    }

    /// Starts at the first frame.
    pub fn new(info: WavInfo) -> (r: Self)
        requires
            info.wf(),
        ensures
            r.wf(),
            r.description() == info,
            r.position() == 0,
    {
        PcmReader { info, next_frame: 0 }
    }

    pub fn info(&self) -> (info: &WavInfo)
        ensures
            *info == self.description(),
    {
        &self.info
    }

    /// The frames that a read of up to `max_frames` would give.
    pub open spec fn readable(self, max_frames: nat) -> nat {
        let rest = (self.description().frame_count - self.position()) as nat;
        if max_frames <= rest {
            max_frames
        } else {
            rest
        }
    }

    /// Where the next read of up to `max_frames` frames into a buffer of `capacity`
    /// samples takes place. `None` when there is nothing to read.
    pub fn plan_read(&self, capacity: usize, max_frames: usize) -> (r: Result<
        Option<PcmRead>,
        String,
    >)
        requires
            self.wf(),
        ensures
            match r {
                Ok(None) => self.readable(max_frames as nat) == 0 && (max_frames == 0
                    || max_frames * self.description().channels <= capacity),
                Ok(Some(plan)) => {
                    &&& max_frames * self.description().channels <= capacity
                    &&& plan.frames == self.readable(max_frames as nat) > 0
                    &&& plan.offset == self.description().data_offset + self.position()
                        * self.description().block_align
                    &&& plan.byte_len == plan.frames * self.description().block_align
                    &&& plan.offset + plan.byte_len <= self.description().data_offset
                        + self.description().data_bytes
                },
                Err(e) => max_frames > 0 && max_frames * self.description().channels > capacity
                    && e@ == "PCM read buffer is too small"@,
            },
    {
        if max_frames == 0 {
            return Ok(None);
        }
        assert(0 <= max_frames * self.info.channels <= 0xffff_ffff_ffff_ffff * 8)
            by (nonlinear_arith)
            requires
                0 <= max_frames <= 0xffff_ffff_ffff_ffff,
                0 <= self.info.channels <= 8,
        ;
        if (max_frames as u128) * (self.info.channels as u128) > capacity as u128 {
            return Err("PCM read buffer is too small".to_owned());
        }
        let rest: u64 = self.info.frame_count - self.next_frame;
        let frames: u64 = if max_frames as u64 <= rest {
            max_frames as u64
        } else {
            rest
        };
        if frames == 0 {
            return Ok(None);
        }
        let align: u64 = self.info.block_align as u64;
        proof {
            let a = align as int;
            let p = self.next_frame as int;
            let f = frames as int;
            assert((p + f) * a <= self.info.frame_count * a) by (nonlinear_arith)
                requires
                    p + f <= self.info.frame_count,
                    a >= 0,
            ;
            assert((p + f) * a == p * a + f * a) by (nonlinear_arith);
            assert(p * a >= 0 && f * a >= 0) by (nonlinear_arith)
                requires
                    p >= 0,
                    f >= 0,
                    a >= 0,
            ;
        }
        Ok(
            Some(
                PcmRead {
                    offset: self.info.data_offset + self.next_frame * align,
                    byte_len: frames * align,
                    frames,
                },
            ),
        )
    }

    /// Moves past `frames` frames that were read.
    pub fn advance(&mut self, frames: u64)
        requires
            old(self).wf(),
            old(self).position() + frames <= old(self).description().frame_count,
        ensures
            final(self).wf(),
            final(self).description() == old(self).description(),
            final(self).position() == old(self).position() + frames,
    {
        self.next_frame = self.next_frame + frames;
    }

    /// Moves to a frame, or to the end.
    pub fn seek_to_frame(&mut self, frame: u64) -> (r: Result<(), String>)
        requires
            old(self).wf(),
        ensures
            final(self).wf(),
            final(self).description() == old(self).description(),
            match r {
                Ok(()) => frame <= old(self).description().frame_count && final(self).position()
                    == frame,
                Err(e) => frame > old(self).description().frame_count && *final(self) == *old(self)
                    && e@ == "PCM seek is past the end of the file"@,
            },
    {
        if frame > self.info.frame_count {
            return Err("PCM seek is past the end of the file".to_owned());
        }
        self.next_frame = frame;
        Ok(())
    }
}

/// Samples are signed and stored with the lowest byte first: each is the number in its range
/// that its bytes give, modulo the number of values that they can hold.
pub proof fn samples_are_signed_little_endian(s: Seq<u8>, i: int)
    requires
        0 <= i,
    ensures
        -0x8000 <= stored_sample(s, PcmEncoding::Int16, i) < 0x8000,
        (stored_sample(s, PcmEncoding::Int16, i) - (s[2 * i] + 256 * s[2 * i + 1])) % 0x1_0000 == 0,
        -0x80_0000 <= stored_sample(s, PcmEncoding::Int24, i) < 0x80_0000,
        (stored_sample(s, PcmEncoding::Int24, i) - (s[3 * i] + 256 * s[3 * i + 1] + 65_536 * s[3 * i
            + 2])) % 0x100_0000 == 0,
        -0x8000_0000 <= stored_sample(s, PcmEncoding::Int32, i) < 0x8000_0000,
        (stored_sample(s, PcmEncoding::Int32, i) - (s[4 * i] + 256 * s[4 * i + 1] + 65_536 * s[4 * i
            + 2] + 16_777_216 * s[4 * i + 3])) % 0x1_0000_0000 == 0,
{
    reveal(bytes::le16);
    reveal(bytes::le32);
}

/// What a format chunk says stands in its bytes: the channels, the rate, the bytes of a frame
/// and the bits of a sample.
pub proof fn formats_stand_in_their_bytes(s: Seq<u8>, at: int, size: nat)
    requires
        format_of(s, at, size) is Ok,
    ensures
        ({
            let f = format_of(s, at, size)->Ok_0;
            &&& size >= 16
            &&& f.channels == s[at + 2] + 256 * s[at + 3]
            &&& f.sample_rate == s[at + 4] + 256 * s[at + 5] + 65_536 * s[at + 6] + 16_777_216 * s[at
                + 7]
            &&& f.block_align == s[at + 12] + 256 * s[at + 13]
            &&& f.bits_per_sample == s[at + 14] + 256 * s[at + 15]
            &&& f.bits_per_sample == 16 || f.bits_per_sample == 24 || f.bits_per_sample == 32
            &&& f.encoding == PcmEncoding::Int16 <==> f.bits_per_sample == 16
            &&& f.encoding == PcmEncoding::Int24 <==> f.bits_per_sample == 24
            &&& f.encoding == PcmEncoding::Float32 ==> s[at] == 3 && s[at + 1] == 0 || s[at] == 0xFE
                && s[at + 1] == 0xFF && s[at + 24] == 3
            &&& f.encoding == PcmEncoding::Int32 ==> s[at] == 1 && s[at + 1] == 0 || s[at] == 0xFE
                && s[at + 1] == 0xFF && s[at + 24] == 1
        }),
{
    reveal(bytes::le16);
    reveal(bytes::le32);
}

proof fn lemma_scan_chunks(
    s: Seq<u8>,
    at: int,
    left: nat,
    format: Option<WavFormat>,
    data: Option<(nat, nat)>,
)
    requires
        0 <= at,
        at % 2 == 0,
        scan_chunks(s, at, left, format, data) is Ok,
    ensures
        ({
            let (f, d) = scan_chunks(s, at, left, format, data)->Ok_0;
            &&& data is Some ==> d == data
            &&& d is Some && data is None ==> {
                let chunk = d->0;
                let p = chunk.0 as int;
                &&& at + 8 <= p
                &&& p % 2 == 0
                &&& p + chunk.1 <= s.len()
                &&& bytes::be32(s, p - 8) == DATA
                &&& bytes::le32(s, p - 4) == chunk.1
            }
            &&& f != format ==> exists|q: int|
                at + 8 <= q && q % 2 == 0 && bytes::be32(s, q - 8) == FMT && #[trigger] format_of(
                    s,
                    q,
                    bytes::le32(s, q - 4),
                ) == Ok::<WavFormat, Seq<char>>(f->0) && f is Some
        }),
    decreases left,
{
    if left > 0 && at + 8 <= s.len() {
        let kind = bytes::be32(s, at);
        let size = bytes::le32(s, at + 4);
        let next = at + 8 + size + size % 2;
        let (f, d) = scan_chunks(s, at, left, format, data)->Ok_0;
        if kind == FMT {
            let here = format_of(s, at + 8, size)->Ok_0;
            lemma_scan_chunks(s, next, (left - 1) as nat, Some(here), data);
            if f == Some(here) {
                assert(format_of(s, at + 8, bytes::le32(s, at + 8 - 4)) == Ok::<
                    WavFormat,
                    Seq<char>,
                >(f->0));
            }
        } else if kind == DATA && data is None {
            lemma_scan_chunks(
                s,
                next,
                (left - 1) as nat,
                format,
                Some(((at + 8) as nat, size)),
            );
        } else {
            lemma_scan_chunks(s, next, (left - 1) as nat, format, data);
        }
    }
}

/// The samples of a file are those of a data chunk of it: they start behind its name and
/// length, at an even place, and are as many whole frames as its length holds. What they are
/// like is what a format chunk of the file says.
pub proof fn samples_lie_in_a_data_chunk(s: Seq<u8>)
    requires
        wav_of(s) is Ok,
    ensures
        ({
            let w = wav_of(s)->Ok_0;
            let size = bytes::le32(s, w.data_offset - 4);
            &&& w.data_offset >= 20
            &&& w.data_offset % 2 == 0
            &&& bytes::be32(s, w.data_offset - 8) == 0x6461_7461
            &&& w.data_offset + size <= s.len()
            &&& w.data_bytes == w.frame_count * w.block_align
            &&& w.data_bytes <= size < w.data_bytes + w.block_align
            &&& exists|q: int|
                20 <= q && q % 2 == 0 && bytes::be32(s, q - 8) == 0x666d_7420 && (
                #[trigger] format_of(s, q, bytes::le32(s, q - 4))) == Ok::<WavFormat, Seq<char>>(
                    (WavFormat {
                        encoding: w.encoding,
                        channels: w.channels,
                        sample_rate: w.sample_rate,
                        bits_per_sample: w.bits_per_sample,
                        block_align: w.block_align,
                    }),
                )
        }),
{
    lemma_scan_chunks(s, 12, MAX_CHUNKS as nat, None, None);
    let (f, d) = scan_chunks(s, 12, MAX_CHUNKS as nat, None, None)->Ok_0;
    let chunk = d->0;
    let size = chunk.1;
    let align = f->0.block_align as nat;
    let frames = size / align;
    assert(frames * align <= size < frames * align + align) by (nonlinear_arith)
        requires
            frames == size / align,
            align > 0,
    ;
    let q = choose|q: int|
        20 <= q && q % 2 == 0 && bytes::be32(s, q - 8) == FMT && #[trigger] format_of(
            s,
            q,
            bytes::le32(s, q - 4),
        ) == Ok::<WavFormat, Seq<char>>(f->0) && f is Some;
    assert(frames <= size) by (nonlinear_arith)
        requires
            frames == size / align,
            align > 0,
    ;
}

} // verus!
