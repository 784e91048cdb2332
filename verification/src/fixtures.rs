//! Synthetic media: clocks, fragmented MP4 segments and PCM WAV files, for
//! exercising the readers without capture devices.
use crate::bytes;
use crate::project::media_validator;
use crate::project::media_validator::{DATA, FMT, RIFF, WAVE};
use crate::project::mp4;
use crate::project::pcm;
use crate::session::clock;
use crate::session::clock::SessionEpoch;
use vstd::prelude::*;

pub mod acceptance;

verus! {

/// A box of type `kind`: its size, modulo `2^32`, its type and its payload.
#[verifier::opaque]
pub open spec fn boxed(kind: nat, payload: Seq<u8>) -> Seq<u8> {
    bytes::be32_bytes((payload.len() + 8) % 0x1_0000_0000) + bytes::be32_bytes(kind) + payload
}

/// `boxed` for a type given by its four bytes.
pub open spec fn boxed_as(kind: Seq<u8>, payload: Seq<u8>) -> Seq<u8> {
    bytes::be32_bytes((payload.len() + 8) % 0x1_0000_0000) + kind + payload
}

/// Wraps a payload into a box.
pub fn make_mp4_box(box_type: &[u8; 4], payload: &[u8]) -> (out: Vec<u8>)
    requires
        payload@.len() + 8 <= usize::MAX,
    ensures
        out@ == boxed_as(box_type@, payload@),
{
    let mut out: Vec<u8> = Vec::new();
    bytes::push_be32(&mut out, ((payload.len() + 8) as u64 % 0x1_0000_0000) as u32);
    out.push(box_type[0]);
    out.push(box_type[1]);
    out.push(box_type[2]);
    out.push(box_type[3]);
    bytes::push_all(&mut out, payload);
    assert(out@ =~= boxed_as(box_type@, payload@));
    out
}

/// Appends the box of type `kind` around `payload`.
fn push_box(out: &mut Vec<u8>, kind: u32, payload: &Vec<u8>)
    requires
        payload@.len() + 8 <= u32::MAX,
    ensures
        final(out)@ == old(out)@ + boxed(kind as nat, payload@),
        boxed(kind as nat, payload@).len() == payload@.len() + 8,
{
    proof {
        reveal(boxed);
    }
    bytes::push_be32(out, (payload.len() + 8) as u32);
    bytes::push_be32(out, kind);
    bytes::push_all(out, payload.as_slice());
    assert(out@ =~= old(out)@ + boxed(kind as nat, payload@));
}

/// Further box types of a movie.
pub const MVHD: u32 = 0x6d76_6864;

pub const TKHD: u32 = 0x746b_6864;

pub const HDLR: u32 = 0x6864_6c72;

pub const VMHD: u32 = 0x766d_6864;

pub const DINF: u32 = 0x6469_6e66;

pub const DREF: u32 = 0x6472_6566;

pub const URL: u32 = 0x7572_6c20;

pub const STSD: u32 = 0x7374_7364;

pub const AVC1: u32 = 0x6176_6331;

pub const MVEX: u32 = 0x6d76_6578;

pub const TREX: u32 = 0x7472_6578;

pub const MFHD: u32 = 0x6d66_6864;

pub const TFHD: u32 = 0x7466_6864;

pub const ISOM: u32 = 0x6973_6f6d;

pub const ISO2: u32 = 0x6973_6f32;

pub const MP41: u32 = 0x6d70_3431;

pub const VIDE: u32 = 0x7669_6465;

/// The media clock of the segments.
pub const FIXTURE_TIMESCALE: u32 = 90_000;

/// From the start of a fragment to its media data: the fragment's 100 bytes and
/// the header of the media box.
pub const FRAGMENT_DATA_OFFSET: u32 = 108;

/// The bytes of the one sample.
pub const FIXTURE_SAMPLE_BYTES: u32 = 64;

/// An empty byte string, to append to.
pub open spec fn nothing() -> Seq<u8> {
    Seq::<u8>::empty()
}

#[verifier::opaque]
pub open spec fn ftyp_payload() -> Seq<u8> {
    nothing() + bytes::be32_bytes(ISOM as nat) + bytes::be32_bytes(0x200) + bytes::be32_bytes(
        ISOM as nat,
    ) + bytes::be32_bytes(ISO2 as nat) + bytes::be32_bytes(AVC1 as nat) + bytes::be32_bytes(
        MP41 as nat,
    )
}

fn make_ftyp() -> (p: Vec<u8>)
    ensures
        p@ == ftyp_payload(),
        p@.len() == 24,
{
    proof {
        reveal(ftyp_payload);
    }
    let mut p: Vec<u8> = Vec::new();
    bytes::push_be32(&mut p, ISOM);
    bytes::push_be32(&mut p, 0x200);
    bytes::push_be32(&mut p, ISOM);
    bytes::push_be32(&mut p, ISO2);
    bytes::push_be32(&mut p, AVC1);
    bytes::push_be32(&mut p, MP41);
    p
}

/// The identity transformation of a movie or a track.
#[verifier::opaque]
pub open spec fn unity_matrix() -> Seq<u8> {
    nothing() + bytes::be32_bytes(0x10000) + bytes::zeros(12) + bytes::be32_bytes(0x10000)
        + bytes::zeros(12) + bytes::be32_bytes(0x4000_0000)
}

fn make_matrix() -> (p: Vec<u8>)
    ensures
        p@ == unity_matrix(),
        p@.len() == 36,
{
    proof {
        reveal(unity_matrix);
    }
    let mut p: Vec<u8> = Vec::new();
    bytes::push_be32(&mut p, 0x10000);
    bytes::push_zeros(&mut p, 12);
    bytes::push_be32(&mut p, 0x10000);
    bytes::push_zeros(&mut p, 12);
    bytes::push_be32(&mut p, 0x4000_0000);
    p
}

/// Version and flags, creation, modification, a clock of 1000 ticks a second,
/// duration, rate, volume, matrix, and the next track's number.
#[verifier::opaque]
pub open spec fn mvhd_payload() -> Seq<u8> {
    nothing() + bytes::zeros(12) + bytes::be32_bytes(1000) + bytes::zeros(4) + bytes::be32_bytes(
        0x10000,
    ) + bytes::be16_bytes(0x100) + bytes::zeros(10) + unity_matrix() + bytes::zeros(24)
        + bytes::be32_bytes(2)
}

fn make_mvhd() -> (p: Vec<u8>)
    ensures
        p@ == mvhd_payload(),
        p@.len() == 100,
{
    proof {
        reveal(mvhd_payload);
    }
    let mut p: Vec<u8> = Vec::new();
    bytes::push_zeros(&mut p, 12);
    bytes::push_be32(&mut p, 1000);
    bytes::push_zeros(&mut p, 4);
    bytes::push_be32(&mut p, 0x10000);
    bytes::push_be16(&mut p, 0x100);
    bytes::push_zeros(&mut p, 10);
    bytes::push_all(&mut p, make_matrix().as_slice());
    bytes::push_zeros(&mut p, 24);
    bytes::push_be32(&mut p, 2);
    p
}

/// Track 1, enabled and in the movie, 1920 by 1080 in 16.16 fixed point.
#[verifier::opaque]
pub open spec fn tkhd_payload() -> Seq<u8> {
    nothing() + bytes::be32_bytes(3) + bytes::zeros(8) + bytes::be32_bytes(1) + bytes::zeros(24)
        + unity_matrix() + bytes::be32_bytes(0x780_0000) + bytes::be32_bytes(0x438_0000)
}

fn make_tkhd() -> (p: Vec<u8>)
    ensures
        p@ == tkhd_payload(),
        p@.len() == 84,
{
    proof {
        reveal(tkhd_payload);
    }
    let mut p: Vec<u8> = Vec::new();
    bytes::push_be32(&mut p, 3);
    bytes::push_zeros(&mut p, 8);
    bytes::push_be32(&mut p, 1);
    bytes::push_zeros(&mut p, 24);
    bytes::push_all(&mut p, make_matrix().as_slice());
    bytes::push_be32(&mut p, 0x780_0000);
    bytes::push_be32(&mut p, 0x438_0000);
    p
}

/// A media header of version 0 with the fixture's clock and no duration.
#[verifier::opaque]
pub open spec fn mdhd_payload() -> Seq<u8> {
    nothing() + bytes::zeros(12) + bytes::be32_bytes(FIXTURE_TIMESCALE as nat) + bytes::zeros(8)
}

fn make_mdhd() -> (p: Vec<u8>)
    ensures
        p@ == mdhd_payload(),
        p@.len() == 24,
{
    proof {
        reveal(mdhd_payload);
    }
    let mut p: Vec<u8> = Vec::new();
    bytes::push_zeros(&mut p, 12);
    bytes::push_be32(&mut p, FIXTURE_TIMESCALE);
    bytes::push_zeros(&mut p, 8);
    p
}

/// A video handler named "VideoHandler", with a closing zero byte.
#[verifier::opaque]
pub open spec fn hdlr_payload() -> Seq<u8> {
    nothing() + bytes::zeros(8) + bytes::be32_bytes(VIDE as nat) + bytes::zeros(12)
        + bytes::be32_bytes(0x5669_6465) + bytes::be32_bytes(0x6f48_616e) + bytes::be32_bytes(
        0x646c_6572,
    ) + bytes::zeros(1)
}

fn make_hdlr() -> (p: Vec<u8>)
    ensures
        p@ == hdlr_payload(),
        p@.len() == 37,
{
    proof {
        reveal(hdlr_payload);
    }
    let mut p: Vec<u8> = Vec::new();
    bytes::push_zeros(&mut p, 8);
    bytes::push_be32(&mut p, VIDE);
    bytes::push_zeros(&mut p, 12);
    bytes::push_be32(&mut p, 0x5669_6465);
    bytes::push_be32(&mut p, 0x6f48_616e);
    bytes::push_be32(&mut p, 0x646c_6572);
    bytes::push_zeros(&mut p, 1);
    p
}

/// A data reference to the file itself.
#[verifier::opaque]
pub open spec fn dref_payload() -> Seq<u8> {
    nothing() + bytes::zeros(4) + bytes::be32_bytes(1) + boxed(
        URL as nat,
        nothing() + bytes::be32_bytes(1),
    )
}

#[verifier::opaque]
pub open spec fn dinf_payload() -> Seq<u8> {
    nothing() + boxed(DREF as nat, dref_payload())
}

fn make_dinf() -> (p: Vec<u8>)
    ensures
        p@ == dinf_payload(),
        p@.len() == 28,
{
    proof {
        reveal(dref_payload);
        reveal(dinf_payload);
    }
    let mut url: Vec<u8> = Vec::new();
    bytes::push_be32(&mut url, 1);
    let mut dref: Vec<u8> = Vec::new();
    bytes::push_zeros(&mut dref, 4);
    bytes::push_be32(&mut dref, 1);
    push_box(&mut dref, URL, &url);
    let mut p: Vec<u8> = Vec::new();
    push_box(&mut p, DREF, &dref);
    p
}

/// One H.264 sample description, 1920 by 1080 at 72 dots per inch.
#[verifier::opaque]
pub open spec fn avc1_payload() -> Seq<u8> {
    nothing() + bytes::zeros(6) + bytes::be16_bytes(1) + bytes::zeros(16) + bytes::be16_bytes(1920)
        + bytes::be16_bytes(1080) + bytes::be32_bytes(0x48_0000) + bytes::be32_bytes(0x48_0000)
        + bytes::zeros(4) + bytes::be16_bytes(1) + bytes::zeros(32) + bytes::be16_bytes(0x18)
        + bytes::be16_bytes(0xffff)
}

#[verifier::opaque]
pub open spec fn stsd_payload() -> Seq<u8> {
    nothing() + bytes::zeros(4) + bytes::be32_bytes(1) + boxed(AVC1 as nat, avc1_payload())
}

fn make_stsd() -> (p: Vec<u8>)
    ensures
        p@ == stsd_payload(),
        p@.len() == 94,
{
    proof {
        reveal(avc1_payload);
        reveal(stsd_payload);
    }
    let mut avc1: Vec<u8> = Vec::new();
    bytes::push_zeros(&mut avc1, 6);
    bytes::push_be16(&mut avc1, 1);
    bytes::push_zeros(&mut avc1, 16);
    bytes::push_be16(&mut avc1, 1920);
    bytes::push_be16(&mut avc1, 1080);
    bytes::push_be32(&mut avc1, 0x48_0000);
    bytes::push_be32(&mut avc1, 0x48_0000);
    bytes::push_zeros(&mut avc1, 4);
    bytes::push_be16(&mut avc1, 1);
    bytes::push_zeros(&mut avc1, 32);
    bytes::push_be16(&mut avc1, 0x18);
    bytes::push_be16(&mut avc1, 0xffff);
    let mut p: Vec<u8> = Vec::new();
    bytes::push_zeros(&mut p, 4);
    bytes::push_be32(&mut p, 1);
    push_box(&mut p, AVC1, &avc1);
    p
}

/// Sample tables without samples: the samples are in the fragment.
#[verifier::opaque]
pub open spec fn stbl_payload() -> Seq<u8> {
    nothing() + boxed(STSD as nat, stsd_payload()) + boxed(mp4::STTS as nat, nothing()
        + bytes::zeros(8)) + boxed(mp4::STSC as nat, nothing() + bytes::zeros(8)) + boxed(
        mp4::STSZ as nat,
        nothing() + bytes::zeros(12),
    ) + boxed(mp4::STCO as nat, nothing() + bytes::zeros(8))
}

fn make_stbl() -> (p: Vec<u8>)
    ensures
        p@ == stbl_payload(),
        p@.len() == 170,
{
    proof {
        reveal(stbl_payload);
    }
    let mut eight: Vec<u8> = Vec::new();
    bytes::push_zeros(&mut eight, 8);
    let mut twelve: Vec<u8> = Vec::new();
    bytes::push_zeros(&mut twelve, 12);
    let mut p: Vec<u8> = Vec::new();
    push_box(&mut p, STSD, &make_stsd());
    push_box(&mut p, mp4::STTS, &eight);
    push_box(&mut p, mp4::STSC, &eight);
    push_box(&mut p, mp4::STSZ, &twelve);
    push_box(&mut p, mp4::STCO, &eight);
    p
}

#[verifier::opaque]
pub open spec fn minf_payload() -> Seq<u8> {
    nothing() + boxed(VMHD as nat, nothing() + bytes::be32_bytes(1) + bytes::zeros(8)) + boxed(
        DINF as nat,
        dinf_payload(),
    ) + boxed(mp4::STBL as nat, stbl_payload())
}

fn make_minf() -> (p: Vec<u8>)
    ensures
        p@ == minf_payload(),
        p@.len() == 234,
{
    proof {
        reveal(minf_payload);
    }
    let mut vmhd: Vec<u8> = Vec::new();
    bytes::push_be32(&mut vmhd, 1);
    bytes::push_zeros(&mut vmhd, 8);
    let mut p: Vec<u8> = Vec::new();
    push_box(&mut p, VMHD, &vmhd);
    push_box(&mut p, DINF, &make_dinf());
    push_box(&mut p, mp4::STBL, &make_stbl());
    p
}

#[verifier::opaque]
pub open spec fn mdia_payload() -> Seq<u8> {
    nothing() + boxed(mp4::MDHD as nat, mdhd_payload()) + boxed(HDLR as nat, hdlr_payload())
        + boxed(mp4::MINF as nat, minf_payload())
}

#[verifier::opaque]
pub open spec fn trak_payload() -> Seq<u8> {
    nothing() + boxed(TKHD as nat, tkhd_payload()) + boxed(mp4::MDIA as nat, mdia_payload())
}

fn make_mdia() -> (p: Vec<u8>)
    ensures
        p@ == mdia_payload(),
        p@.len() == 319,
{
    proof {
        reveal(mdia_payload);
    }
    let mut p: Vec<u8> = Vec::new();
    push_box(&mut p, mp4::MDHD, &make_mdhd());
    push_box(&mut p, HDLR, &make_hdlr());
    push_box(&mut p, mp4::MINF, &make_minf());
    p
}

fn make_trak() -> (p: Vec<u8>)
    ensures
        p@ == trak_payload(),
        p@.len() == 419,
{
    proof {
        reveal(trak_payload);
    }
    let mut p: Vec<u8> = Vec::new();
    push_box(&mut p, TKHD, &make_tkhd());
    push_box(&mut p, mp4::MDIA, &make_mdia());
    p
}

/// Track 1's defaults: one description, 3000 ticks and 64 bytes a sample.
#[verifier::opaque]
pub open spec fn trex_payload() -> Seq<u8> {
    nothing() + bytes::zeros(4) + bytes::be32_bytes(1) + bytes::be32_bytes(1) + bytes::be32_bytes(
        3000,
    ) + bytes::be32_bytes(FIXTURE_SAMPLE_BYTES as nat) + bytes::zeros(4)
}

#[verifier::opaque]
pub open spec fn mvex_payload() -> Seq<u8> {
    nothing() + boxed(TREX as nat, trex_payload())
}

fn make_mvex() -> (p: Vec<u8>)
    ensures
        p@ == mvex_payload(),
        p@.len() == 32,
{
    proof {
        reveal(trex_payload);
        reveal(mvex_payload);
    }
    let mut trex: Vec<u8> = Vec::new();
    bytes::push_zeros(&mut trex, 4);
    bytes::push_be32(&mut trex, 1);
    bytes::push_be32(&mut trex, 1);
    bytes::push_be32(&mut trex, 3000);
    bytes::push_be32(&mut trex, FIXTURE_SAMPLE_BYTES);
    bytes::push_zeros(&mut trex, 4);
    let mut p: Vec<u8> = Vec::new();
    push_box(&mut p, TREX, &trex);
    p
}

#[verifier::opaque]
pub open spec fn moov_payload() -> Seq<u8> {
    nothing() + boxed(MVHD as nat, mvhd_payload()) + boxed(mp4::TRAK as nat, trak_payload())
        + boxed(MVEX as nat, mvex_payload())
}

fn make_moov() -> (p: Vec<u8>)
    ensures
        p@ == moov_payload(),
        p@.len() == 575,
{
    proof {
        reveal(moov_payload);
    }
    let mut p: Vec<u8> = Vec::new();
    push_box(&mut p, MVHD, &make_mvhd());
    push_box(&mut p, mp4::TRAK, &make_trak());
    push_box(&mut p, MVEX, &make_mvex());
    p
}

/// Microseconds in ticks of the fixture's clock.
pub open spec fn fixture_ticks(us: nat) -> nat {
    us * 90 / 1000
}

/// One run of one sample, with its data offset, the first sample's flags, its
/// duration, modulo `2^32`, and its size. A sample that is no sync sample says so
/// in bit 16.
#[verifier::opaque]
pub open spec fn trun_payload(duration_us: nat, is_keyframe: bool) -> Seq<u8> {
    nothing() + bytes::be32_bytes(0x305) + bytes::be32_bytes(1) + bytes::be32_bytes(
        FRAGMENT_DATA_OFFSET as nat,
    ) + bytes::be32_bytes(
        if is_keyframe {
            0x0200_0000
        } else {
            0x0001_0000
        },
    ) + bytes::be32_bytes(fixture_ticks(duration_us) % 0x1_0000_0000) + bytes::be32_bytes(
        FIXTURE_SAMPLE_BYTES as nat,
    )
}

#[verifier::opaque]
pub open spec fn traf_payload(start_us: nat, duration_us: nat, is_keyframe: bool) -> Seq<u8> {
    nothing() + boxed(TFHD as nat, nothing() + bytes::be32_bytes(0x2_0000) + bytes::be32_bytes(1))
        + boxed(
        mp4::TFDT as nat,
        nothing() + bytes::be32_bytes(0x100_0000) + bytes::be64_bytes(fixture_ticks(start_us)),
    ) + boxed(mp4::TRUN as nat, trun_payload(duration_us, is_keyframe))
}

#[verifier::opaque]
pub open spec fn moof_payload(start_us: nat, duration_us: nat, is_keyframe: bool) -> Seq<u8> {
    nothing() + boxed(MFHD as nat, nothing() + bytes::zeros(4) + bytes::be32_bytes(1)) + boxed(
        mp4::TRAF as nat,
        traf_payload(start_us, duration_us, is_keyframe),
    )
}

fn make_moof(start_us: u64, duration_us: u64, is_keyframe: bool) -> (p: Vec<u8>)
    ensures
        p@ == moof_payload(start_us as nat, duration_us as nat, is_keyframe),
        p@.len() == 92,
{
    proof {
        reveal(trun_payload);
        reveal(traf_payload);
        reveal(moof_payload);
    }
    let mut mfhd: Vec<u8> = Vec::new();
    bytes::push_zeros(&mut mfhd, 4);
    bytes::push_be32(&mut mfhd, 1);
    let mut tfhd: Vec<u8> = Vec::new();
    bytes::push_be32(&mut tfhd, 0x2_0000);
    bytes::push_be32(&mut tfhd, 1);
    let mut tfdt: Vec<u8> = Vec::new();
    bytes::push_be32(&mut tfdt, 0x100_0000);
    bytes::push_be64(&mut tfdt, ((start_us as u128) * 90 / 1000) as u64);
    let mut trun: Vec<u8> = Vec::new();
    bytes::push_be32(&mut trun, 0x305);
    bytes::push_be32(&mut trun, 1);
    bytes::push_be32(&mut trun, FRAGMENT_DATA_OFFSET);
    bytes::push_be32(
        &mut trun,
        if is_keyframe {
            0x0200_0000
        } else {
            0x0001_0000
        },
    );
    bytes::push_be32(&mut trun, ((duration_us as u128) * 90 / 1000 % 0x1_0000_0000) as u32);
    bytes::push_be32(&mut trun, FIXTURE_SAMPLE_BYTES);
    let mut traf: Vec<u8> = Vec::new();
    push_box(&mut traf, TFHD, &tfhd);
    push_box(&mut traf, mp4::TFDT, &tfdt);
    push_box(&mut traf, mp4::TRUN, &trun);
    let mut p: Vec<u8> = Vec::new();
    push_box(&mut p, MFHD, &mfhd);
    push_box(&mut p, mp4::TRAF, &traf);
    p
}

/// One sample of 64 bytes that starts like an H.264 unit, of a keyframe or not.
#[verifier::opaque]
pub open spec fn sample_payload(is_keyframe: bool) -> Seq<u8> {
    nothing() + bytes::be32_bytes(1) + seq![
        if is_keyframe {
            0x65u8
        } else {
            0x41u8
        },
    ] + Seq::new(59, |i: int| 0xABu8)
}

fn make_sample(is_keyframe: bool) -> (p: Vec<u8>)
    ensures
        p@ == sample_payload(is_keyframe),
        p@.len() == 64,
{
    proof {
        reveal(sample_payload);
    }
    let mut p: Vec<u8> = Vec::new();
    bytes::push_be32(&mut p, 1);
    p.push(
        if is_keyframe {
            0x65
        } else {
            0x41
        },
    );
    let ghost head = p@;
    assert(head =~= nothing() + bytes::be32_bytes(1) + seq![
        if is_keyframe {
            0x65u8
        } else {
            0x41u8
        },
    ]);
    let mut i: usize = 0;
    while i < 59
        invariant
            i <= 59,
            p@ =~= head + Seq::new(i as nat, |k: int| 0xABu8),
        decreases 59 - i,
    {
        p.push(0xAB);
        i = i + 1;
    }
    p
}

/// A whole segment: file type, movie, one fragment and its media data.
#[verifier::opaque]
pub open spec fn fmp4_segment(start_us: nat, duration_us: nat, is_keyframe: bool) -> Seq<u8> {
    nothing() + boxed(mp4::FTYP as nat, ftyp_payload()) + boxed(mp4::MOOV as nat, moov_payload())
        + boxed(mp4::MOOF as nat, moof_payload(start_us, duration_us, is_keyframe)) + boxed(
        mp4::MDAT as nat,
        sample_payload(is_keyframe),
    )
}

/// Makes a fragmented MP4 segment of one sample that starts at `start_us` and
/// lasts `duration_us`, with boxes for file type, movie, fragment and media data.
pub fn generate_valid_fmp4_segment(start_us: u64, duration_us: u64, is_keyframe: bool) -> (out: Vec<
    u8,
>)
    ensures
        out@ == fmp4_segment(start_us as nat, duration_us as nat, is_keyframe),
{
    proof {
        reveal(fmp4_segment);
    }
    let mut out: Vec<u8> = Vec::new();
    push_box(&mut out, mp4::FTYP, &make_ftyp());
    push_box(&mut out, mp4::MOOV, &make_moov());
    push_box(&mut out, mp4::MOOF, &make_moof(start_us, duration_us, is_keyframe));
    push_box(&mut out, mp4::MDAT, &make_sample(is_keyframe));
    out
}

/// The two's-complement pattern of a sample.
pub open spec fn pattern16(v: i16) -> nat {
    if v >= 0 {
        v as nat
    } else {
        (v + 0x1_0000) as nat
    }
}

/// Samples as bytes, least significant first.
pub open spec fn pcm_bytes(samples: Seq<i16>) -> Seq<u8> {
    Seq::new(
        2 * samples.len(),
        |i: int|
            if i % 2 == 0 {
                bytes::low_byte(pattern16(samples[i / 2]))
            } else {
                bytes::low_byte(pattern16(samples[i / 2]) / 0x100)
            },
    )
}

/// The header of a 16-bit PCM file with `data_bytes` bytes of samples.
pub open spec fn wav_header(sample_rate: nat, channels: nat, data_bytes: nat) -> Seq<u8> {
    bytes::be32_bytes(RIFF as nat) + bytes::le32_bytes(36 + data_bytes) + bytes::be32_bytes(
        WAVE as nat,
    ) + bytes::be32_bytes(FMT as nat) + bytes::le32_bytes(16) + bytes::le16_bytes(1)
        + bytes::le16_bytes(channels) + bytes::le32_bytes(sample_rate) + bytes::le32_bytes(
        sample_rate * channels * 2,
    ) + bytes::le16_bytes(channels * 2) + bytes::le16_bytes(16) + bytes::be32_bytes(DATA as nat)
        + bytes::le32_bytes(data_bytes)
}

/// A 16-bit PCM file. Its header counts the bytes of samples modulo `2^32`.
pub open spec fn wav_file(sample_rate: nat, channels: nat, samples: Seq<i16>) -> Seq<u8> {
    wav_header(sample_rate, channels, (samples.len() * 2) % 0x1_0000_0000) + pcm_bytes(samples)
}

/// Whether the sizes that the header states are in its fields' range.
pub open spec fn wav_header_fits(sample_rate: nat, channels: nat, samples: nat) -> bool {
    &&& sample_rate * channels * 2 <= u32::MAX
    &&& channels * 2 <= u16::MAX
    &&& (samples * 2) % 0x1_0000_0000 + 36 <= u32::MAX
    &&& samples * 2 <= usize::MAX
}

fn make_wav(sample_rate: u32, channels: u16, samples: &[i16]) -> (out: Vec<u8>)
    requires
        wav_header_fits(sample_rate as nat, channels as nat, samples@.len()),
    ensures
        out@ == wav_file(sample_rate as nat, channels as nat, samples@),
{
    let data_bytes: u32 = ((samples.len() * 2) as u64 % 0x1_0000_0000) as u32;
    let mut out: Vec<u8> = Vec::new();
    assert(sample_rate * channels * 2 <= u32::MAX);
    assert(sample_rate * channels >= 0) by (nonlinear_arith)
        requires
            sample_rate >= 0,
            channels >= 0,
    ;
    bytes::push_be32(&mut out, RIFF);
    bytes::push_le32(&mut out, 36 + data_bytes);
    bytes::push_be32(&mut out, WAVE);
    bytes::push_be32(&mut out, FMT);
    bytes::push_le32(&mut out, 16);
    bytes::push_le16(&mut out, 1);
    bytes::push_le16(&mut out, channels);
    bytes::push_le32(&mut out, sample_rate);
    bytes::push_le32(&mut out, sample_rate * (channels as u32) * 2);
    bytes::push_le16(&mut out, channels * 2);
    bytes::push_le16(&mut out, 16);
    bytes::push_be32(&mut out, DATA);
    bytes::push_le32(&mut out, data_bytes);
    let ghost header = out@;
    assert(header =~= wav_header(
        sample_rate as nat,
        channels as nat,
        (samples@.len() * 2) % 0x1_0000_0000,
    ));
    let mut i: usize = 0;
    assert(out@ =~= header + pcm_bytes(samples@.take(0)));
    while i < samples.len()
        invariant
            i <= samples@.len(),
            out@ == header + pcm_bytes(samples@.take(i as int)),
        decreases samples@.len() - i,
    {
        let v: i16 = samples[i];
        let pattern: u16 = if v >= 0 {
            v as u16
        } else {
            (v as i32 + 0x1_0000) as u16
        };
        let ghost before = out@;
        bytes::push_le16(&mut out, pattern);
        i = i + 1;
        proof {
            let now = pcm_bytes(samples@.take(i as int));
            let prior = pcm_bytes(samples@.take(i - 1));
            assert(now =~= prior + bytes::le16_bytes(pattern as nat)) by {
                assert forall|k: int| 0 <= k < now.len() implies now[k] == (prior
                    + bytes::le16_bytes(pattern as nat))[k] by {
                    if k < prior.len() {
                        assert(samples@.take(i as int)[k / 2] == samples@.take(i - 1)[k / 2]);
                    } else {
                        assert(k / 2 == i - 1);
                    }
                }
            }
            assert(out@ =~= header + now);
        }
    }
    assert(samples@.take(samples@.len() as int) =~= samples@);
    out
}

/// Makes a 16-bit PCM WAV file of interleaved sample frames.
pub fn generate_pcm16_wav(sample_rate: u32, channels: u16, samples: &[i16]) -> (out: Vec<u8>)
    requires
        channels > 0,
        samples@.len() % (channels as nat) == 0,
        wav_header_fits(sample_rate as nat, channels as nat, samples@.len()),
    ensures
        out@ == wav_file(sample_rate as nat, channels as nat, samples@),
{
    make_wav(sample_rate, channels, samples)
}

/// The whole frames in a duration.
pub open spec fn wav_frames(duration_us: nat, sample_rate: nat) -> nat {
    duration_us * sample_rate / 1_000_000
}

/// A sawtooth with a period of 100 frames, the same on every channel.
pub open spec fn sawtooth(frames: nat, channels: nat) -> Seq<i16> {
    Seq::new(frames * channels, |j: int| (j / (channels as int) % 100 * 100) as i16)
}

/// Makes a 16-bit PCM WAV file of the given duration, filled with a sawtooth.
pub fn generate_valid_wav_segment(duration_us: u64, sample_rate: u32, channels: u16) -> (out: Vec<
    u8,
>)
    requires
        wav_frames(duration_us as nat, sample_rate as nat) < usize::MAX,
        wav_header_fits(
            sample_rate as nat,
            channels as nat,
            wav_frames(duration_us as nat, sample_rate as nat) * channels as nat,
        ),
    ensures
        out@ == wav_file(
            sample_rate as nat,
            channels as nat,
            sawtooth(wav_frames(duration_us as nat, sample_rate as nat), channels as nat),
        ),
{
    assert(0 <= duration_us * sample_rate <= 0xffff_ffff_ffff_ffff * 0xffff_ffff)
        by (nonlinear_arith)
        requires
            0 <= duration_us <= 0xffff_ffff_ffff_ffff,
            0 <= sample_rate <= 0xffff_ffff,
    ;
    let total: usize = ((duration_us as u128) * (sample_rate as u128) / 1_000_000) as usize;
    let ghost width = channels as int;
    let mut samples: Vec<i16> = Vec::new();
    let mut i: usize = 0;
    while i < total
        invariant
            i <= total < usize::MAX,
            width == channels,
            samples@ == sawtooth(i as nat, channels as nat),
        decreases total - i,
    {
        let value: i16 = ((i % 100) as i16) * 100;
        let mut c: u16 = 0;
        let ghost before = samples@;
        while c < channels
            invariant
                c <= channels == width,
                value == i % 100 * 100,
                before == sawtooth(i as nat, channels as nat),
                samples@ == before + Seq::new(c as nat, |k: int| value),
            decreases channels - c,
        {
            samples.push(value);
            c = c + 1;
            assert(samples@ =~= before + Seq::new(c as nat, |k: int| value));
        }
        proof {
            lemma_sawtooth_step(i as nat, channels as nat, value);
        }
        i = i + 1;
    }
    make_wav(sample_rate, channels, samples.as_slice())
}

proof fn lemma_sawtooth_step(frames: nat, channels: nat, value: i16)
    requires
        value == frames % 100 * 100,
    ensures
        sawtooth(frames + 1, channels) == sawtooth(frames, channels) + Seq::new(
            channels,
            |k: int| value,
        ),
{
    let next = sawtooth(frames + 1, channels);
    let prior = sawtooth(frames, channels);
    assert((frames + 1) * channels == frames * channels + channels) by (nonlinear_arith);
    assert forall|j: int| 0 <= j < next.len() implies next[j] == (prior + Seq::new(
        channels,
        |k: int| value,
    ))[j] by {
        if j >= prior.len() {
            assert(j / (channels as int) == frames) by (nonlinear_arith)
                requires
                    frames * channels <= j < frames * channels + channels,
                    channels > 0,
            ;
        }
    }
    assert(next =~= prior + Seq::new(channels, |k: int| value));
}

/// The header fields of a file of `n` samples.
spec fn has_wav_fields(s: Seq<u8>, sample_rate: nat, channels: nat, n: nat) -> bool {
    &&& s.len() == 44 + 2 * n
    &&& bytes::be32(s, 0) == RIFF
    &&& bytes::be32(s, 8) == WAVE
    &&& bytes::be32(s, 12) == FMT
    &&& bytes::le32(s, 16) == 16
    &&& bytes::le16(s, 20) == 1
    &&& bytes::le16(s, 22) == channels
    &&& bytes::le32(s, 24) == sample_rate
    &&& bytes::le16(s, 32) == channels * 2
    &&& bytes::le16(s, 34) == 16
    &&& bytes::be32(s, 36) == DATA
    &&& bytes::le32(s, 40) == (n * 2) % 0x1_0000_0000
}

proof fn lemma_wav_fields(sample_rate: nat, channels: nat, samples: Seq<i16>)
    requires
        wav_header_fits(sample_rate, channels, samples.len()),
        sample_rate <= u32::MAX,
    ensures
        has_wav_fields(
            wav_file(sample_rate, channels, samples),
            sample_rate,
            channels,
            samples.len(),
        ),
{
    reveal(bytes::be16);
    reveal(bytes::be32);
    reveal(bytes::le16);
    reveal(bytes::le32);
    let data = (samples.len() * 2) % 0x1_0000_0000;
    let h = wav_header(sample_rate, channels, data);
    let s = wav_file(sample_rate, channels, samples);
    assert(h.len() == 44);
    assert(forall|i: int| 0 <= i < 44 ==> #[trigger] s[i] == h[i]);
    let riff = bytes::be32_bytes(RIFF as nat);
    let wave = bytes::be32_bytes(WAVE as nat);
    let fmt = bytes::be32_bytes(FMT as nat);
    let tag = bytes::be32_bytes(DATA as nat);
    bytes::lemma_be32_round_trip(RIFF as nat);
    bytes::lemma_be32_round_trip(WAVE as nat);
    bytes::lemma_be32_round_trip(FMT as nat);
    bytes::lemma_be32_round_trip(DATA as nat);
    bytes::lemma_le16_round_trip(channels);
    bytes::lemma_le16_round_trip(channels * 2);
    bytes::lemma_le32_round_trip(sample_rate);
    bytes::lemma_le32_round_trip(data);
    let rate = bytes::le32_bytes(sample_rate);
    let size = bytes::le32_bytes(data);
    let width = bytes::le16_bytes(channels);
    let align = bytes::le16_bytes(channels * 2);
    assert(h[0] == riff[0] && h[1] == riff[1] && h[2] == riff[2] && h[3] == riff[3]);
    assert(h[8] == wave[0] && h[9] == wave[1] && h[10] == wave[2] && h[11] == wave[3]);
    assert(h[12] == fmt[0] && h[13] == fmt[1] && h[14] == fmt[2] && h[15] == fmt[3]);
    assert(h[16] == 16 && h[17] == 0 && h[18] == 0 && h[19] == 0);
    assert(h[20] == 1 && h[21] == 0);
    assert(h[22] == width[0] && h[23] == width[1]);
    assert(h[24] == rate[0] && h[25] == rate[1] && h[26] == rate[2] && h[27] == rate[3]);
    assert(h[32] == align[0] && h[33] == align[1]);
    assert(h[34] == 16 && h[35] == 0);
    assert(h[36] == tag[0] && h[37] == tag[1] && h[38] == tag[2] && h[39] == tag[3]);
    assert(h[40] == size[0] && h[41] == size[1] && h[42] == size[2] && h[43] == size[3]);
}

proof fn lemma_chunks_read(s: Seq<u8>, sample_rate: nat, channels: nat, n: nat)
    requires
        has_wav_fields(s, sample_rate, channels, n),
        n * 2 < 0x1_0000_0000,
    ensures
        pcm::scan_chunks(s, 12, pcm::MAX_CHUNKS as nat, None, None) == Ok::<
            (Option<pcm::WavFormat>, Option<(nat, nat)>),
            Seq<char>,
        >(
            (
                Some(
                    pcm::WavFormat {
                        encoding: pcm::PcmEncoding::Int16,
                        channels: channels as u16,
                        sample_rate: sample_rate as u32,
                        bits_per_sample: 16,
                        block_align: (channels * 2) as u16,
                    },
                ),
                Some((44, 2 * n)),
            ),
        ),
{
    let left = pcm::MAX_CHUNKS as nat;
    let f = pcm::format_of(s, 20, 16);
    assert(f is Ok);
    let format = f->Ok_0;
    assert(pcm::scan_chunks(s, 12, left, None, None) == pcm::scan_chunks(
        s,
        36,
        (left - 1) as nat,
        Some(format),
        None,
    ));
    assert(pcm::scan_chunks(s, 36, (left - 1) as nat, Some(format), None) == pcm::scan_chunks(
        s,
        (44 + 2 * n) as int,
        (left - 2) as nat,
        Some(format),
        Some((44, 2 * n)),
    ));
}

proof fn lemma_wav_scanned(s: Seq<u8>, sample_rate: nat, channels: nat, n: nat)
    requires
        has_wav_fields(s, sample_rate, channels, n),
        n * 2 < 0x1_0000_0000,
    ensures
        media_validator::scan_wav(s, 12, media_validator::assumed_wav()) == Ok::<
            media_validator::WavScan,
            media_validator::MediaRefusal,
        >((media_validator::WavScan { channels, sample_rate, bits: 16, data_size: 2 * n })),
        !media_validator::all_zero(s, 12, media_validator::probe_end(s, 12)),
{
    let w = media_validator::WavScan { channels, sample_rate, bits: 16, data_size: 0 };
    assert(media_validator::scan_wav(s, 12, media_validator::assumed_wav())
        == media_validator::scan_wav(s, 36, w));
    let v = media_validator::WavScan { data_size: 2 * n, ..w };
    assert(media_validator::scan_wav(s, 36, w) == media_validator::scan_wav(s, (44 + 2 * n) as int, v));
    assert(s[12] != 0 || s[13] != 0 || s[14] != 0 || s[15] != 0) by {
        reveal(bytes::be16);
        reveal(bytes::be32);
    }
}

/// A generated file with supported channels and rate, and at least one frame, is
/// read back with the frames it was made of.
pub proof fn generated_wav_is_read_back(sample_rate: nat, channels: nat, samples: Seq<i16>)
    requires
        1 <= channels <= pcm::MAX_CHANNELS,
        pcm::MIN_SAMPLE_RATE <= sample_rate <= pcm::MAX_SAMPLE_RATE,
        samples.len() > 0,
        samples.len() % channels == 0,
        44 + 2 * samples.len() <= pcm::MAX_WAV_BYTES,
    ensures
        pcm::wav_of(wav_file(sample_rate, channels, samples)) == Ok::<pcm::WavInfo, Seq<char>>(
            (pcm::WavInfo {
                encoding: pcm::PcmEncoding::Int16,
                channels: channels as u16,
                sample_rate: sample_rate as u32,
                bits_per_sample: 16,
                block_align: (2 * channels) as u16,
                data_offset: 44,
                data_bytes: (2 * samples.len()) as u64,
                frame_count: (samples.len() / channels) as u64,
            }),
        ),
{
    let s = wav_file(sample_rate, channels, samples);
    assert(sample_rate * channels * 2 <= 192_000 * 8 * 2) by (nonlinear_arith)
        requires
            sample_rate <= 192_000,
            channels <= 8,
    ;
    lemma_wav_fields(sample_rate, channels, samples);
    lemma_chunks_read(s, sample_rate, channels, samples.len());
    let n = samples.len();
    assert((2 * n) / (2 * channels) == n / channels) by (nonlinear_arith)
        requires
            channels > 0,
            n >= 0,
    ;
    assert((n / channels) * (2 * channels) == 2 * n) by (nonlinear_arith)
        requires
            channels > 0,
            n % channels == 0,
    ;
    assert(n / channels > 0) by (nonlinear_arith)
        requires
            channels > 0,
            n > 0,
            n % channels == 0,
    ;
}

/// A generated file with at least one channel, a rate, and a sample is accepted as
/// recorded audio, with the frames and the duration that it was made of.
pub proof fn generated_wav_is_valid(sample_rate: nat, channels: nat, samples: Seq<i16>)
    requires
        1 <= channels,
        1 <= sample_rate <= u32::MAX,
        samples.len() > 0,
        samples.len() * 2 + 36 <= u32::MAX,
        samples.len() % channels == 0,
        wav_header_fits(sample_rate, channels, samples.len()),
    ensures
        ({
            let frames = samples.len() / channels;
            media_validator::wav_facts(wav_file(sample_rate, channels, samples)) == Ok::<
                media_validator::MediaFacts,
                media_validator::MediaRefusal,
            >(
                (media_validator::MediaFacts {
                    container_format: "wav"@,
                    size_bytes: 44 + 2 * samples.len(),
                    start_us: 0,
                    end_us: frames * 1_000_000 / sample_rate,
                    duration_us: frames * 1_000_000 / sample_rate,
                    sample_count: frames,
                    is_keyframe_start: true,
                    media_timescale: sample_rate,
                    media_start_value: 0,
                    host_anchor_us: 0,
                }),
            )
        }),
{
    let s = wav_file(sample_rate, channels, samples);
    let n = samples.len();
    lemma_wav_fields(sample_rate, channels, samples);
    lemma_wav_scanned(s, sample_rate, channels, n);
    assert((channels * 16) / 8 == channels * 2);
    assert((2 * n) / (channels * 2) == n / channels) by (nonlinear_arith)
        requires
            channels > 0,
            n >= 0,
    ;
}

/// The times of synthetic pictures and sound, without capture devices.
#[derive(Debug, Clone, Copy, PartialEq, Eq, Structural)]
pub struct SyntheticCaptureStream {
    pub epoch: SessionEpoch,
    pub fps: u32,
    pub audio_sample_rate: u32,
    pub video_frame_count: u64,
    pub audio_sample_count: u64,
}

impl SyntheticCaptureStream {
    /// A stream that starts at a session's epoch.
    pub fn new(epoch: SessionEpoch, fps: u32, audio_sample_rate: u32) -> (r: Self)
        ensures
            r == (SyntheticCaptureStream {
                epoch,
                fps,
                audio_sample_rate,
                video_frame_count: 0,
                audio_sample_count: 0,
            }),
    {
        SyntheticCaptureStream {
            epoch,
            fps,
            audio_sample_rate,
            video_frame_count: 0,
            audio_sample_count: 0,
        }
    }

    /// The time of the next picture, by a clock that does not drift.
    pub fn next_video_frame_pts_us(&mut self) -> (pts_us: u128)
        requires
            old(self).fps > 0,
            old(self).video_frame_count < u64::MAX,
        ensures
            pts_us == old(self).video_frame_count * 1_000_000 / (old(self).fps as int),
            *final(self) == (SyntheticCaptureStream {
                video_frame_count: (old(self).video_frame_count + 1) as u64,
                ..*old(self)
            }),
    {
        let pts_us: u128 = (self.video_frame_count as u128) * 1_000_000 / (self.fps as u128);
        self.video_frame_count = self.video_frame_count + 1;
        pts_us
    }

    /// The time of the next samples of sound, and how long they last.
    pub fn next_audio_chunk_us(&mut self, chunk_samples: u64) -> (r: (u64, u64))
        requires
            old(self).audio_sample_rate > 0,
            old(self).audio_sample_count + chunk_samples <= u64::MAX,
        ensures
            r.0 == clock::sample_us(
                old(self).audio_sample_count as nat,
                old(self).audio_sample_rate as nat,
            ),
            r.1 == clock::sample_us(chunk_samples as nat, old(self).audio_sample_rate as nat),
            *final(self) == (SyntheticCaptureStream {
                audio_sample_count: (old(self).audio_sample_count + chunk_samples) as u64,
                ..*old(self)
            }),
    {
        let pts_us: u64 = SessionEpoch::samples_to_us(
            self.audio_sample_count,
            self.audio_sample_rate,
        );
        let dur_us: u64 = SessionEpoch::samples_to_us(chunk_samples, self.audio_sample_rate);
        self.audio_sample_count = self.audio_sample_count + chunk_samples;
        (pts_us, dur_us)
    }

    pub fn epoch(&self) -> (r: &SessionEpoch)
        ensures
            *r == self.epoch,
    {
        &self.epoch
    }

    pub fn video_frame_count(&self) -> (r: u64)
        ensures
            r == self.video_frame_count,
    {
        self.video_frame_count
    }

    pub fn audio_sample_count(&self) -> (r: u64)
        ensures
            r == self.audio_sample_count,
    {
        self.audio_sample_count
    }
}

} // verus!
