//! Generated MP4 segments and the checks that recordings go through.
use crate::bytes;
use crate::fixtures;
use crate::fixtures::{
    AVC1, DINF, DREF, FIXTURE_SAMPLE_BYTES, FIXTURE_TIMESCALE, HDLR, MFHD, MVEX, MVHD, STSD, TFHD,
    TKHD, TREX, URL, VMHD,
};
use crate::project::fragment;
use crate::project::media_validator;
use crate::project::mp4;
use crate::project::sample_table;
use vstd::prelude::*;

verus! {

/// Whether the box of type `kind` around `payload` stands at `at`.
spec fn has_box(s: Seq<u8>, at: int, kind: nat, payload: Seq<u8>) -> bool {
    &&& 0 <= at
    &&& at + 8 + payload.len() <= s.len()
    &&& s.subrange(at, at + 8 + payload.len()) == fixtures::boxed(kind, payload)
}

proof fn lemma_boxed_len(kind: nat, payload: Seq<u8>)
    ensures
        fixtures::boxed(kind, payload).len() == payload.len() + 8,
{
    reveal(fixtures::boxed);
}

/// What the header and the payload of a box read as.
proof fn lemma_head(s: Seq<u8>, at: int, kind: nat, payload: Seq<u8>)
    requires
        has_box(s, at, kind, payload),
        kind < 0x1_0000_0000,
        payload.len() + 8 < 0x1_0000_0000,
    ensures
        bytes::be32(s, at) == payload.len() + 8,
        bytes::be32(s, at + 4) == kind,
        s.subrange(at + 8, at + 8 + payload.len()) == payload,
        forall|i: int| 0 <= i < payload.len() ==> s[at + 8 + i] == #[trigger] payload[i],
{
    reveal(fixtures::boxed);
    reveal(bytes::be16);
    reveal(bytes::be32);
    let b = fixtures::boxed(kind, payload);
    let size = bytes::be32_bytes((payload.len() + 8) as nat);
    let name = bytes::be32_bytes(kind);
    bytes::lemma_be32_round_trip((payload.len() + 8) as nat);
    bytes::lemma_be32_round_trip(kind);
    assert forall|i: int| 0 <= i < b.len() implies s[at + i] == #[trigger] b[i] by {
        assert(s.subrange(at, at + 8 + payload.len())[i] == b[i]);
    }
    assert(b[0] == size[0] && b[1] == size[1] && b[2] == size[2] && b[3] == size[3]);
    assert(b[4] == name[0] && b[5] == name[1] && b[6] == name[2] && b[7] == name[3]);
    assert(s[at] == size[0] && s[at + 1] == size[1] && s[at + 2] == size[2] && s[at + 3] == size[3]);
    assert(s[at + 4] == name[0] && s[at + 5] == name[1] && s[at + 6] == name[2] && s[at + 7]
        == name[3]);
    assert forall|i: int| 0 <= i < payload.len() implies s[at + 8 + i] == #[trigger] payload[i] by {
        assert(b[8 + i] == payload[i]);
    }
    assert(s.subrange(at + 8, at + 8 + payload.len()) =~= payload);
}

/// A box inside a box stands in whatever the outer box stands in.
proof fn lemma_within(
    s: Seq<u8>,
    at: int,
    kind: nat,
    payload: Seq<u8>,
    o: int,
    inner: nat,
    inside: Seq<u8>,
)
    requires
        has_box(s, at, kind, payload),
        has_box(payload, o, inner, inside),
        kind < 0x1_0000_0000,
        payload.len() + 8 < 0x1_0000_0000,
    ensures
        has_box(s, at + 8 + o, inner, inside),
{
    lemma_head(s, at, kind, payload);
    assert(s.subrange(at + 8 + o, at + 8 + o + 8 + inside.len()) =~= payload.subrange(
        o,
        o + 8 + inside.len(),
    ));
}

/// Two boxes in a row.
proof fn lemma_row2(k1: nat, p1: Seq<u8>, k2: nat, p2: Seq<u8>)
    ensures
        ({
            let s = fixtures::nothing() + fixtures::boxed(k1, p1) + fixtures::boxed(k2, p2);
            &&& s.len() == p1.len() + p2.len() + 16
            &&& has_box(s, 0, k1, p1)
            &&& has_box(s, (p1.len() + 8) as int, k2, p2)
        }),
{
    lemma_boxed_len(k1, p1);
    lemma_boxed_len(k2, p2);
    let s = fixtures::nothing() + fixtures::boxed(k1, p1) + fixtures::boxed(k2, p2);
    assert(s.subrange(0, (8 + p1.len()) as int) =~= fixtures::boxed(k1, p1));
    assert(s.subrange(
        (p1.len() + 8) as int,
        (p1.len() + 8 + 8 + p2.len()) as int,
    ) =~= fixtures::boxed(k2, p2));
}

/// One box more at the end of a row.
proof fn lemma_row_more(row: Seq<u8>, kind: nat, payload: Seq<u8>)
    ensures
        ({
            let s = row + fixtures::boxed(kind, payload);
            &&& s.len() == row.len() + payload.len() + 8
            &&& has_box(s, row.len() as int, kind, payload)
        }),
{
    lemma_boxed_len(kind, payload);
    let s = row + fixtures::boxed(kind, payload);
    assert(s.subrange(row.len() as int, (row.len() + 8 + payload.len()) as int) =~= fixtures::boxed(
        kind,
        payload,
    ));
}

/// Boxes of a row stay when the row grows.
proof fn lemma_row_keeps(row: Seq<u8>, more: Seq<u8>, at: int, kind: nat, payload: Seq<u8>)
    requires
        has_box(row, at, kind, payload),
    ensures
        has_box(row + more, at, kind, payload),
{
    assert((row + more).subrange(at, at + 8 + payload.len()) =~= row.subrange(
        at,
        at + 8 + payload.len(),
    ));
}

/// Three boxes in a row.
proof fn lemma_row3(k1: nat, p1: Seq<u8>, k2: nat, p2: Seq<u8>, k3: nat, p3: Seq<u8>)
    ensures
        ({
            let s = fixtures::nothing() + fixtures::boxed(k1, p1) + fixtures::boxed(k2, p2)
                + fixtures::boxed(k3, p3);
            &&& s.len() == p1.len() + p2.len() + p3.len() + 24
            &&& has_box(s, 0, k1, p1)
            &&& has_box(s, (p1.len() + 8) as int, k2, p2)
            &&& has_box(s, (p1.len() + p2.len() + 16) as int, k3, p3)
        }),
{
    lemma_row2(k1, p1, k2, p2);
    let row = fixtures::nothing() + fixtures::boxed(k1, p1) + fixtures::boxed(k2, p2);
    lemma_row_more(row, k3, p3);
    lemma_row_keeps(row, fixtures::boxed(k3, p3), 0, k1, p1);
    lemma_row_keeps(row, fixtures::boxed(k3, p3), (p1.len() + 8) as int, k2, p2);
}

/// The movie box and its parts.
proof fn lemma_movie()
    ensures
        fixtures::moov_payload().len() == 575,
        has_box(fixtures::moov_payload(), 0, MVHD as nat, fixtures::mvhd_payload()),
        has_box(fixtures::moov_payload(), 108, mp4::TRAK as nat, fixtures::trak_payload()),
        has_box(fixtures::moov_payload(), 535, MVEX as nat, fixtures::mvex_payload()),
        fixtures::mvhd_payload().len() == 100,
        fixtures::trak_payload().len() == 419,
        fixtures::mvex_payload().len() == 32,
        has_box(fixtures::trak_payload(), 0, TKHD as nat, fixtures::tkhd_payload()),
        has_box(fixtures::trak_payload(), 92, mp4::MDIA as nat, fixtures::mdia_payload()),
        fixtures::tkhd_payload().len() == 84,
{
    lemma_media();
    reveal(fixtures::unity_matrix);
    reveal(fixtures::mvhd_payload);
    reveal(fixtures::tkhd_payload);
    reveal(fixtures::trak_payload);
    reveal(fixtures::trex_payload);
    reveal(fixtures::mvex_payload);
    reveal(fixtures::moov_payload);
    lemma_boxed_len(TREX as nat, fixtures::trex_payload());
    lemma_row2(
        TKHD as nat,
        fixtures::tkhd_payload(),
        mp4::MDIA as nat,
        fixtures::mdia_payload(),
    );
    lemma_row3(
        MVHD as nat,
        fixtures::mvhd_payload(),
        mp4::TRAK as nat,
        fixtures::trak_payload(),
        MVEX as nat,
        fixtures::mvex_payload(),
    );
}

/// The media box and its parts.
proof fn lemma_media()
    ensures
        fixtures::mdia_payload().len() == 319,
        has_box(fixtures::mdia_payload(), 0, mp4::MDHD as nat, fixtures::mdhd_payload()),
        has_box(fixtures::mdia_payload(), 32, HDLR as nat, fixtures::hdlr_payload()),
        has_box(fixtures::mdia_payload(), 77, mp4::MINF as nat, fixtures::minf_payload()),
        fixtures::mdhd_payload().len() == 24,
        fixtures::hdlr_payload().len() == 37,
        fixtures::minf_payload().len() == 234,
        has_box(
            fixtures::minf_payload(),
            0,
            VMHD as nat,
            fixtures::nothing() + bytes::be32_bytes(1) + bytes::zeros(8),
        ),
        has_box(fixtures::minf_payload(), 20, DINF as nat, fixtures::dinf_payload()),
        has_box(fixtures::minf_payload(), 56, mp4::STBL as nat, fixtures::stbl_payload()),
        fixtures::dinf_payload().len() == 28,
{
    lemma_tables();
    reveal(fixtures::mdhd_payload);
    reveal(fixtures::hdlr_payload);
    reveal(fixtures::dref_payload);
    reveal(fixtures::dinf_payload);
    reveal(fixtures::minf_payload);
    reveal(fixtures::mdia_payload);
    lemma_boxed_len(URL as nat, fixtures::nothing() + bytes::be32_bytes(1));
    lemma_boxed_len(DREF as nat, fixtures::dref_payload());
    lemma_row3(
        VMHD as nat,
        fixtures::nothing() + bytes::be32_bytes(1) + bytes::zeros(8),
        DINF as nat,
        fixtures::dinf_payload(),
        mp4::STBL as nat,
        fixtures::stbl_payload(),
    );
    lemma_row3(
        mp4::MDHD as nat,
        fixtures::mdhd_payload(),
        HDLR as nat,
        fixtures::hdlr_payload(),
        mp4::MINF as nat,
        fixtures::minf_payload(),
    );
}

/// The sample tables, up to the one of sizes.
proof fn lemma_tables()
    ensures
        fixtures::stbl_payload().len() == 170,
        fixtures::stsd_payload().len() == 94,
        has_box(fixtures::stbl_payload(), 0, STSD as nat, fixtures::stsd_payload()),
        has_box(
            fixtures::stbl_payload(),
            102,
            mp4::STTS as nat,
            fixtures::nothing() + bytes::zeros(8),
        ),
        has_box(
            fixtures::stbl_payload(),
            118,
            mp4::STSC as nat,
            fixtures::nothing() + bytes::zeros(8),
        ),
        has_box(
            fixtures::stbl_payload(),
            134,
            mp4::STSZ as nat,
            fixtures::nothing() + bytes::zeros(12),
        ),
{
    reveal(fixtures::avc1_payload);
    reveal(fixtures::stsd_payload);
    reveal(fixtures::stbl_payload);
    lemma_boxed_len(AVC1 as nat, fixtures::avc1_payload());
    let eight = fixtures::nothing() + bytes::zeros(8);
    let twelve = fixtures::nothing() + bytes::zeros(12);
    let sd = fixtures::stsd_payload();
    lemma_row3(STSD as nat, sd, mp4::STTS as nat, eight, mp4::STSC as nat, eight);
    let three = fixtures::nothing() + fixtures::boxed(STSD as nat, sd) + fixtures::boxed(
        mp4::STTS as nat,
        eight,
    ) + fixtures::boxed(mp4::STSC as nat, eight);
    lemma_row_more(three, mp4::STSZ as nat, twelve);
    let more = fixtures::boxed(mp4::STSZ as nat, twelve);
    lemma_row_keeps(three, more, 0, STSD as nat, sd);
    lemma_row_keeps(three, more, 102, mp4::STTS as nat, eight);
    lemma_row_keeps(three, more, 118, mp4::STSC as nat, eight);
    let four = three + more;
    lemma_row_more(four, mp4::STCO as nat, eight);
    let last = fixtures::boxed(mp4::STCO as nat, eight);
    lemma_row_keeps(four, last, 0, STSD as nat, sd);
    lemma_row_keeps(four, last, 102, mp4::STTS as nat, eight);
    lemma_row_keeps(four, last, 118, mp4::STSC as nat, eight);
    lemma_row_keeps(four, last, 134, mp4::STSZ as nat, twelve);
}

/// The fragment box and its parts.
proof fn lemma_moof(start_us: nat, duration_us: nat, is_keyframe: bool)
    ensures
        ({
            let moof = fixtures::moof_payload(start_us, duration_us, is_keyframe);
            let traf = fixtures::traf_payload(start_us, duration_us, is_keyframe);
            &&& moof.len() == 92
            &&& has_box(
                moof,
                0,
                MFHD as nat,
                fixtures::nothing() + bytes::zeros(4) + bytes::be32_bytes(1),
            )
            &&& has_box(moof, 16, mp4::TRAF as nat, traf)
            &&& traf.len() == 68
            &&& has_box(
                traf,
                0,
                TFHD as nat,
                fixtures::nothing() + bytes::be32_bytes(0x2_0000) + bytes::be32_bytes(1),
            )
            &&& has_box(
                traf,
                16,
                mp4::TFDT as nat,
                fixtures::nothing() + bytes::be32_bytes(0x100_0000) + bytes::be64_bytes(
                    fixtures::fixture_ticks(start_us),
                ),
            )
            &&& has_box(
                traf,
                36,
                mp4::TRUN as nat,
                fixtures::trun_payload(duration_us, is_keyframe),
            )
            &&& fixtures::trun_payload(duration_us, is_keyframe).len() == 24
        }),
{
    reveal(fixtures::trun_payload);
    reveal(fixtures::traf_payload);
    reveal(fixtures::moof_payload);
    let tfhd = fixtures::nothing() + bytes::be32_bytes(0x2_0000) + bytes::be32_bytes(1);
    let tfdt = fixtures::nothing() + bytes::be32_bytes(0x100_0000) + bytes::be64_bytes(
        fixtures::fixture_ticks(start_us),
    );
    let trun = fixtures::trun_payload(duration_us, is_keyframe);
    lemma_row3(TFHD as nat, tfhd, mp4::TFDT as nat, tfdt, mp4::TRUN as nat, trun);
    let mfhd = fixtures::nothing() + bytes::zeros(4) + bytes::be32_bytes(1);
    lemma_row2(
        MFHD as nat,
        mfhd,
        mp4::TRAF as nat,
        fixtures::traf_payload(start_us, duration_us, is_keyframe),
    );
}

/// The boxes of a file.
proof fn lemma_file(start_us: nat, duration_us: nat, is_keyframe: bool)
    ensures
        ({
            let s = fixtures::fmp4_segment(start_us, duration_us, is_keyframe);
            let moof = fixtures::moof_payload(start_us, duration_us, is_keyframe);
            &&& s.len() == 787
            &&& fixtures::ftyp_payload().len() == 24
            &&& fixtures::sample_payload(is_keyframe).len() == FIXTURE_SAMPLE_BYTES
            &&& has_box(s, 0, mp4::FTYP as nat, fixtures::ftyp_payload())
            &&& has_box(s, 32, mp4::MOOV as nat, fixtures::moov_payload())
            &&& has_box(s, 615, mp4::MOOF as nat, moof)
            &&& has_box(s, 715, mp4::MDAT as nat, fixtures::sample_payload(is_keyframe))
        }),
{
    lemma_movie();
    lemma_moof(start_us, duration_us, is_keyframe);
    reveal(fixtures::ftyp_payload);
    reveal(fixtures::sample_payload);
    reveal(fixtures::fmp4_segment);
    let moof = fixtures::moof_payload(start_us, duration_us, is_keyframe);
    let ftyp = fixtures::ftyp_payload();
    let moov = fixtures::moov_payload();
    lemma_row3(mp4::FTYP as nat, ftyp, mp4::MOOV as nat, moov, mp4::MOOF as nat, moof);
    let three = fixtures::nothing() + fixtures::boxed(mp4::FTYP as nat, ftyp) + fixtures::boxed(
        mp4::MOOV as nat,
        moov,
    ) + fixtures::boxed(mp4::MOOF as nat, moof);
    lemma_row_more(three, mp4::MDAT as nat, fixtures::sample_payload(is_keyframe));
    let more = fixtures::boxed(mp4::MDAT as nat, fixtures::sample_payload(is_keyframe));
    lemma_row_keeps(three, more, 0, mp4::FTYP as nat, ftyp);
    lemma_row_keeps(three, more, 32, mp4::MOOV as nat, moov);
    lemma_row_keeps(three, more, 615, mp4::MOOF as nat, moof);
}

proof fn lemma_box_at(s: Seq<u8>, at: int, end: int, kind: nat, payload: Seq<u8>)
    requires
        has_box(s, at, kind, payload),
        kind < 0x1_0000_0000,
        payload.len() + 8 < 0x1_0000_0000,
        at + 8 + payload.len() <= end,
    ensures
        mp4::box_at(s, at, end) == Ok::<mp4::BoxSpan, Seq<char>>(
            (mp4::BoxSpan { size: payload.len() + 8, kind, payload: at + 8 }),
        ),
{
    lemma_head(s, at, kind, payload);
}

proof fn lemma_find_next(s: Seq<u8>, at: int, kind: nat, payload: Seq<u8>, want: nat)
    requires
        has_box(s, at, kind, payload),
        kind < 0x1_0000_0000,
        payload.len() + 8 < 0x1_0000_0000,
    ensures
        sample_table::find_box(s, at, want) == if kind == want {
            Some(payload)
        } else {
            sample_table::find_box(s, at + 8 + payload.len(), want)
        },
{
    lemma_head(s, at, kind, payload);
}

/// The movie's sample tables hold no samples.
proof fn lemma_no_samples(mdat: (nat, nat))
    ensures
        sample_table::sample_table_of(
            fixtures::boxed(mp4::MOOV as nat, fixtures::moov_payload()),
            mdat,
        ) is Err,
{
    lemma_movie();
    lemma_media();
    lemma_tables();
    let movie = fixtures::boxed(mp4::MOOV as nat, fixtures::moov_payload());
    let moov = fixtures::moov_payload();
    let trak = fixtures::trak_payload();
    let mdia = fixtures::mdia_payload();
    let minf = fixtures::minf_payload();
    let stbl = fixtures::stbl_payload();
    let eight = fixtures::nothing() + bytes::zeros(8);
    let twelve = fixtures::nothing() + bytes::zeros(12);
    assert(movie.skip(8) =~= moov) by {
        reveal(fixtures::boxed);
    }
    lemma_boxed_len(mp4::MOOV as nat, moov);
    lemma_find_next(moov, 0, MVHD as nat, fixtures::mvhd_payload(), mp4::TRAK as nat);
    lemma_find_next(moov, 108, mp4::TRAK as nat, trak, mp4::TRAK as nat);
    lemma_find_next(trak, 0, TKHD as nat, fixtures::tkhd_payload(), mp4::MDIA as nat);
    lemma_find_next(trak, 92, mp4::MDIA as nat, mdia, mp4::MDIA as nat);
    lemma_find_next(mdia, 0, mp4::MDHD as nat, fixtures::mdhd_payload(), mp4::MINF as nat);
    lemma_find_next(mdia, 32, HDLR as nat, fixtures::hdlr_payload(), mp4::MINF as nat);
    lemma_find_next(mdia, 77, mp4::MINF as nat, minf, mp4::MINF as nat);
    let vmhd = fixtures::nothing() + bytes::be32_bytes(1) + bytes::zeros(8);
    lemma_find_next(minf, 0, VMHD as nat, vmhd, mp4::STBL as nat);
    lemma_find_next(minf, 20, DINF as nat, fixtures::dinf_payload(), mp4::STBL as nat);
    lemma_find_next(minf, 56, mp4::STBL as nat, stbl, mp4::STBL as nat);
    lemma_find_next(stbl, 0, STSD as nat, fixtures::stsd_payload(), mp4::STSZ as nat);
    lemma_find_next(stbl, 102, mp4::STTS as nat, eight, mp4::STSZ as nat);
    lemma_find_next(stbl, 118, mp4::STSC as nat, eight, mp4::STSZ as nat);
    lemma_find_next(stbl, 134, mp4::STSZ as nat, twelve, mp4::STSZ as nat);
    assert(bytes::be32(twelve, 8) == 0) by {
        reveal(bytes::be16);
        reveal(bytes::be32);
    }
    assert(sample_table::sizes_of(twelve) is Err);
}

/// The media header that the movie holds.
pub open spec fn fixture_mdhd() -> media_validator::MdhdInfo {
    media_validator::MdhdInfo {
        version: 0,
        timescale: FIXTURE_TIMESCALE,
        duration_ticks: 0,
        language: 0,
    }
}

proof fn lemma_mdhd(p: Seq<u8>)
    requires
        p.len() >= 24,
        forall|i: int|
            0 <= i < 24 ==> p[i] == #[trigger] fixtures::mdhd_payload()[i],
    ensures
        media_validator::mdhd_of(p) == Ok::<media_validator::MdhdInfo, Seq<char>>(fixture_mdhd()),
{
    reveal(fixtures::mdhd_payload);
    reveal(bytes::be16);
    reveal(bytes::be32);
    let m = fixtures::mdhd_payload();
    let rate = bytes::be32_bytes(FIXTURE_TIMESCALE as nat);
    bytes::lemma_be32_round_trip(FIXTURE_TIMESCALE as nat);
    assert(m[0] == 0);
    assert(m[12] == rate[0] && m[13] == rate[1] && m[14] == rate[2] && m[15] == rate[3]);
    assert(m[16] == 0 && m[17] == 0 && m[18] == 0 && m[19] == 0);
    assert(m[20] == 0 && m[21] == 0);
}

/// Reading the movie box gives its media header and no edit list.
proof fn lemma_moov_read()
    ensures
        media_validator::moov_of(fixtures::boxed(mp4::MOOV as nat, fixtures::moov_payload()))
            == Ok::<
            (media_validator::MdhdInfo, Option<media_validator::ElstInfo>),
            Seq<char>,
        >((fixture_mdhd(), None)),
{
    lemma_movie();
    lemma_media();
    let moov = fixtures::moov_payload();
    let trak = fixtures::trak_payload();
    let mdia = fixtures::mdia_payload();
    let s = fixtures::boxed(mp4::MOOV as nat, moov);
    lemma_boxed_len(mp4::MOOV as nat, moov);
    assert(s.subrange(0, (8 + moov.len()) as int) =~= s);
    assert(has_box(s, 0, mp4::MOOV as nat, moov));
    let kind = mp4::MOOV as nat;
    lemma_within(s, 0, kind, moov, 0, MVHD as nat, fixtures::mvhd_payload());
    lemma_within(s, 0, kind, moov, 108, mp4::TRAK as nat, trak);
    lemma_within(s, 0, kind, moov, 535, MVEX as nat, fixtures::mvex_payload());
    lemma_within(s, 116, mp4::TRAK as nat, trak, 0, TKHD as nat, fixtures::tkhd_payload());
    lemma_within(s, 116, mp4::TRAK as nat, trak, 92, mp4::MDIA as nat, mdia);
    lemma_within(s, 216, mp4::MDIA as nat, mdia, 0, mp4::MDHD as nat, fixtures::mdhd_payload());
    lemma_within(s, 216, mp4::MDIA as nat, mdia, 32, HDLR as nat, fixtures::hdlr_payload());
    lemma_within(s, 216, mp4::MDIA as nat, mdia, 77, mp4::MINF as nat, fixtures::minf_payload());
    lemma_box_at(s, 8, 583, MVHD as nat, fixtures::mvhd_payload());
    lemma_box_at(s, 116, 583, mp4::TRAK as nat, trak);
    lemma_box_at(s, 543, 583, MVEX as nat, fixtures::mvex_payload());
    lemma_box_at(s, 124, 543, TKHD as nat, fixtures::tkhd_payload());
    lemma_box_at(s, 216, 543, mp4::MDIA as nat, mdia);
    lemma_box_at(s, 224, 543, mp4::MDHD as nat, fixtures::mdhd_payload());
    lemma_box_at(s, 256, 543, HDLR as nat, fixtures::hdlr_payload());
    lemma_box_at(s, 301, 543, mp4::MINF as nat, fixtures::minf_payload());
    let found = Some(fixture_mdhd());
    lemma_head(s, 224, mp4::MDHD as nat, fixtures::mdhd_payload());
    let p = s.subrange(232, 256);
    assert forall|i: int| 0 <= i < 24 implies p[i] == #[trigger] fixtures::mdhd_payload()[i] by {
        assert(s[224 + 8 + i] == fixtures::mdhd_payload()[i]);
    }
    lemma_mdhd(p);
    assert(media_validator::scan_mdia(s, 543, 543, found) == Ok::<
        Option<media_validator::MdhdInfo>,
        Seq<char>,
    >(found));
    assert(media_validator::scan_mdia(s, 301, 543, found) == media_validator::scan_mdia(
        s,
        543,
        543,
        found,
    ));
    assert(media_validator::scan_mdia(s, 256, 543, found) == media_validator::scan_mdia(
        s,
        301,
        543,
        found,
    ));
    assert(media_validator::scan_mdia(s, 224, 543, None) == media_validator::scan_mdia(
        s,
        256,
        543,
        found,
    ));
    assert(media_validator::scan_trak(s, 216, 543, None, None) == media_validator::scan_trak(
        s,
        543,
        543,
        found,
        None,
    ));
    assert(media_validator::scan_trak(s, 124, 543, None, None) == media_validator::scan_trak(
        s,
        216,
        543,
        None,
        None,
    ));
    assert(media_validator::scan_movie(s, 543, found, None) == media_validator::scan_movie(
        s,
        583,
        found,
        None,
    ));
    assert(media_validator::scan_movie(s, 116, None, None) == media_validator::scan_movie(
        s,
        543,
        found,
        None,
    ));
    assert(media_validator::scan_movie(s, 8, None, None) == media_validator::scan_movie(
        s,
        116,
        None,
        None,
    ));
}

/// The ticks of a sample's duration as a run holds them.
pub open spec fn run_ticks(duration_us: nat) -> nat {
    fixtures::fixture_ticks(duration_us) % 0x1_0000_0000
}

/// What a fragment's run reads as, wherever it stands.
proof fn lemma_run(s: Seq<u8>, at: int, duration_us: nat, is_keyframe: bool, f: fragment::Fragment)
    requires
        has_box(s, at, mp4::TRUN as nat, fixtures::trun_payload(duration_us, is_keyframe)),
        fixtures::trun_payload(duration_us, is_keyframe).len() == 24,
    ensures
        fragment::after_box(s, at, f) == (fragment::Fragment {
            start_ticks: f.start_ticks,
            sample_ticks: run_ticks(duration_us) as u32,
            samples: 1,
            keyframe: is_keyframe,
        }),
{
    let p = fixtures::trun_payload(duration_us, is_keyframe);
    lemma_head(s, at, mp4::TRUN as nat, p);
    reveal(fixtures::trun_payload);
    reveal(bytes::be16);
    reveal(bytes::be32);
    let first: nat = if is_keyframe {
        0x0200_0000
    } else {
        0x0001_0000
    };
    let flags = bytes::be32_bytes(0x305);
    let one = bytes::be32_bytes(1);
    let mark = bytes::be32_bytes(first);
    let ticks = bytes::be32_bytes(run_ticks(duration_us));
    bytes::lemma_be32_round_trip(1);
    bytes::lemma_be32_round_trip(first);
    bytes::lemma_be32_round_trip(run_ticks(duration_us));
    assert(p[1] == flags[1] && p[2] == flags[2] && p[3] == flags[3]);
    assert(p[4] == one[0] && p[5] == one[1] && p[6] == one[2] && p[7] == one[3]);
    assert(p[12] == mark[0] && p[13] == mark[1] && p[14] == mark[2] && p[15] == mark[3]);
    assert(p[16] == ticks[0] && p[17] == ticks[1] && p[18] == ticks[2] && p[19] == ticks[3]);
    assert(s[at + 9] == p[1] && s[at + 10] == p[2] && s[at + 11] == p[3]);
    assert(s[at + 12] == p[4] && s[at + 13] == p[5] && s[at + 14] == p[6] && s[at + 15] == p[7]);
    assert(s[at + 20] == p[12] && s[at + 21] == p[13] && s[at + 22] == p[14] && s[at + 23]
        == p[15]);
    assert(s[at + 24] == p[16] && s[at + 25] == p[17] && s[at + 26] == p[18] && s[at + 27]
        == p[19]);
    assert(fragment::box_flags(s, at) == 0x305);
    assert(bytes::be32(s, at + 12) == 1);
    assert(bytes::be32(s, at + 20) == first);
    assert(bytes::be32(s, at + 24) == run_ticks(duration_us));
}

/// What a fragment's decode time reads as, wherever it stands.
proof fn lemma_time(s: Seq<u8>, at: int, start_us: nat, f: fragment::Fragment)
    requires
        start_us <= u64::MAX,
        has_box(
            s,
            at,
            mp4::TFDT as nat,
            fixtures::nothing() + bytes::be32_bytes(0x100_0000) + bytes::be64_bytes(
                fixtures::fixture_ticks(start_us),
            ),
        ),
    ensures
        fragment::after_box(s, at, f) == (fragment::Fragment {
            start_ticks: fixtures::fixture_ticks(start_us) as i64,
            ..f
        }),
{
    let ticks = fixtures::fixture_ticks(start_us);
    let time = bytes::be64_bytes(ticks);
    let version = bytes::be32_bytes(0x100_0000);
    let p = fixtures::nothing() + version + time;
    lemma_head(s, at, mp4::TFDT as nat, p);
    bytes::lemma_be64_round_trip(ticks);
    assert(p[0] == version[0]);
    assert(s[at + 8] == p[0]);
    assert(s[at + 8] == 1);
    assert forall|i: int| 0 <= i < 8 implies s[at + 12 + i] == #[trigger] time[i] by {
        assert(p[4 + i] == time[i]);
        assert(s[at + 8 + (4 + i)] == p[4 + i]);
    }
    assert(bytes::be64(s, at + 12) == bytes::be64(time, 0)) by {
        reveal(bytes::be16);
        reveal(bytes::be32);
        reveal(bytes::be64);
        assert(s[at + 12 + 0] == time[0] && s[at + 12 + 1] == time[1] && s[at + 12 + 2] == time[2]
            && s[at + 12 + 3] == time[3]);
        assert(s[at + 12 + 4] == time[4] && s[at + 12 + 5] == time[5] && s[at + 12 + 6] == time[6]
            && s[at + 12 + 7] == time[7]);
    }
}

/// Reading the fragment box gives the segment's timing.
proof fn lemma_fragment_read(start_us: nat, duration_us: nat, is_keyframe: bool)
    requires
        start_us <= u64::MAX,
    ensures
        fragment::scan_moof(
            fixtures::boxed(
                mp4::MOOF as nat,
                fixtures::moof_payload(start_us, duration_us, is_keyframe),
            ),
            8,
            fragment::no_fragment(),
        ) == (fragment::Fragment {
            start_ticks: fixtures::fixture_ticks(start_us) as i64,
            sample_ticks: run_ticks(duration_us) as u32,
            samples: 1,
            keyframe: is_keyframe,
        }),
{
    lemma_moof(start_us, duration_us, is_keyframe);
    let moof = fixtures::moof_payload(start_us, duration_us, is_keyframe);
    let traf = fixtures::traf_payload(start_us, duration_us, is_keyframe);
    let s = fixtures::boxed(mp4::MOOF as nat, moof);
    lemma_boxed_len(mp4::MOOF as nat, moof);
    assert(s.subrange(0, (8 + moof.len()) as int) =~= s);
    assert(has_box(s, 0, mp4::MOOF as nat, moof));
    let kind = mp4::MOOF as nat;
    let mfhd = fixtures::nothing() + bytes::zeros(4) + bytes::be32_bytes(1);
    let tfhd = fixtures::nothing() + bytes::be32_bytes(0x2_0000) + bytes::be32_bytes(1);
    let tfdt = fixtures::nothing() + bytes::be32_bytes(0x100_0000) + bytes::be64_bytes(
        fixtures::fixture_ticks(start_us),
    );
    let trun = fixtures::trun_payload(duration_us, is_keyframe);
    lemma_within(s, 0, kind, moof, 0, MFHD as nat, mfhd);
    lemma_within(s, 0, kind, moof, 16, mp4::TRAF as nat, traf);
    lemma_within(s, 24, mp4::TRAF as nat, traf, 0, TFHD as nat, tfhd);
    lemma_within(s, 24, mp4::TRAF as nat, traf, 16, mp4::TFDT as nat, tfdt);
    lemma_within(s, 24, mp4::TRAF as nat, traf, 36, mp4::TRUN as nat, trun);
    lemma_head(s, 8, MFHD as nat, mfhd);
    lemma_head(s, 24, mp4::TRAF as nat, traf);
    lemma_head(s, 32, TFHD as nat, tfhd);
    lemma_head(s, 48, mp4::TFDT as nat, tfdt);
    lemma_head(s, 68, mp4::TRUN as nat, trun);
    let none = fragment::no_fragment();
    let timed = fragment::Fragment {
        start_ticks: fixtures::fixture_ticks(start_us) as i64,
        ..none
    };
    let whole = fragment::Fragment {
        start_ticks: timed.start_ticks,
        sample_ticks: run_ticks(duration_us) as u32,
        samples: 1,
        keyframe: is_keyframe,
    };
    lemma_time(s, 48, start_us, none);
    lemma_run(s, 68, duration_us, is_keyframe, timed);
    assert(fragment::scan_traf(s, 68, 100, timed) == fragment::scan_traf(s, 100, 100, whole));
    assert(fragment::scan_traf(s, 48, 100, none) == fragment::scan_traf(s, 68, 100, timed));
    assert(fragment::scan_traf(s, 32, 100, none) == fragment::scan_traf(s, 48, 100, none));
    assert(fragment::scan_moof(s, 24, none) == fragment::scan_moof(s, 100, whole));
    assert(fragment::scan_moof(s, 8, none) == fragment::scan_moof(s, 24, none));
}

/// The boxes that a file is found to hold.
spec fn fixture_top() -> media_validator::TopLevel {
    media_validator::TopLevel {
        typed: true,
        moov: Some((32, 583)),
        moofs: seq![(615, 100)],
        mdat: Some((715, 72)),
    }
}

proof fn lemma_top(start_us: nat, duration_us: nat, is_keyframe: bool)
    ensures
        media_validator::scan_top(
            fixtures::fmp4_segment(start_us, duration_us, is_keyframe),
            0,
            media_validator::no_boxes(),
        ) == Ok::<media_validator::TopLevel, media_validator::MediaRefusal>(fixture_top()),
{
    lemma_file(start_us, duration_us, is_keyframe);
    lemma_movie();
    lemma_moof(start_us, duration_us, is_keyframe);
    let s = fixtures::fmp4_segment(start_us, duration_us, is_keyframe);
    let moof = fixtures::moof_payload(start_us, duration_us, is_keyframe);
    lemma_head(s, 0, mp4::FTYP as nat, fixtures::ftyp_payload());
    lemma_head(s, 32, mp4::MOOV as nat, fixtures::moov_payload());
    lemma_head(s, 615, mp4::MOOF as nat, moof);
    lemma_head(s, 715, mp4::MDAT as nat, fixtures::sample_payload(is_keyframe));
    let t0 = media_validator::no_boxes();
    let t1 = media_validator::with_box(t0, mp4::FTYP as nat, 0, 32);
    let t2 = media_validator::with_box(t1, mp4::MOOV as nat, 32, 583);
    let t3 = media_validator::with_box(t2, mp4::MOOF as nat, 615, 100);
    let t4 = media_validator::with_box(t3, mp4::MDAT as nat, 715, 72);
    assert(media_validator::scan_top(s, 0, t0) == media_validator::scan_top(s, 32, t1));
    assert(media_validator::scan_top(s, 32, t1) == media_validator::scan_top(s, 615, t2));
    assert(media_validator::scan_top(s, 615, t2) == media_validator::scan_top(s, 715, t3));
    assert(media_validator::scan_top(s, 715, t3) == media_validator::scan_top(s, 787, t4));
    assert(t4.moofs =~= fixture_top().moofs);
    assert(t4 == fixture_top());
}

/// The movie box of a generated segment reads back as it was written: its media header
/// and no edit list.
pub proof fn generated_movie_is_read_back(start_us: nat, duration_us: nat, is_keyframe: bool)
    ensures
        media_validator::moov_of(
            fixtures::fmp4_segment(start_us, duration_us, is_keyframe).subrange(32, 615),
        ) == Ok::<(media_validator::MdhdInfo, Option<media_validator::ElstInfo>), Seq<char>>(
            (fixture_mdhd(), None),
        ),
{
    lemma_file(start_us, duration_us, is_keyframe);
    lemma_movie();
    lemma_moov_read();
}

/// The fragment box of a generated segment reads back as it was written: its start and its
/// sample's duration in ticks, one sample, and whether that is a keyframe.
pub proof fn generated_fragment_is_read_back(start_us: nat, duration_us: nat, is_keyframe: bool)
    requires
        start_us <= u64::MAX,
        fixtures::fixture_ticks(duration_us) <= u32::MAX,
    ensures
        ({
            let s = fixtures::fmp4_segment(start_us, duration_us, is_keyframe);
            let f = fragment::scan_moof(s.subrange(615, 715), 8, fragment::no_fragment());
            &&& f.start_ticks == start_us * 90 / 1000
            &&& f.sample_ticks == duration_us * 90 / 1000
            &&& f.samples == 1
            &&& f.keyframe == is_keyframe
        }),
{
    lemma_file(start_us, duration_us, is_keyframe);
    lemma_moof(start_us, duration_us, is_keyframe);
    lemma_fragment_read(start_us, duration_us, is_keyframe);
}

/// A generated segment that starts with a keyframe is accepted, with the timing it
/// was made with, counted in ticks; one that does not is refused for that.
pub proof fn generated_segment_is_checked(start_us: nat, duration_us: nat, is_keyframe: bool)
    requires
        start_us <= u64::MAX,
        duration_us <= u64::MAX,
    ensures
        media_validator::fmp4_facts(fixtures::fmp4_segment(start_us, duration_us, is_keyframe))
            == if is_keyframe {
            let start = fixtures::fixture_ticks(start_us);
            let from_us = start * 1_000_000 / (FIXTURE_TIMESCALE as nat);
            let lasts_us = run_ticks(duration_us) * 1_000_000 / (FIXTURE_TIMESCALE as nat);
            Ok::<media_validator::MediaFacts, media_validator::MediaRefusal>(
                (media_validator::MediaFacts {
                    container_format: "mp4"@,
                    size_bytes: 787,
                    start_us: from_us,
                    end_us: media_validator::clamp_u64(from_us + lasts_us),
                    duration_us: lasts_us,
                    sample_count: 1,
                    is_keyframe_start: true,
                    media_timescale: FIXTURE_TIMESCALE as nat,
                    media_start_value: start as int,
                    host_anchor_us: 0,
                }),
            )
        } else {
            Err(media_validator::MediaRefusal::NotKeyframeStart)
        },
{
    lemma_file(start_us, duration_us, is_keyframe);
    lemma_movie();
    lemma_moof(start_us, duration_us, is_keyframe);
    lemma_top(start_us, duration_us, is_keyframe);
    lemma_moov_read();
    lemma_no_samples((715, 72));
    lemma_fragment_read(start_us, duration_us, is_keyframe);
    let s = fixtures::fmp4_segment(start_us, duration_us, is_keyframe);
    let moof = fixtures::moof_payload(start_us, duration_us, is_keyframe);
    assert(s.subrange(32, 615) == fixtures::boxed(mp4::MOOV as nat, fixtures::moov_payload()));
    assert(s.subrange(615, 715) == fixtures::boxed(mp4::MOOF as nat, moof));
    assert(!media_validator::all_zero(s, 0, media_validator::probe_end(s, 0))) by {
        lemma_head(s, 0, mp4::FTYP as nat, fixtures::ftyp_payload());
        assert(s[3] != 0) by {
            reveal(bytes::be16);
            reveal(bytes::be32);
        }
    }
    let moofs = fixture_top().moofs;
    let f = media_validator::fragment_at(s, moofs[0]);
    assert(f.samples == 1 && f.keyframe == is_keyframe);
    assert(f.start_ticks == fixtures::fixture_ticks(start_us));
    assert(f.sample_ticks == run_ticks(duration_us));
    assert(media_validator::sum_fragments(s, moofs, 1, run_ticks(duration_us) as int, 1) == Some(
        (run_ticks(duration_us) as int, 1nat),
    ));
    assert(media_validator::sum_fragments(s, moofs, 0, 0, 0) == media_validator::sum_fragments(
        s,
        moofs,
        1,
        run_ticks(duration_us) as int,
        1,
    ));
}

} // verus!
