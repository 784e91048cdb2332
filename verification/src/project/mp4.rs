//! ISO base media boxes: headers, track tables and fragments.
use crate::bytes;
use crate::text;
use vstd::prelude::*;
use vstd::string::*;

verus! {

/// Box types, as the big-endian value of their four characters.
pub const FTYP: u32 = 0x6674_7970;

pub const STYP: u32 = 0x7374_7970;

pub const MOOV: u32 = 0x6d6f_6f76;

pub const MOOF: u32 = 0x6d6f_6f66;

pub const MDAT: u32 = 0x6d64_6174;

pub const FREE: u32 = 0x6672_6565;

pub const SKIP: u32 = 0x736b_6970;

pub const WIDE: u32 = 0x7769_6465;

pub const PDIN: u32 = 0x7064_696e;

pub const UUID: u32 = 0x7575_6964;

pub const MFRA: u32 = 0x6d66_7261;

pub const SIDX: u32 = 0x7369_6478;

pub const SSIX: u32 = 0x7373_6978;

pub const META: u32 = 0x6d65_7461;

pub const TRAK: u32 = 0x7472_616b;

pub const MDIA: u32 = 0x6d64_6961;

pub const MDHD: u32 = 0x6d64_6864;

pub const EDTS: u32 = 0x6564_7473;

pub const ELST: u32 = 0x656c_7374;

pub const MINF: u32 = 0x6d69_6e66;

pub const STBL: u32 = 0x7374_626c;

pub const STSZ: u32 = 0x7374_737a;

pub const STTS: u32 = 0x7374_7473;

pub const STSS: u32 = 0x7374_7373;

pub const STCO: u32 = 0x7374_636f;

pub const CO64: u32 = 0x636f_3634;

pub const STSC: u32 = 0x7374_7363;

pub const TRAF: u32 = 0x7472_6166;

pub const TFDT: u32 = 0x7466_6474;

pub const TRUN: u32 = 0x7472_756e;

/// A box header: the whole box's size, its type, and where its payload starts.
pub struct BoxHead {
    pub size: usize,
    pub kind: u32,
    pub payload: usize,
}

/// What a box header says, as numbers.
pub struct BoxSpan {
    pub size: nat,
    pub kind: nat,
    pub payload: int,
}

impl BoxHead {
    /// The header as numbers.
    pub open spec fn span(self) -> BoxSpan {
        BoxSpan { size: self.size as nat, kind: self.kind as nat, payload: self.payload as int }
    }
}

/// The message for a box size that does not fit its parent.
pub open spec fn invalid_size_text(size: nat, offset: nat) -> Seq<char> {
    "invalid box size "@ + text::decimal(size) + " at offset "@ + text::decimal(offset)
}

/// The size that the header at `offset` states, and the header's length.
/// A 32-bit size of 1 announces a 64-bit size; 0 reaches to `end`.
pub open spec fn stated_size(s: Seq<u8>, offset: int, end: int) -> (nat, nat) {
    let raw = bytes::be32(s, offset);
    if raw == 1 {
        (bytes::be64(s, offset + 8), 16)
    } else if raw == 0 {
        ((end - offset) as nat, 8)
    } else {
        (raw, 8)
    }
}

/// Whether a box of `size` bytes with a header of `header` bytes fits between
/// `offset` and `end`.
pub open spec fn box_fits(size: nat, header: nat, offset: int, end: int) -> bool {
    header <= size && offset + size <= end
}

/// The box at `offset` of a parent that ends at `end`.
pub open spec fn box_at(s: Seq<u8>, offset: int, end: int) -> Result<BoxSpan, Seq<char>> {
    if offset + 8 > end {
        Err("box header out of bounds"@)
    } else if bytes::be32(s, offset) == 1 && offset + 16 > end {
        Err("extended box header out of bounds"@)
    } else {
        let (size, header) = stated_size(s, offset, end);
        if !box_fits(size, header, offset, end) {
            Err(invalid_size_text(size, offset as nat))
        } else {
            Ok(BoxSpan { size, kind: bytes::be32(s, offset + 4), payload: offset + header })
        }
    }
}

/// Reads the box header at `offset`. `end` bounds the parent's payload, so that
/// a malformed child cannot reach outside it; a size too large for any parent
/// is refused like every other size that does not fit.
pub fn read_box_header(data: &[u8], offset: usize, end: usize) -> (r: Result<BoxHead, String>)
    requires
        offset <= end <= data@.len(),
    ensures
        match r {
            Ok(b) => box_at(data@, offset as int, end as int) == Ok::<BoxSpan, Seq<char>>(b.span()),
            Err(e) => box_at(data@, offset as int, end as int) == Err::<BoxSpan, Seq<char>>(e@),
        },
        r is Ok ==> 8 <= r->Ok_0.size && offset + r->Ok_0.size <= end && offset + 8
            <= r->Ok_0.payload <= offset + r->Ok_0.size,
{
    assert(data@.len() == data.len());
    if end - offset < 8 {
        return Err("box header out of bounds".to_owned());
    }
    let raw: u32 = bytes::read_be32(data, offset);
    let kind: u32 = bytes::read_be32(data, offset + 4);
    let mut size: u64 = raw as u64;
    let mut header: usize = 8;
    if raw == 1 {
        if end - offset < 16 {
            return Err("extended box header out of bounds".to_owned());
        }
        size = bytes::read_be64(data, offset + 8);
        header = 16;
    } else if raw == 0 {
        size = (end - offset) as u64;
    }
    if size < header as u64 || size > (end - offset) as u64 {
        let mut text: String = "invalid box size ".to_owned();
        text::push_decimal(&mut text, size);
        text.append(" at offset ");
        text::push_decimal(&mut text, offset as u64);
        return Err(text);
    }
    Ok(BoxHead { size: size as usize, kind, payload: offset + header })
}

/// A box starts with its size and its kind, highest byte first. A size of one stands for a
/// longer one behind the kind, and a size of zero for all that is left.
pub proof fn boxes_start_with_size_and_kind(s: Seq<u8>, offset: int, end: int)
    requires
        box_at(s, offset, end) is Ok,
    ensures
        ({
            let b = box_at(s, offset, end)->Ok_0;
            let first = 16_777_216 * s[offset] + 65_536 * s[offset + 1] + 256 * s[offset + 2]
                + s[offset + 3];
            &&& b.kind == 16_777_216 * s[offset + 4] + 65_536 * s[offset + 5] + 256 * s[offset + 6]
                + s[offset + 7]
            &&& first > 1 ==> b.size == first && b.payload == offset + 8
            &&& first == 0 ==> b.size == end - offset && b.payload == offset + 8
            &&& first == 1 ==> b.size == bytes::be64(s, offset + 8) && b.payload == offset + 16
            &&& b.payload <= offset + b.size <= end
        }),
{
    reveal(bytes::be32);
    reveal(bytes::be16);
}

} // verus!
