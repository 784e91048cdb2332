//! Random identifiers.
use vstd::prelude::*;
use vstd::string::*;

verus! {

/// A lower-case hexadecimal digit.
pub open spec fn hex_char(c: char) -> bool {
    '0' <= c <= '9' || 'a' <= c <= 'f'
}

/// Whether position `i` of an identifier holds a hyphen.
pub open spec fn hyphen_at(i: int) -> bool {
    i == 8 || i == 13 || i == 18 || i == 23
}

/// Whether a text has the form of a random identifier: groups of 8, 4, 4, 4 and 12
/// hexadecimal digits, joined by hyphens, the third group starting with 4.
pub open spec fn is_id(s: Seq<char>) -> bool {
    &&& s.len() == 36
    &&& s[14] == '4'
    &&& forall|i: int|
        0 <= i < 36 ==> if hyphen_at(i) {
            #[trigger] s[i] == '-'
        } else {
            hex_char(s[i])
        }
}

/// `uuid::Uuid::new_v4().to_string()` makes a random identifier and writes it in
/// the hyphenated, lower-case form. Which one it is, is left to chance.
#[verifier::external_body]
pub(crate) fn new_id() -> (s: String)
    ensures
        is_id(s@),
{
    uuid::Uuid::new_v4().to_string()
}

} // verus!
