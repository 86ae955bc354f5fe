//! Device identifiers: fresh ones for new devices, and the digests by which
//! admins are known.

use vstd::prelude::*;

verus! {

/// The SHA-256 digest of the UTF-8 bytes of `input`, as 64 lower-case
/// hexadecimal digits.
pub uninterp spec fn sha256_hex(input: Seq<char>) -> Seq<char>;

/// `sha256::digest` on a string slice: the hexadecimal SHA-256 digest of
/// the text, which depends on the text alone.
#[verifier::external_body]
pub(crate) fn digest(input: &str) -> (hex: String)
    ensures
        hex@ == sha256_hex(input@),
{
    sha256::digest(input)
}

/// Whether `digit` is a hexadecimal digit in lower case.
pub open spec fn is_hex_digit(digit: char) -> bool {
    ('0' <= digit <= '9') || ('a' <= digit <= 'f')
}

/// Whether `text` has the shape of a random identifier: the 36 characters
/// of a version 4 UUID in its hyphenated form. Hyphens stand at the places
/// 8, 13, 18 and 23 and hexadecimal digits in lower case at all others; the
/// digit at place 14 is the version, 4, and the digit at place 19 carries
/// the variant and is one of 8, 9, a and b.
pub open spec fn is_random_id(text: Seq<char>) -> bool {
    &&& text.len() == 36
    &&& forall|i: int|
        0 <= i < 36 ==> if i == 8 || i == 13 || i == 18 || i == 23 {
            #[trigger] text[i] == '-'
        } else {
            is_hex_digit(text[i])
        }
    &&& text[14] == '4'
    &&& (text[19] == '8' || text[19] == '9' || text[19] == 'a' || text[19] == 'b')
}

/// `uuid::Uuid::new_v4` in its hyphenated form, as `to_string` gives it.
/// Which identifier comes is left to chance; every one of them has the
/// shape of a version 4 UUID. The call panics where the system gives no
/// random bytes.
#[verifier::external_body]
pub(crate) fn random_id() -> (id: String)
    ensures
        is_random_id(id@),
{
    uuid::Uuid::new_v4().to_string()
}

} // verus!
