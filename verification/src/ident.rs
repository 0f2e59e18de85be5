//! Identifiers: the textual form of a random (version 4) UUID, and the one
//! call that produces a new one.

use uuid::Uuid;
use vstd::prelude::*;

verus! {

/// A digit or one of the letters `a` to `f`.
pub open spec fn is_lower_hex(c: char) -> bool {
    ('0' <= c && c <= '9') || ('a' <= c && c <= 'f')
}

/// The four places of a hyphen in the 36 characters of a hyphenated UUID.
pub open spec fn is_hyphen_place(i: int) -> bool {
    i == 8 || i == 13 || i == 18 || i == 23
}

/// `s` is a version 4 UUID in canonical form: 36 characters in the groups
/// 8-4-4-4-12, hyphens between the groups and lower-case hexadecimal digits
/// within them, the version digit `4` opening the third group and a variant
/// digit of `8`, `9`, `a` or `b` opening the fourth.
pub open spec fn is_uuid_v4(s: Seq<char>) -> bool {
    &&& s.len() == 36
    &&& forall|i: int|
        0 <= i < 36 ==> if is_hyphen_place(i) {
            #[trigger] s[i] == '-'
        } else {
            is_lower_hex(s[i])
        }
    &&& s[14] == '4'
    &&& (s[19] == '8' || s[19] == '9' || s[19] == 'a' || s[19] == 'b')
}

/// Draws a new identifier: `uuid::Uuid::new_v4()`, rendered by `to_string`.
///
/// Trusted, not proved: `new_v4` takes 128 random bits from the operating
/// system and overwrites the version nibble with 4 and the two variant bits
/// with `10`; the `Display` of `Uuid` writes the hyphenated lower-case form.
/// Nothing is claimed about which identifier comes back, and in particular
/// not that it differs from any drawn before: that rests on chance alone.
/// `new_v4` panics if the operating system cannot supply random bytes.
#[verifier::external_body]
pub(crate) fn fresh_id() -> (id: String)
    ensures
        is_uuid_v4(id@),
{
    Uuid::new_v4().to_string()
}

} // verus!
