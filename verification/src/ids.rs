//! Fresh opaque identifiers for Modules, Videos, workflow states, Scenes,
//! Segments, Takes and recording sessions.

use vstd::prelude::*;

verus! {

/// A lower-case hexadecimal digit: `0`–`9` or `a`–`f`.
pub open spec fn is_lower_hex_digit(c: char) -> bool {
    ('0' <= c && c <= '9') || ('a' <= c && c <= 'f')
}

/// The positions of the four hyphens in the 8-4-4-4-12 layout.
pub open spec fn is_uuid_hyphen_at(i: int) -> bool {
    i == 8 || i == 13 || i == 18 || i == 23
}

/// The hyphenated lower-case text of a version-4 (random) UUID of the
/// RFC 4122 variant: 32 lower-case hex digits grouped 8-4-4-4-12, the
/// version digit `4` opening the third group and the variant digit (one of
/// `8`, `9`, `a`, `b`) opening the fourth.
pub open spec fn is_uuid_v4_text(s: Seq<char>) -> bool {
    &&& s.len() == 36
    &&& forall|i: int|
        0 <= i < 36 ==> (if is_uuid_hyphen_at(i) {
            #[trigger] s[i] == '-'
        } else {
            is_lower_hex_digit(s[i])
        })
    &&& s[14] == '4'
    &&& (s[19] == '8' || s[19] == '9' || s[19] == 'a' || s[19] == 'b')
}

/// `uuid::Uuid::new_v4().to_string()`: a random version-4 UUID in its
/// hyphenated lower-case form. `new_v4` masks random bits so that the
/// version nibble is 4 and the variant bits are `10`, and `Display` writes
/// the 16 bytes as 8-4-4-4-12 lower-case hex groups. Which digits the random
/// source gives is not said; the call panics only if the operating system's
/// random source fails.
#[verifier::external_body]
pub fn new_id() -> (id: String)
    ensures
        is_uuid_v4_text(id@),
{
    uuid::Uuid::new_v4().to_string()
}

} // verus!
