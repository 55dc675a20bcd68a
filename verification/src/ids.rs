//! Random request identifiers.
use vstd::prelude::*;

verus! {

pub open spec fn is_lower_hex_digit(c: char) -> bool {
    ('0' <= c && c <= '9') || ('a' <= c && c <= 'f')
}

/// `s` is a version-4 UUID in the hyphenated lowercase form
/// `xxxxxxxx-xxxx-4xxx-xxxx-xxxxxxxxxxxx`.
pub open spec fn is_uuid_text(s: Seq<char>) -> bool {
    &&& s.len() == 36
    &&& forall|i: int| 0 <= i < 36 ==> (if i == 8 || i == 13 || i == 18 || i == 23 {
        #[trigger] s[i] == '-'
    } else {
        is_lower_hex_digit(s[i])
    })
    &&& s[14] == '4'
}

/// A fresh random UUID (`uuid::Uuid::new_v4`), in its `Display` form.
///
/// Trusted: `new_v4` masks in the version nibble 4 and `Display` writes the
/// hyphenated lowercase form (uuid's `fmt.rs`). Which UUID comes back is
/// random, so nothing ties it to earlier calls.
#[verifier::external_body]
pub(crate) fn new_uuid_v4() -> (s: String)
    ensures
        is_uuid_text(s@),
{
    uuid::Uuid::new_v4().to_string()
}

} // verus!
