//! Fresh identifiers.

use vstd::prelude::*;
use uuid::Uuid;

verus! {

/// Whether `c` is a lower-case hexadecimal digit.
pub open spec fn lower_hex(c: char) -> bool {
    '0' <= c <= '9' || 'a' <= c <= 'f'
}

/// Whether `s` has the shape of a random identifier: 36 characters, hyphens
/// after the eighth, twelfth, sixteenth and twentieth digit, and lower-case
/// hexadecimal digits elsewhere, the thirteenth of them a 4.
pub open spec fn random_id(s: Seq<char>) -> bool {
    &&& s.len() == 36
    &&& forall|i: int|
        0 <= i < 36 ==> (if i == 8 || i == 13 || i == 18 || i == 23 {
            #[trigger] s[i] == '-'
        } else {
            lower_hex(s[i])
        })
    &&& s[14] == '4'
}

/// `Uuid::new_v4` and its `to_string`: a random identifier in its hyphenated
/// form. Which one it is, is left to chance.
#[verifier::external_body]
pub(crate) fn fresh_id() -> (r: String)
    ensures
        random_id(r@),
{
    Uuid::new_v4().to_string()
}

} // verus!
