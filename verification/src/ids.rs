//! Random event identifiers.
use vstd::prelude::*;

verus! {

/// A lower-case hexadecimal digit.
pub open spec fn is_lower_hex(c: char) -> bool {
    ('0' <= c && c <= '9') || ('a' <= c && c <= 'f')
}

/// The hyphenated form of an identifier: 36 characters, hyphens at positions
/// 8, 13, 18 and 23, lower-case hexadecimal digits everywhere else.
pub open spec fn event_id_formed(id: Seq<char>) -> bool {
    &&& id.len() == 36
    &&& forall|i: int|
        #![trigger id[i]]
        0 <= i < 36 ==> if i == 8 || i == 13 || i == 18 || i == 23 {
            id[i] == '-'
        } else {
            is_lower_hex(id[i])
        }
}

/// A fresh random identifier: `uuid::Uuid::new_v4()` rendered by its `Display`
/// impl, which writes the hyphenated lower-case form (36 characters, hyphens at
/// positions 8, 13, 18 and 23, lower-case hexadecimal digits elsewhere). Which
/// identifier comes out is left open.
#[verifier::external_body]
pub(crate) fn new_event_id() -> (id: String)
    ensures
        event_id_formed(id@),
{
    uuid::Uuid::new_v4().to_string()
}

} // verus!
