//! Stable task ids, made with `uuid`.
use vstd::prelude::*;

verus! {

pub open spec fn is_lower_hex(c: char) -> bool {
    ('0' <= c && c <= '9') || ('a' <= c && c <= 'f')
}

/// A stable id: 32 lowercase hexadecimal digits.
pub open spec fn is_stable_id(s: Seq<char>) -> bool {
    s.len() == 32 && forall|i: int| 0 <= i < s.len() ==> is_lower_hex(#[trigger] s[i])
}

/// `uuid::Uuid::new_v4().simple().to_string()`: a random version 4 UUID in
/// its simple form. Claimed: 32 lowercase hexadecimal digits (the crate's
/// `format_simple` writes each of the 16 bytes as two lowercase hex digits).
/// The digits themselves are random and nothing is said of them.
#[verifier::external_body]
pub(crate) fn new_task_id() -> (id: String)
    ensures
        is_stable_id(id@),
{
    uuid::Uuid::new_v4().simple().to_string()
}

} // verus!
