//! Object ids in hexadecimal, as git reads and writes them.

use vstd::prelude::*;

use crate::text::lower;

verus! {

/// A hexadecimal digit, in either case.
pub open spec fn is_hex_digit(c: char) -> bool {
    ('0' <= c <= '9') || ('a' <= c <= 'f') || ('A' <= c <= 'F')
}

/// One to forty hexadecimal digits: an object id, or the start of one.
pub open spec fn is_object_id(s: Seq<char>) -> bool {
    0 < s.len() <= 40 && forall|i: int| 0 <= i < s.len() ==> is_hex_digit(#[trigger] s[i])
}

/// The forty digits of the object id that `s` starts: its digits in lower
/// case, then zeros.
pub open spec fn object_id_text(s: Seq<char>) -> Seq<char> {
    Seq::new(
        40,
        |i: int|
            if i < s.len() {
                lower(s[i])
            } else {
                '0'
            },
    )
}

/// `Oid::from_str` of git2, and the `Display` of the id it returns. The
/// parse succeeds on one to forty hexadecimal digits and on nothing else. A
/// short id is filled up with zeros, and the id is written as forty digits in
/// lower case.
#[verifier::external_body]
pub(crate) fn object_id(text: &str) -> (hex: Option<String>)
    ensures
        hex is Some <==> is_object_id(text@),
        hex matches Some(h) ==> h@ == object_id_text(text@),
{
    git2::Oid::from_str(text).ok().map(|id| id.to_string())
}

} // verus!
