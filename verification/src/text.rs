//! Text helpers shared by the renderers: turning ASCII bytes into a
//! `String`, and reading and writing decimal numbers.
use vstd::prelude::*;

verus! {

/// All bytes of the sequence are ASCII.
pub open spec fn all_ascii(s: Seq<u8>) -> bool {
    forall|i: int| 0 <= i < s.len() ==> s[i] < 128
}

/// The characters the ASCII bytes spell, one character per byte.
pub open spec fn chars_of_bytes(s: Seq<u8>) -> Seq<char> {
    s.map_values(|b: u8| b as char)
}

/// Relies on `String::from_utf8`: ASCII bytes are valid UTF-8 and decode
/// to their own characters, one character per byte.
#[verifier::external_body]
pub fn ascii_to_string(bytes: &Vec<u8>) -> (r: String)
    requires
        all_ascii(bytes@),
    ensures
        r@ == chars_of_bytes(bytes@),
{
    match String::from_utf8(bytes.clone()) {
        Ok(s) => s,
        Err(_) => String::new(),
    }
}

/// Relies on `String::from_utf8_lossy`: ASCII bytes decode to their own
/// characters, one character per byte.
#[verifier::external_body]
pub fn bytes_to_string_lossy(bytes: &[u8]) -> (r: String)
    ensures
        all_ascii(bytes@) ==> r@ == chars_of_bytes(bytes@),
{
    String::from_utf8_lossy(bytes).into_owned()
}

} // verus!
