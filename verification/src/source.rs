//! Turning the bytes of a source file into text: UTF-8 when the bytes are
//! valid UTF-8, otherwise the DOS Cyrillic code page IBM866 through the
//! `encoding_rs` crate.

use vstd::prelude::*;
use vstd::utf8::{decode_utf8, valid_utf8};

verus! {

/// The text that `encoding_rs::IBM866.decode` produces from `bytes` (a byte
/// order mark at the start selects the encoding it names instead).
pub uninterp spec fn ibm866_decoded(bytes: Seq<u8>) -> Seq<char>;

/// Calls `std::str::from_utf8`. Claims what its documentation states: it
/// succeeds exactly on valid UTF-8, and then the text is the decoding of the
/// bytes.
#[verifier::external_body]
fn utf8_text(bytes: &[u8]) -> (r: Option<&str>)
    ensures
        r is Some <==> valid_utf8(bytes@),
        r matches Some(s) ==> s@ == decode_utf8(bytes@),
{
    match std::str::from_utf8(bytes) {
        Ok(s) => Some(s),
        Err(_) => None,
    }
}

/// Calls `encoding_rs::IBM866.decode` and keeps the text. Claims that the
/// text is the named decoding. The crate panics when the size of the output
/// buffer overflows `usize`; the bound on the input rules that out.
#[verifier::external_body]
fn ibm866_text(bytes: &[u8]) -> (r: String)
    requires
        3 * bytes@.len() + 3 <= usize::MAX,
    ensures
        r@ == ibm866_decoded(bytes@),
{
    let (text, _, _) = encoding_rs::IBM866.decode(bytes);
    text.into_owned()
}

/// The text of a source file.
pub open spec fn source_text(bytes: Seq<u8>) -> Seq<char> {
    if valid_utf8(bytes) {
        decode_utf8(bytes)
    } else {
        ibm866_decoded(bytes)
    }
}

/// Decodes the bytes of a source file: as UTF-8 when they are valid UTF-8,
/// otherwise as IBM866.
pub fn decode_source(bytes: &[u8]) -> (r: String)
    requires
        3 * bytes@.len() + 3 <= usize::MAX,
    ensures
        r@ == source_text(bytes@),
{
    match utf8_text(bytes) {
        Some(text) => text.to_owned(),
        None => ibm866_text(bytes),
    }
}

} // verus!
