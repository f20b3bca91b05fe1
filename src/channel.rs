use vstd::prelude::*;
use vstd::utf8::{decode_utf8, valid_utf8};
use crate::error::SBError;

verus! {

/// Relies on std::str::from_utf8: it accepts exactly the byte sequences that
/// are valid UTF-8, and the text it gives is what they encode.
#[verifier::external_body]
fn utf8_text(data: &[u8]) -> (r: Option<String>)
    ensures
        r is Some <==> valid_utf8(data@),
        match r {
            Some(s) => s@ == decode_utf8(data@),
            None => true,
        },
{
    match std::str::from_utf8(data) {
        Ok(s) => Some(s.to_string()),
        Err(_) => None,
    }
}

/// The text that bytes received on the channel carry, to be written to the
/// local clipboard as they are; bytes that are not UTF-8 fail the exchange.
pub fn inbound_text(data: &[u8]) -> (r: Result<String, SBError>)
    ensures
        valid_utf8(data@) ==> r is Ok && r->Ok_0@ == decode_utf8(data@),
        !valid_utf8(data@) ==> r == Err::<String, SBError>(SBError::InvalidUtf8),
{
    match utf8_text(data) {
        Some(s) => Ok(s),
        None => Err(SBError::InvalidUtf8),
    }
}

} // verus!
