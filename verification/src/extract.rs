//! Extraction of the service's result payload from the raw response text:
//! global entity unescaping, then a literal search for the two known tag
//! markers, with a distinct error for each way a response can be malformed.

use vstd::prelude::*;
use crate::entities::unescape;
use crate::entities::unescaped;
use crate::search::find_from;
use crate::search::first_match_from;
use crate::search::lemma_first_match_some;

verus! {

/// Why no payload could be extracted from a response.
#[derive(Debug, Clone, Copy, PartialEq, Eq, Structural)]
pub enum ExtractError {
    /// The opening result marker does not occur in the response.
    OpenTagNotFound,
    /// The closing result marker does not occur in the response.
    CloseTagNotFound,
    /// The first closing marker ends up before the end of the first opening
    /// marker, so the payload range is reversed.
    InvalidTagOrder,
}

/// The literal marker that opens the result payload.
pub open spec fn open_tag() -> Seq<char> {
    "<ProcessTextResult>"@
}

/// The literal marker that closes the result payload.
pub open spec fn close_tag() -> Seq<char> {
    "</ProcessTextResult>"@
}

/// Extract the corrected text from the raw response: unescape the whole
/// response, then return what stands strictly between the first opening and
/// the first closing marker. Both markers are searched from the start of
/// the string; each way the response can fail to conform yields its own
/// error.
pub fn extract_result(response: &str) -> (r: Result<String, ExtractError>)
    ensures
        ({
            let u = unescaped(response@);
            let open = first_match_from(u, open_tag(), 0);
            let close = first_match_from(u, close_tag(), 0);
            match r {
                Ok(out) => {
                    &&& open is Some
                    &&& close is Some
                    &&& open->Some_0 + open_tag().len() <= close->Some_0
                    &&& out@ == u.subrange(open->Some_0 + open_tag().len(), close->Some_0)
                },
                Err(e) => match e {
                    ExtractError::OpenTagNotFound => open is None,
                    ExtractError::CloseTagNotFound => open is Some && close is None,
                    ExtractError::InvalidTagOrder => {
                        &&& open is Some
                        &&& close is Some
                        &&& close->Some_0 < open->Some_0 + open_tag().len()
                    },
                },
            }
        }),
{
    let unescaped_response = unescape(response);
    let u = unescaped_response.as_str();
    let ulen = u.unicode_len();
    match find_from(u, "<ProcessTextResult>", 0) {
        None => Err(ExtractError::OpenTagNotFound),
        Some(open_at) => {
            proof {
                lemma_first_match_some(u@, open_tag(), 0, open_at as int);
            }
            let start_at = open_at + "<ProcessTextResult>".unicode_len();
            match find_from(u, "</ProcessTextResult>", 0) {
                None => Err(ExtractError::CloseTagNotFound),
                Some(end_at) => {
                    proof {
                        lemma_first_match_some(u@, close_tag(), 0, end_at as int);
                    }
                    if start_at <= end_at {
                        Ok(u.substring_char(start_at, end_at).to_owned())
                    } else {
                        Err(ExtractError::InvalidTagOrder)
                    }
                },
            }
        },
    }
}

} // verus!
