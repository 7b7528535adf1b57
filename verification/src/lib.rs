//! Client-side protocol logic for a SOAP-over-HTTP text-typography service:
//! XML entity escaping, envelope construction with an exact Content-Length,
//! marker-based response extraction, and nth-occurrence substring search.

pub mod digits;
pub mod entities;
pub mod envelope;
pub mod extract;
pub mod search;

pub use entities::escape;
pub use entities::unescape;
pub use envelope::RequestOptions;
pub use envelope::make_soap_request_header_and_body;
pub use extract::ExtractError;
pub use extract::extract_result;
pub use search::find_nth;
pub use search::find_nth_starting_from;
pub use search::front_matter_offset;
