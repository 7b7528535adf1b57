//! Construction of the SOAP envelope and the HTTP request around it. The
//! request is a pure function of the text, the options and the host, and its
//! Content-Length header spells the exact byte length of the body that
//! follows the blank-line separator.

use vstd::prelude::*;
use crate::digits::dec_digits;
use crate::digits::to_decimal;
use crate::entities::escape;
use crate::entities::escaped;

verus! {

/// The formatting options sent along with the text; all numeric fields are
/// rendered as decimal text, unescaped, inside their XML elements.
#[derive(Debug, Clone)]
pub struct RequestOptions {
    /// Character encoding named in the XML declaration.
    pub encoding: String,
    /// The service's entity-type code.
    pub entity_type: u8,
    /// Whether multiline text uses br elements (0 or 1).
    pub use_br: u8,
    /// Whether multiline text uses p elements (0 or 1).
    pub use_p: u8,
    /// The service's max-no-break count.
    pub max_no_br: u8,
}

impl Default for RequestOptions {
    /// The documented default option values.
    fn default() -> (r: Self)
        ensures
            r.encoding@ == "UTF-8"@,
            r.entity_type == 4,
            r.use_br == 0,
            r.use_p == 0,
            r.max_no_br == 3,
    {
        RequestOptions {
            encoding: String::from_str("UTF-8"),
            entity_type: 4,
            use_br: 0,
            use_p: 0,
            max_no_br: 3,
        }
    }
}

/// Byte length of `s` in its UTF-8 encoding.
pub open spec fn byte_len(s: Seq<char>) -> nat {
    vstd::utf8::encode_utf8(s).len()
}

/// The SOAP body: a fixed-namespace envelope around one ProcessText call
/// carrying the escaped text and the four numeric options, in that order.
pub open spec fn spec_soap_body(text: Seq<char>, opts: RequestOptions, host: Seq<char>) -> Seq<
    char,
> {
    "<?xml version=\"1.0\" encoding=\""@ + opts.encoding@
        + "\"?>\n<soap:Envelope xmlns:xsi=\"http://www.w3.org/2001/XMLSchema-instance\"\nxmlns:xsd=\"http://www.w3.org/2001/XMLSchema\"\nxmlns:soap=\"http://schemas.xmlsoap.org/soap/envelope/\">\n<soap:Body>\n<ProcessText xmlns=\"http://"@
        + host + "/webservices/\">\n<text>"@ + escaped(text) + "</text>\n<entityType>"@
        + dec_digits(opts.entity_type as nat) + "</entityType>\n<useBr>"@ + dec_digits(
        opts.use_br as nat,
    ) + "</useBr>\n<useP>"@ + dec_digits(opts.use_p as nat) + "</useP>\n<maxNobr>"@ + dec_digits(
        opts.max_no_br as nat,
    ) + "</maxNobr>\n</ProcessText>\n</soap:Body>\n</soap:Envelope>"@
}

/// The HTTP header block of the request: the POST line, the Host,
/// Content-Type, Content-Length and SOAPAction headers. Content-Length is
/// the decimal byte length of the SOAP body.
pub open spec fn spec_header_block(text: Seq<char>, opts: RequestOptions, host: Seq<char>) -> Seq<
    char,
> {
    "POST /webservices/typograf.asmx HTTP/1.1\nHost: "@ + host
        + "\nContent-Type: text/xml\nContent-Length: "@ + dec_digits(
        byte_len(spec_soap_body(text, opts, host)),
    ) + "\nSOAPAction: \"http://"@ + host + "/webservices/ProcessText\""@
}

/// The full request: header block, blank-line separator, SOAP body.
pub open spec fn spec_request(text: Seq<char>, opts: RequestOptions, host: Seq<char>) -> Seq<
    char,
> {
    spec_header_block(text, opts, host) + "\n\n"@ + spec_soap_body(text, opts, host)
}

/// Build the byte-exact HTTP request that submits `text` to the service at
/// `host`: a pure function of its inputs, ready to write to a socket.
pub fn make_soap_request_header_and_body(text: &str, options: &RequestOptions, host: &str) -> (r:
    String)
    requires
        byte_len(spec_soap_body(text@, *options, host@)) <= usize::MAX,
    ensures
        r@ == spec_request(text@, *options, host@),
{
    let mut body = String::new();
    body.append("<?xml version=\"1.0\" encoding=\"");
    body.append(options.encoding.as_str());
    body.append(
        "\"?>\n<soap:Envelope xmlns:xsi=\"http://www.w3.org/2001/XMLSchema-instance\"\nxmlns:xsd=\"http://www.w3.org/2001/XMLSchema\"\nxmlns:soap=\"http://schemas.xmlsoap.org/soap/envelope/\">\n<soap:Body>\n<ProcessText xmlns=\"http://",
    );
    body.append(host);
    body.append("/webservices/\">\n<text>");
    let cleaned_text = escape(text);
    body.append(cleaned_text.as_str());
    body.append("</text>\n<entityType>");
    let entity_type = to_decimal(options.entity_type as usize);
    body.append(entity_type.as_str());
    body.append("</entityType>\n<useBr>");
    let use_br = to_decimal(options.use_br as usize);
    body.append(use_br.as_str());
    body.append("</useBr>\n<useP>");
    let use_p = to_decimal(options.use_p as usize);
    body.append(use_p.as_str());
    body.append("</useP>\n<maxNobr>");
    let max_no_br = to_decimal(options.max_no_br as usize);
    body.append(max_no_br.as_str());
    body.append("</maxNobr>\n</ProcessText>\n</soap:Body>\n</soap:Envelope>");
    assert(body@ == spec_soap_body(text@, *options, host@));
    let body_len = body.as_str().len();
    assert(body_len == byte_len(body@));
    let mut r = String::new();
    r.append("POST /webservices/typograf.asmx HTTP/1.1\nHost: ");
    r.append(host);
    r.append("\nContent-Type: text/xml\nContent-Length: ");
    let content_length = to_decimal(body_len);
    r.append(content_length.as_str());
    r.append("\nSOAPAction: \"http://");
    r.append(host);
    r.append("/webservices/ProcessText\"");
    assert(r@ == spec_header_block(text@, *options, host@));
    r.append("\n\n");
    r.append(body.as_str());
    r
}

} // verus!
