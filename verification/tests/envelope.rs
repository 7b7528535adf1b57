use typograf_client::RequestOptions;
use typograf_client::make_soap_request_header_and_body;

fn options(encoding: &str, entity_type: u8, use_br: u8, use_p: u8, max_no_br: u8) -> RequestOptions {
    RequestOptions {
        encoding: encoding.to_string(),
        entity_type,
        use_br,
        use_p,
        max_no_br,
    }
}

#[test]
fn request_is_byte_exact() {
    let request = make_soap_request_header_and_body("hi", &options("UTF-8", 4, 1, 0, 3), "example.test");
    let body = "<?xml version=\"1.0\" encoding=\"UTF-8\"?>\n\
        <soap:Envelope xmlns:xsi=\"http://www.w3.org/2001/XMLSchema-instance\"\n\
        xmlns:xsd=\"http://www.w3.org/2001/XMLSchema\"\n\
        xmlns:soap=\"http://schemas.xmlsoap.org/soap/envelope/\">\n\
        <soap:Body>\n\
        <ProcessText xmlns=\"http://example.test/webservices/\">\n\
        <text>hi</text>\n\
        <entityType>4</entityType>\n\
        <useBr>1</useBr>\n\
        <useP>0</useP>\n\
        <maxNobr>3</maxNobr>\n\
        </ProcessText>\n\
        </soap:Body>\n\
        </soap:Envelope>";
    let expected = format!(
        "POST /webservices/typograf.asmx HTTP/1.1\n\
        Host: example.test\n\
        Content-Type: text/xml\n\
        Content-Length: {}\n\
        SOAPAction: \"http://example.test/webservices/ProcessText\"\n\n{}",
        body.len(),
        body
    );
    assert_eq!(request, expected);
}

#[test]
fn content_length_equals_byte_length_of_body_after_blank_line() {
    let texts = ["", "hello", "a & b < c > d", "многобайтный текст & ещё"];
    for text in texts.iter() {
        let request =
            make_soap_request_header_and_body(text, &options("UTF-8", 4, 0, 0, 3), "typograf.artlebedev.ru");
        let split = request.find("\n\n").expect("header/body separator");
        let header = &request[..split];
        let body = &request[split + 2..];
        let needle = "Content-Length: ";
        let at = header.find(needle).expect("a Content-Length header");
        let rest = &header[at + needle.len()..];
        let end = rest.find('\n').unwrap_or(rest.len());
        let value: usize = rest[..end].parse().expect("a numeric Content-Length");
        assert_eq!(value, body.len());
    }
}

#[test]
fn request_body_carries_the_escaped_text() {
    let request = make_soap_request_header_and_body(
        "Hello & <World>",
        &options("UTF-8", 4, 0, 0, 3),
        "typograf.artlebedev.ru",
    );
    assert!(request.contains("<text>Hello &amp; &lt;World&gt;</text>"));
    assert!(request.contains("Host: typograf.artlebedev.ru\n"));
}

#[test]
fn default_options_match_the_documented_defaults() {
    let defaults = RequestOptions::default();
    assert_eq!(defaults.encoding, "UTF-8");
    assert_eq!(defaults.entity_type, 4);
    assert_eq!(defaults.use_br, 0);
    assert_eq!(defaults.use_p, 0);
    assert_eq!(defaults.max_no_br, 3);
}
