use typograf_client::ExtractError;
use typograf_client::extract_result;

#[test]
fn extracts_payload_between_markers() {
    let response = "HTTP/1.1 200 OK\nContent-Type: text/xml\n\n\
        <soap:Envelope><soap:Body><ProcessTextResponse>\
        <ProcessTextResult>Hello &amp; World</ProcessTextResult>\
        </ProcessTextResponse></soap:Body></soap:Envelope>";
    assert_eq!(extract_result(response), Ok("Hello & World".to_string()));
}

#[test]
fn unescaping_runs_over_the_whole_response_first() {
    let response = "<ProcessTextResult>a &lt;b&gt; c</ProcessTextResult>";
    assert_eq!(extract_result(response), Ok("a <b> c".to_string()));
}

#[test]
fn missing_open_marker_is_an_error() {
    let response = "HTTP/1.1 502 Bad Gateway\n\n<html>error page</html>";
    assert_eq!(extract_result(response), Err(ExtractError::OpenTagNotFound));
}

#[test]
fn missing_close_marker_is_an_error() {
    let response = "<ProcessTextResult>dangling payload";
    assert_eq!(extract_result(response), Err(ExtractError::CloseTagNotFound));
}

#[test]
fn reversed_markers_are_an_error() {
    let response = "</ProcessTextResult>x<ProcessTextResult>";
    assert_eq!(extract_result(response), Err(ExtractError::InvalidTagOrder));
}

#[test]
fn empty_payload_is_not_an_error() {
    let response = "<ProcessTextResult></ProcessTextResult>";
    assert_eq!(extract_result(response), Ok(String::new()));
}
