use ewb::exchange::{parse_header_line, parse_status_line};
use ewb::number::parse_number;
use ewb::response::{ResponseStream, URLResponse};
use ewb::url::{ErrorKind, Transport, URL};

/// What a server answers to the request for the example page.
fn example_response() -> ResponseStream {
    stream_of(
        "HTTP/1.1 200 OK\r\n\
         Server: nginx\r\n\
         Content-Type: text/html; charset=UTF-8\r\n\
         Connection: close\r\n\
         \r\n\
         <html>\n<body>\n<div>This is a simple</div>\n<div>web page with some</div>\n\
         <span>text in it.</span>\n</body>\n</html>\n",
    )
}

fn stream_of(text: &str) -> ResponseStream {
    ResponseStream::new(text.as_bytes().to_vec())
}

#[test]
fn test_url_construct() {
    let url_result =
        URL::new("https://browser.engineering/examples/example1-simple.html".to_string());

    match url_result {
        Ok(url) => {
            assert_eq!(url.scheme, "https");
            assert_eq!(url.host, "browser.engineering");
            assert_eq!(url.path, "/examples/example1-simple.html");
        }
        _ => {}
    }
}

#[test]
fn test_url_construct_fails_https() {
    let url = URL::new("https://browser.engineering/examples/example1-simple.html".to_string());

    assert!(url.is_ok());
}

#[test]
fn test_response_data() {
    let mut url =
        URL::new("https://browser.engineering/examples/example1-simple.html".to_string())
            .unwrap();
    let response = url.request(&mut example_response()).unwrap();

    assert!(response.len() > 0);
}

#[test]
fn test_response_returns_first_line() {
    let mut url =
        URL::new("https://browser.engineering/examples/example1-simple.html".to_string())
            .unwrap();
    url.request(&mut example_response()).unwrap();

    assert_eq!(url.response.version, "HTTP/1.1");
    assert_eq!(url.response.status, 200);
    assert_eq!(url.response.explanation, "OK");
}

#[test]
fn test_response_headers() {
    let mut url =
        URL::new("https://browser.engineering/examples/example1-simple.html".to_string())
            .unwrap();
    url.request(&mut example_response()).unwrap();

    assert!(url.response.headers.len() > 0);
}

#[test]
fn test_response_body() {
    let mut url =
        URL::new("https://browser.engineering/examples/example1-simple.html".to_string())
            .unwrap();
    url.request(&mut example_response()).unwrap();

    assert!(url.response.body.len() > 0);
}

#[test]
fn test_http() {
    let mut url =
        URL::new("http://browser.engineering/examples/example1-simple.html".to_string())
            .unwrap();
    url.request(&mut example_response()).unwrap();

    assert!(url.response.body.len() > 0);
}

#[test]
fn url_fields_round_trip() {
    let url = URL::new("http://example.org:8080/a/b?c=d#e".to_string()).unwrap();
    assert_eq!(url.url, "http://example.org:8080/a/b?c=d#e");
    assert_eq!(url.scheme, "http");
    assert_eq!(url.host, "example.org");
    assert_eq!(url.port, Some(8080));
    assert_eq!(url.path, "/a/b?c=d#e");
    assert_eq!(url.response.status, 0);
    assert_eq!(url.response.headers.len(), 0);
}

#[test]
fn url_without_port_or_path() {
    let url = URL::new("https://host/".to_string()).unwrap();
    assert_eq!(url.scheme, "https");
    assert_eq!(url.host, "host");
    assert_eq!(url.port, None);
    assert_eq!(url.path, "/");

    let url = URL::new("https://host".to_string()).unwrap();
    assert_eq!(url.host, "host");
    assert_eq!(url.path, "/");

    let url = URL::new("http://host:/x".to_string()).unwrap();
    assert_eq!(url.host, "host");
    assert_eq!(url.port, None);
    assert_eq!(url.path, "/x");
}

#[test]
fn url_splits_at_first_separator_only() {
    let url = URL::new("a://b/c://d".to_string()).unwrap();
    assert_eq!(url.scheme, "a");
    assert_eq!(url.host, "b");
    assert_eq!(url.path, "/c://d");
}

#[test]
fn url_without_separator_is_malformed() {
    for raw in ["", "host/path", "http:/host", "http:host//", ":/", "http//host"] {
        let error = URL::new(raw.to_string()).unwrap_err();
        assert_eq!(error.kind, ErrorKind::MalformedURL);
        assert_eq!(error.message, "URL scheme missing");
        assert_eq!(error.to_string(), "URL scheme missing");
    }
}

#[test]
fn url_with_a_port_that_is_no_number_is_malformed() {
    for raw in ["http://host:x/", "http://host:65536/", "http://host:80a/", "http://host:+/"] {
        let error = URL::new(raw.to_string()).unwrap_err();
        assert_eq!(error.kind, ErrorKind::MalformedURL);
    }
    assert_eq!(URL::new("http://host:65535/".to_string()).unwrap().port, Some(65535));
    assert_eq!(URL::new("http://host:+80/".to_string()).unwrap().port, Some(80));
    assert_eq!(URL::new("http://host:0080/".to_string()).unwrap().port, Some(80));
}

#[test]
fn numbers_are_an_optional_plus_and_digits() {
    let text: Vec<char> = "x+123y".chars().collect();
    assert_eq!(parse_number(&text, 1, 5, 1000), Some(123));
    assert_eq!(parse_number(&text, 2, 5, 123), Some(123));
    assert_eq!(parse_number(&text, 2, 5, 122), None);
    assert_eq!(parse_number(&text, 1, 2, 1000), None);
    assert_eq!(parse_number(&text, 2, 2, 1000), None);
    assert_eq!(parse_number(&text, 0, 5, 1000), None);
    assert_eq!(parse_number(&text, 2, 6, 1000), None);
    let big: Vec<char> = "18446744073709551615".chars().collect();
    assert_eq!(parse_number(&big, 0, big.len(), u64::MAX), Some(u64::MAX));
    let bigger: Vec<char> = "18446744073709551616".chars().collect();
    assert_eq!(parse_number(&bigger, 0, bigger.len(), u64::MAX), None);
}

#[test]
fn effective_port_follows_the_scheme() {
    assert_eq!(URL::new("https://host/".to_string()).unwrap().get_port(), 443);
    assert_eq!(URL::new("http://host/".to_string()).unwrap().get_port(), 80);
    assert_eq!(URL::new("ftp://host/".to_string()).unwrap().get_port(), 80);
    assert_eq!(URL::new("https://host:8443/".to_string()).unwrap().get_port(), 8443);
    assert!(URL::new("https://host/".to_string()).unwrap().is_https());
    assert!(!URL::new("http://host/".to_string()).unwrap().is_https());
}

#[test]
fn transport_follows_the_scheme() {
    assert_eq!(URL::new("https://host/".to_string()).unwrap().transport().unwrap(), Transport::Tls);
    assert_eq!(URL::new("http://host/".to_string()).unwrap().transport().unwrap(), Transport::Plain);
    let error = URL::new("ftp://host/".to_string()).unwrap().transport().unwrap_err();
    assert_eq!(error.kind, ErrorKind::UnsupportedScheme);
}

#[test]
fn request_framing_is_fixed() {
    let url = URL::new("http://example.org:8080/index.html".to_string()).unwrap();
    assert_eq!(
        url.request_text(),
        "GET /index.html HTTP/1.0\r\nHost: example.org\r\nUser-Agent: Mozilla/5.0\r\n\r\n"
    );
}

#[test]
fn exchange_fills_the_record() {
    let mut url = URL::new("http://example.org/".to_string()).unwrap();
    let text = "HTTP/1.0 404 Not Found\r\nContent-Type:   Text/HTML  \r\nX-Empty:\r\ncontent-type: b\r\n\r\nline one\r\nline two";
    assert_eq!(text.chars().count(), 100);
    let mut stream = stream_of(text);
    let body = url.request(&mut stream).unwrap();
    assert_eq!(body, "line one\r\nline two");
    assert_eq!(url.response.body, "line one\r\nline two");
    assert_eq!(url.response.version, "HTTP/1.0");
    assert_eq!(url.response.status, 404);
    assert_eq!(url.response.explanation, "Not");
    assert_eq!(url.response.headers.len(), 2);
    assert_eq!(url.response.headers.get("content-type"), Some(&"b".to_string()));
    assert_eq!(url.response.headers.get("x-empty"), Some(&"".to_string()));
    assert_eq!(url.scheme, "http");
    assert_eq!(url.host, "example.org");
    assert_eq!(stream.consumed(), 100);
    assert_eq!(stream.read_to_end(), Some("".to_string()));
}

#[test]
fn encoded_response_fails_before_the_body_is_read() {
    for header in ["Content-Encoding: gzip", "Transfer-Encoding: chunked", "CONTENT-ENCODING:x"] {
        let head = format!("HTTP/1.1 200 OK\r\nServer: x\r\n{}\r\n\r\n", header);
        let text = format!("{}the body", head);
        let mut url = URL::new("http://example.org/".to_string()).unwrap();
        let mut stream = stream_of(&text);
        let error = url.request(&mut stream).unwrap_err();
        assert_eq!(error.kind, ErrorKind::UnsupportedEncoding);
        assert_eq!(stream.consumed(), head.len());
        assert_eq!(url.response.body, "");
        assert_eq!(stream.read_to_end(), Some("the body".to_string()));
    }
}

#[test]
fn malformed_status_line_fails() {
    for line in ["", "HTTP/1.1\r\n", "HTTP/1.1 200\r\n", "HTTP/1.1 abc OK\r\n", "HTTP/1.1  200 OK\r\n", "HTTP/1.1 -1 OK\r\n"] {
        let mut url = URL::new("http://example.org/".to_string()).unwrap();
        let mut stream = stream_of(&format!("{}\r\n", line));
        let error = url.request(&mut stream).unwrap_err();
        assert_eq!(error.kind, ErrorKind::MalformedStatusLine);
        assert_eq!(url.response.version, "");
    }
}

#[test]
fn malformed_header_fails() {
    let mut url = URL::new("http://example.org/".to_string()).unwrap();
    let mut stream = stream_of("HTTP/1.1 200 OK\r\nA: b\r\nno colon here\r\n\r\nbody");
    let error = url.request(&mut stream).unwrap_err();
    assert_eq!(error.kind, ErrorKind::MalformedHeader);
    assert_eq!(url.response.headers.get("a"), Some(&"b".to_string()));
    assert_eq!(url.response.body, "");

    let mut url = URL::new("http://example.org/".to_string()).unwrap();
    let mut stream = stream_of("HTTP/1.1 200 OK\r\nA: b\r\n");
    let error = url.request(&mut stream).unwrap_err();
    assert_eq!(error.kind, ErrorKind::MalformedHeader);

    let mut url = URL::new("http://example.org/".to_string()).unwrap();
    let mut stream = stream_of("HTTP/1.1 200 OK\r\nA: b\n\nbody");
    let error = url.request(&mut stream).unwrap_err();
    assert_eq!(error.kind, ErrorKind::MalformedHeader);
}

#[test]
fn status_line_tokens() {
    assert_eq!(
        parse_status_line("HTTP/1.1 200 OK\r\n"),
        Some(("HTTP/1.1".to_string(), 200, "OK".to_string()))
    );
    assert_eq!(
        parse_status_line("v 7 why\n"),
        Some(("v".to_string(), 7, "why\n".to_string()))
    );
    assert_eq!(parse_status_line(" 7 "), Some(("".to_string(), 7, "".to_string())));
    assert_eq!(parse_status_line("v 7"), None);
    assert_eq!(parse_status_line("v seven x"), None);
}

#[test]
fn header_line_is_lower_cased_and_trimmed() {
    assert_eq!(
        parse_header_line("Content-Type: \t Text/HTML; Charset=UTF-8 \r\n"),
        Some(("content-type".to_string(), "text/html; charset=utf-8".to_string()))
    );
    assert_eq!(
        parse_header_line("A:b:c"),
        Some(("a".to_string(), "b:c".to_string()))
    );
    assert_eq!(parse_header_line(" Key :\u{3000}V\u{a0}"), Some((" key ".to_string(), "v".to_string())));
    assert_eq!(parse_header_line("no colon"), None);
}

#[test]
fn stream_reads_lines_then_the_rest() {
    let mut stream = stream_of("one\r\ntwo\nthree");
    assert_eq!(stream.consumed(), 0);
    assert_eq!(stream.read_line(), Some("one\r\n".to_string()));
    assert_eq!(stream.read_line(), Some("two\n".to_string()));
    assert_eq!(stream.consumed(), 9);
    assert_eq!(stream.read_line(), Some("three".to_string()));
    assert_eq!(stream.read_line(), Some("".to_string()));
    assert_eq!(stream.read_to_end(), Some("".to_string()));

    let mut stream = stream_of("one\ntwo\nthree");
    assert_eq!(stream.read_line(), Some("one\n".to_string()));
    assert_eq!(stream.read_to_end(), Some("two\nthree".to_string()));
}

#[test]
fn stream_decodes_utf8_and_refuses_other_bytes() {
    let mut stream = stream_of("gr\u{fc}\u{df}e \u{4e00}\u{1f600}\nrest");
    assert_eq!(stream.read_line(), Some("gr\u{fc}\u{df}e \u{4e00}\u{1f600}\n".to_string()));
    assert_eq!(stream.consumed(), 16);

    let mut stream = ResponseStream::new(vec![b'a', 0xff, b'\n', b'b', 0xc3, 0xa9, b'\n', 0xc3]);
    assert_eq!(stream.read_line(), None);
    assert_eq!(stream.consumed(), 3);
    assert_eq!(stream.read_line(), Some("b\u{e9}\n".to_string()));
    assert_eq!(stream.read_to_end(), None);
    assert_eq!(stream.consumed(), 8);
}

#[test]
fn bytes_that_are_no_text_fail_the_step_that_reads_them() {
    let head = "HTTP/1.1 200 OK\r\nServer: x\r\n\r\n";
    let mut bytes = head.as_bytes().to_vec();
    bytes.extend_from_slice(&[0x1f, 0x8b, 0x08, 0xff]);
    let mut url = URL::new("http://example.org/".to_string()).unwrap();
    let error = url.request(&mut ResponseStream::new(bytes)).unwrap_err();
    assert_eq!(error.kind, ErrorKind::IOFailure);
    assert_eq!(url.response.status, 200);
    assert_eq!(url.response.body, "");

    let mut url = URL::new("http://example.org/".to_string()).unwrap();
    let mut stream = ResponseStream::new(b"HTTP/1.1 200 OK\r\nA: \xff\r\n\r\n".to_vec());
    let error = url.request(&mut stream).unwrap_err();
    assert_eq!(error.kind, ErrorKind::IOFailure);
    assert_eq!(stream.consumed(), 23);

    let mut url = URL::new("http://example.org/".to_string()).unwrap();
    let mut stream = ResponseStream::new(b"HTTP/1.1 \xff OK\r\n\r\n".to_vec());
    let error = url.request(&mut stream).unwrap_err();
    assert_eq!(error.kind, ErrorKind::IOFailure);
    assert_eq!(error.message, "Error reading response");
}

#[test]
fn encoded_response_with_a_binary_body_fails_as_encoded() {
    let head = "HTTP/1.1 200 OK\r\nContent-Encoding: gzip\r\n\r\n";
    let mut bytes = head.as_bytes().to_vec();
    bytes.extend_from_slice(&[0x1f, 0x8b, 0x08, 0xff, 0x00]);
    let mut url = URL::new("http://example.org/".to_string()).unwrap();
    let mut stream = ResponseStream::new(bytes);
    let error = url.request(&mut stream).unwrap_err();
    assert_eq!(error.kind, ErrorKind::UnsupportedEncoding);
    assert_eq!(error.message, "Unsupported encoded content");
    assert_eq!(stream.consumed(), head.len());
    assert_eq!(url.response.headers.get("content-encoding"), Some(&"gzip".to_string()));
}

#[test]
fn step_functions_compose_the_exchange() {
    let mut url = URL::new("http://example.org/".to_string()).unwrap();
    let mut stream = stream_of("HTTP/1.1 301 Moved\r\nLocation: /x\r\n\r\nbye");
    assert!(url.read_version_status_explanation(&mut stream).is_ok());
    assert_eq!(url.response.status, 301);
    assert!(url.read_headers(&mut stream).is_ok());
    assert!(!url.is_response_encoded());
    assert_eq!(url.response.headers.get("location"), Some(&"/x".to_string()));
    assert!(url.read_body(&mut stream).is_ok());
    assert_eq!(url.response.body, "bye");
}

#[test]
fn empty_record_holds_nothing() {
    let record = URLResponse::empty();
    assert_eq!(record.version, "");
    assert_eq!(record.status, 0);
    assert_eq!(record.explanation, "");
    assert_eq!(record.headers.len(), 0);
    assert_eq!(record.body, "");
}
