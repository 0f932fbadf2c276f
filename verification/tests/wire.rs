//! Tests of the wire codec: serialization, parsing, the round trip between
//! them, and the byte utilities they are built on.

use localshare::http::{
    ContentDisposition, ContentType, HttpHeader, HttpMethod, HttpRequest, HttpResponse,
    TransferEncoding,
};
use localshare::numbers::{append_decimal, parse_u32, parse_usize};
use localshare::parse::WireError;
use localshare::sink::StreamBuffer;
use localshare::split_slice_uninclusive;

#[test]
fn test_http_response() {
    let mut output = Vec::<u8>::new();

    let example_body1: &[u8] = b"<h1>Welcome</h1><p>the paragraph</p>";

    let response_structs: &[HttpResponse] = &[HttpResponse {
        protocol_version: b"HTTP/1.1",
        status_code: 200,
        status_text: b"OK",
        headers: vec![
            HttpHeader::ContentType(ContentType::text_html),
            HttpHeader::ContentLength(example_body1.len()),
        ],
        body: example_body1,
    }];
    let response_strings: &[&[u8]] = &[
        b"HTTP/1.1 200 OK\r\nContent-Type: text/html\r\nContent-Length: 36\r\n\r\n<h1>Welcome</h1><p>the paragraph</p>",
    ];

    assert_eq!(response_structs.len(), response_strings.len());
    for index in 0..response_structs.len() {
        output.clear();
        response_structs[index].write_to_sink(&mut output);
        assert_eq!(output.as_slice(), response_strings[index]);
    }
}

#[test]
fn test_http_request() {
    let mut buffer = Vec::<u8>::new();
    let req = HttpRequest {
        protocol_version: b"HTTP/1.1",
        method: HttpMethod::GET,
        route: b"/files",
        query_params: b"",
        headers: vec![],
        body: b"",
    };
    let req_str: &[u8] = b"GET /files HTTP/1.1\r\n\r\n";

    req.write_to_sink(&mut buffer);
    assert_eq!(buffer.as_slice(), req_str);
}

#[test]
fn test_split_slice_uninclusive() {
    let sources: &[&[u8]] = &[
        b"first second third",
        b"GET /files HTTP/1.1\r\nContent-Type: text/plain",
        b"first second third",
        b"This longer string",
    ];
    let splitters: &[&[u8]] = &[b" ", b"\r\n", b" second ", b"first"];
    let results: &[Option<(&[u8], &[u8])>] = &[
        Some((b"first", b"second third")),
        Some((b"GET /files HTTP/1.1", b"Content-Type: text/plain")),
        Some((b"first", b"third")),
        None,
    ];

    for index in 0..sources.len() {
        assert_eq!(
            split_slice_uninclusive(sources[index], splitters[index]),
            results[index]
        )
    }
}

#[test]
fn response_round_trip_reproduces_fields() {
    let body: &[u8] = b"some payload \xff\x00 with binary bytes";
    let response = HttpResponse {
        protocol_version: b"HTTP/1.1",
        status_code: 404,
        status_text: b"Missing",
        headers: vec![
            HttpHeader::ContentType(ContentType::application_json),
            HttpHeader::TransferEncoding(TransferEncoding::base64),
            HttpHeader::ContentLength(body.len()),
            HttpHeader::ContentDisposition(ContentDisposition::Attachment(Some(b"x.bin"))),
        ],
        body,
    };
    let mut bytes = Vec::new();
    response.write_to_sink(&mut bytes);

    let parsed = HttpResponse::parse(bytes.as_slice()).unwrap();
    assert_eq!(parsed.protocol_version, b"HTTP/1.1");
    assert_eq!(parsed.status_code, 404);
    assert_eq!(parsed.status_text, b"Missing");
    assert_eq!(parsed.body, body);
    assert_eq!(parsed.headers.len(), 4);
    assert!(matches!(
        parsed.headers[0],
        HttpHeader::ContentType(ContentType::application_json)
    ));
    assert!(matches!(
        parsed.headers[1],
        HttpHeader::TransferEncoding(TransferEncoding::base64)
    ));
    assert!(matches!(parsed.headers[2], HttpHeader::ContentLength(n) if n == body.len()));
    match parsed.headers[3] {
        HttpHeader::ContentDisposition(ContentDisposition::Attachment(Some(name))) => {
            assert_eq!(name, b"x.bin");
        },
        _ => panic!("wrong disposition"),
    }
}

#[test]
fn response_round_trip_with_empty_body() {
    let response = HttpResponse {
        protocol_version: b"HTTP/1.1",
        status_code: 200,
        status_text: b"OK",
        headers: vec![HttpHeader::ContentType(ContentType::text_plain)],
        body: b"",
    };
    let mut bytes = Vec::new();
    response.write_to_sink(&mut bytes);
    assert_eq!(bytes.as_slice(), b"HTTP/1.1 200 OK\r\nContent-Type: text/plain\r\n\r\n");

    let parsed = HttpResponse::parse(bytes.as_slice()).unwrap();
    assert_eq!(parsed.status_code, 200);
    assert_eq!(parsed.body, b"");
    assert_eq!(parsed.headers.len(), 1);
}

#[test]
fn request_round_trip_reproduces_fields() {
    let request = HttpRequest {
        protocol_version: b"HTTP/1.1",
        method: HttpMethod::POST,
        route: b"/peers",
        query_params: b"source=1.2.3.4",
        headers: vec![HttpHeader::ContentLength(3)],
        body: b"abc",
    };
    let mut bytes = Vec::new();
    request.write_to_sink(&mut bytes);
    assert_eq!(
        bytes.as_slice(),
        b"POST /peers?source=1.2.3.4 HTTP/1.1\r\nContent-Length: 3\r\n\r\nabc".as_slice()
    );

    let parsed = HttpRequest::parse(bytes.as_slice()).unwrap();
    assert!(matches!(parsed.method, HttpMethod::POST));
    assert_eq!(parsed.route, b"/peers");
    assert_eq!(parsed.query_params, b"source=1.2.3.4");
    assert_eq!(parsed.body, b"abc");
    assert_eq!(parsed.headers.len(), 1);
}

#[test]
fn parse_rejects_bad_wire_data() {
    assert_eq!(HttpRequest::parse(b"").err().unwrap(), WireError::EmptyRead);
    assert_eq!(HttpRequest::parse(b"ab").err().unwrap(), WireError::IncompleteHead);
    assert_eq!(
        HttpRequest::parse(b"GET /\xff HTTP/1.1\r\n\r\nbody").err().unwrap(),
        WireError::NonAsciiHead
    );
    assert_eq!(
        HttpRequest::parse(b"GET\r\n\r\nbody").err().unwrap(),
        WireError::MissingField
    );
    assert_eq!(
        HttpRequest::parse(b"PUT / HTTP/1.1\r\n\r\nbody").err().unwrap(),
        WireError::BadMethod
    );
    assert_eq!(
        HttpRequest::parse(b"GET / HTTP/1.1\r\nX-Unknown: v\r\n\r\nbody").err().unwrap(),
        WireError::UnknownHeader
    );
    assert_eq!(
        HttpRequest::parse(b"GET / HTTP/1.1\r\nContent-Length: abc\r\n\r\nbody").err().unwrap(),
        WireError::BadHeaderValue
    );
    assert_eq!(
        HttpResponse::parse(b"HTTP/1.1 abc OK\r\n\r\nbody").err().unwrap(),
        WireError::BadStatusCode
    );
}

#[test]
fn parse_accepts_allow_listed_headers() {
    let parsed =
        HttpRequest::parse(b"GET / HTTP/1.1\r\nHost: example\r\nAccept: */*\r\n\r\nbody").unwrap();
    assert_eq!(parsed.headers.len(), 0);
    assert_eq!(parsed.body, b"body");
}

#[test]
fn parse_without_separator_drops_trailing_bytes() {
    // The framing heuristic: with no CR LF CR LF separator, everything but
    // the last four bytes is the head and the body is empty.
    let parsed = HttpRequest::parse(b"GET /files HTTP/1.1\r\n\r\n").unwrap();
    assert_eq!(parsed.route, b"/files");
    assert_eq!(parsed.body, b"");
}

#[test]
fn method_and_value_names_round_trip() {
    assert_eq!(HttpMethod::from_str("GET").unwrap().as_str(), "GET");
    assert_eq!(HttpMethod::from_str("POST").unwrap().as_str(), "POST");
    assert_eq!(HttpMethod::from_str("ERASE").unwrap().as_str(), "ERASE");
    assert!(HttpMethod::from_str("PUT").is_none());

    for name in ["text/html", "text/plain", "image/x-icon", "audio/flac", "application/json"] {
        assert_eq!(ContentType::from_str(name).unwrap().as_str(), name);
    }
    assert!(ContentType::from_str("video/mp4").is_none());

    for name in ["7bit", "8bit", "binary", "quoted-printable", "base64"] {
        assert_eq!(TransferEncoding::from_str(name).unwrap().as_str(), name);
    }
    assert!(TransferEncoding::from_str("gzip").is_none());
}

#[test]
fn header_pairs_parse_to_typed_headers() {
    assert!(matches!(
        HttpHeader::from_str_pair(b"Content-Type", b"audio/flac"),
        Ok(Some(HttpHeader::ContentType(ContentType::audio_flac)))
    ));
    assert!(matches!(
        HttpHeader::from_str_pair(b"Content-Length", b"1234"),
        Ok(Some(HttpHeader::ContentLength(1234)))
    ));
    assert!(matches!(
        HttpHeader::from_str_pair(b"Content-Disposition", b"inline"),
        Ok(Some(HttpHeader::ContentDisposition(ContentDisposition::Inline)))
    ));
    match HttpHeader::from_str_pair(b"Content-Disposition", b"attachment; filename=a.txt; filename*=a.txt")
    {
        Ok(Some(HttpHeader::ContentDisposition(ContentDisposition::Attachment(Some(name))))) => {
            assert_eq!(name, b"a.txt");
        },
        _ => panic!("wrong disposition parse"),
    }
    assert!(matches!(HttpHeader::from_str_pair(b"Accept-Encoding", b"gzip"), Ok(None)));
    assert!(matches!(
        HttpHeader::from_str_pair(b"X-Custom", b"v"),
        Err(WireError::UnknownHeader)
    ));
    assert!(matches!(
        HttpHeader::from_str_pair(b"Content-Type", b"video/mp4"),
        Err(WireError::BadHeaderValue)
    ));
}

#[test]
fn decimal_rendering_and_parsing() {
    let mut out = Vec::new();
    append_decimal(&mut out, 0);
    assert_eq!(out.as_slice(), b"0");
    out.clear();
    append_decimal(&mut out, 10350);
    assert_eq!(out.as_slice(), b"10350");

    assert_eq!(parse_usize(b"10350"), Some(10350));
    assert_eq!(parse_usize(b"0"), Some(0));
    assert_eq!(parse_usize(b""), None);
    assert_eq!(parse_usize(b"12a"), None);
    assert_eq!(parse_usize(b"+12"), None);
    assert_eq!(parse_u32(b"4294967295"), Some(u32::MAX));
    assert_eq!(parse_u32(b"4294967296"), None);
}

#[test]
fn make_http_request_writes_primary_line_and_blank_line() {
    let mut buffer = StreamBuffer::new(4096);
    localshare::http::make_http_request(&mut buffer, HttpMethod::GET, "/files", &[]);
    buffer.flush();
    let writes = buffer.take_writes();
    let flat: Vec<u8> = writes.concat();
    assert_eq!(flat.as_slice(), b"GET /files HTTP/1.1\r\n\r\n");
}
