//! Parsing of raw bytes into request and response values.
//!
//! The head is everything before the first CR LF CR LF separator; when no
//! separator is found the final four bytes are discarded and the body is
//! taken to be empty, a framing heuristic that is not driven by
//! Content-Length and that a body containing the separator bytes can fool.
//! The head must be ASCII.  Its first line is the primary line; every further
//! line is `Key: Value` with a closed key set, an allow-list of recognized
//! but dropped keys, and a hard failure on any other key.

use vstd::prelude::*;
use crate::bytes::{
    ascii_bytes, ascii_seq, all_ascii, eq_lit, split_all, split_once, split_slice_uninclusive,
    slice_views, spec_split_once, spec_split_seq, spec_split_uninclusive, spec_starts_with,
    starts_with, CR, LF, SP,
};
use crate::http::{
    crlf, head_body_separator, spec_content_type_from, spec_method_from,
    spec_transfer_encoding_from, ContentDisposition, ContentType, HeaderView, HttpHeader,
    HttpMethod, HttpRequest, HttpResponse, RequestView, ResponseView, TransferEncoding,
};
use crate::numbers::{parse_usize, spec_parse_decimal};

verus! {

/// Why a raw message failed to parse.  A parse failure aborts the connection
/// with no response.
#[derive(Clone, Copy, Debug, PartialEq, Eq, Structural)]
pub enum WireError {
    /// No bytes were ever received.
    EmptyRead,
    /// No head/body separator, and too few bytes for the trailing-slice
    /// fallback.
    IncompleteHead,
    /// The head contains a non-ASCII byte.
    NonAsciiHead,
    /// The primary line has fewer than three fields.
    MissingField,
    /// The method name is unknown.
    BadMethod,
    /// The status code is not a decimal number.
    BadStatusCode,
    /// A head line carries a key outside the closed set and the allow-list.
    UnknownHeader,
    /// A known key carries an unreadable value.
    BadHeaderValue,
}

/// The keys that are recognized and silently dropped.
pub open spec fn spec_is_ignored_key(k: Seq<u8>) -> bool {
    ||| k == ascii_seq("Accept-Language"@)
    ||| k == ascii_seq("Range"@)
    ||| k == ascii_seq("DNT"@)
    ||| k == ascii_seq("Sec-GPC"@)
    ||| k == ascii_seq("Connection"@)
    ||| k == ascii_seq("Referer"@)
    ||| k == ascii_seq("Sec-Fetch-Dest"@)
    ||| k == ascii_seq("Sec-Fetch-Mode"@)
    ||| k == ascii_seq("Sec-Fetch-Site"@)
    ||| k == ascii_seq("Accept-Encoding"@)
    ||| k == ascii_seq("Priority"@)
    ||| k == ascii_seq("Accept"@)
    ||| k == ascii_seq("Host"@)
    ||| k == ascii_seq("User-Agent"@)
    ||| k == ascii_seq("Upgrade-Insecure-Requests"@)
}

/// The content disposition denoted by a header value, if any.
pub open spec fn spec_disposition_from(value: Seq<u8>) -> Result<HeaderView, WireError> {
    if value == ascii_seq("inline"@) {
        Ok(HeaderView::ContentDisposition(crate::http::DispositionView::Inline))
    } else if value == ascii_seq("attachment"@) {
        Ok(HeaderView::ContentDisposition(crate::http::DispositionView::Attachment(None)))
    } else if spec_starts_with(value, ascii_seq("attachment; filename="@)) {
        let rest = value.skip(ascii_seq("attachment; filename="@).len() as int);
        match spec_split_once(rest, ascii_seq("; filename*="@)) {
            Some((fname, _)) => Ok(
                HeaderView::ContentDisposition(
                    crate::http::DispositionView::Attachment(Some(fname)),
                ),
            ),
            None => Err(WireError::BadHeaderValue),
        }
    } else {
        Err(WireError::BadHeaderValue)
    }
}

/// The typed header denoted by a `Key: Value` pair: `Ok(None)` for an
/// allow-listed key, an error for an unknown key or an unreadable value.
pub open spec fn spec_header_from_pair(key: Seq<u8>, value: Seq<u8>) -> Result<
    Option<HeaderView>,
    WireError,
> {
    if key == ascii_seq("Content-Type"@) {
        match spec_content_type_from(value) {
            Some(c) => Ok(Some(HeaderView::ContentType(c))),
            None => Err(WireError::BadHeaderValue),
        }
    } else if key == ascii_seq("Transfer-Encoding"@) {
        match spec_transfer_encoding_from(value) {
            Some(t) => Ok(Some(HeaderView::TransferEncoding(t))),
            None => Err(WireError::BadHeaderValue),
        }
    } else if key == ascii_seq("Content-Length"@) {
        match spec_parse_decimal(value, usize::MAX as nat) {
            Some(n) => Ok(Some(HeaderView::ContentLength(n as usize))),
            None => Err(WireError::BadHeaderValue),
        }
    } else if key == ascii_seq("Content-Disposition"@) {
        match spec_disposition_from(value) {
            Ok(h) => Ok(Some(h)),
            Err(e) => Err(e),
        }
    } else if spec_is_ignored_key(key) {
        Ok(None)
    } else {
        Err(WireError::UnknownHeader)
    }
}

/// The typed headers denoted by a list of head lines, in order.  A line
/// without a `": "` key/value separator is skipped.
pub open spec fn spec_parse_header_lines(lines: Seq<Seq<u8>>) -> Result<Seq<HeaderView>, WireError>
    decreases lines.len(),
{
    if lines.len() == 0 {
        Ok(Seq::empty())
    } else {
        match spec_split_once(lines[0], ascii_seq(": "@)) {
            None => spec_parse_header_lines(lines.skip(1)),
            Some((k, v)) => match spec_header_from_pair(k, v) {
                Ok(Some(h)) => match spec_parse_header_lines(lines.skip(1)) {
                    Ok(hs) => Ok(seq![h] + hs),
                    Err(e) => Err(e),
                },
                Ok(None) => spec_parse_header_lines(lines.skip(1)),
                Err(e) => Err(e),
            },
        }
    }
}

/// Splits a raw message into head and body at the first CR LF CR LF; with no
/// separator, everything but a fixed trailing slice is the head and the body
/// is empty.
pub open spec fn spec_split_head_body(buf: Seq<u8>) -> Result<(Seq<u8>, Seq<u8>), WireError> {
    if buf.len() == 0 {
        Err(WireError::EmptyRead)
    } else {
        match spec_split_uninclusive(buf, head_body_separator()) {
            Some(p) => Ok(p),
            None => if buf.len() >= 4 {
                Ok((buf.subrange(0, buf.len() - 4), Seq::empty()))
            } else {
                Err(WireError::IncompleteHead)
            },
        }
    }
}

/// The request denoted by raw bytes, or the first reason they fail to parse.
pub open spec fn spec_parse_request(buf: Seq<u8>) -> Result<RequestView, WireError> {
    match spec_split_head_body(buf) {
        Err(e) => Err(e),
        Ok((head, body)) => if !ascii_bytes(head) {
            Err(WireError::NonAsciiHead)
        } else {
            let lines = spec_split_seq(head, crlf());
            match spec_parse_header_lines(lines.skip(1)) {
                Err(e) => Err(e),
                Ok(headers) => {
                    let segments = spec_split_seq(lines[0], seq![SP]);
                    if segments.len() < 3 {
                        Err(WireError::MissingField)
                    } else {
                        match spec_method_from(segments[0]) {
                            None => Err(WireError::BadMethod),
                            Some(method) => {
                                let (route, query) = match spec_split_once(
                                    segments[1],
                                    ascii_seq("?"@),
                                ) {
                                    Some(p) => p,
                                    None => (segments[1], Seq::empty()),
                                };
                                Ok(
                                    RequestView {
                                        protocol_version: segments[2],
                                        method,
                                        route,
                                        query_params: query,
                                        headers,
                                        body,
                                    },
                                )
                            },
                        }
                    }
                },
            }
        },
    }
}

/// The response denoted by raw bytes, or the first reason they fail to parse.
pub open spec fn spec_parse_response(buf: Seq<u8>) -> Result<ResponseView, WireError> {
    match spec_split_head_body(buf) {
        Err(e) => Err(e),
        Ok((head, body)) => if !ascii_bytes(head) {
            Err(WireError::NonAsciiHead)
        } else {
            let lines = spec_split_seq(head, crlf());
            match spec_parse_header_lines(lines.skip(1)) {
                Err(e) => Err(e),
                Ok(headers) => {
                    let segments = spec_split_seq(lines[0], seq![SP]);
                    if segments.len() < 3 {
                        Err(WireError::MissingField)
                    } else {
                        match spec_parse_decimal(segments[1], usize::MAX as nat) {
                            None => Err(WireError::BadStatusCode),
                            Some(code) => Ok(
                                ResponseView {
                                    protocol_version: segments[0],
                                    status_code: code as usize,
                                    status_text: segments[2],
                                    headers,
                                    body,
                                },
                            ),
                        }
                    }
                },
            }
        },
    }
}

impl<'a> HttpHeader<'a> {
    /// The typed header denoted by a `Key: Value` pair: `Ok(None)` for an
    /// allow-listed key, an error for an unknown key or an unreadable value.
    pub fn from_str_pair(key: &[u8], value: &'a [u8]) -> (r: Result<Option<Self>, WireError>)
        ensures
            match r {
                Ok(Some(h)) => spec_header_from_pair(key@, value@) == Ok::<_, WireError>(
                    Some(h@),
                ),
                Ok(None) => spec_header_from_pair(key@, value@) == Ok::<Option<HeaderView>,
                    WireError,
                >(None),
                Err(e) => spec_header_from_pair(key@, value@) == Err::<Option<HeaderView>, _>(e),
            },
    {
        proof {
            reveal_strlit("Content-Type");
            reveal_strlit("Transfer-Encoding");
            reveal_strlit("Content-Length");
            reveal_strlit("Content-Disposition");
        }
        if eq_lit(key, "Content-Type") {
            match ContentType::from_bytes(value) {
                Some(c) => Ok(Some(HttpHeader::ContentType(c))),
                None => Err(WireError::BadHeaderValue),
            }
        } else if eq_lit(key, "Transfer-Encoding") {
            match TransferEncoding::from_bytes(value) {
                Some(t) => Ok(Some(HttpHeader::TransferEncoding(t))),
                None => Err(WireError::BadHeaderValue),
            }
        } else if eq_lit(key, "Content-Length") {
            match parse_usize(value) {
                Some(n) => Ok(Some(HttpHeader::ContentLength(n))),
                None => Err(WireError::BadHeaderValue),
            }
        } else if eq_lit(key, "Content-Disposition") {
            Self::disposition_from_value(value)
        } else if is_ignored_key(key) {
            Ok(None)
        } else {
            Err(WireError::UnknownHeader)
        }
    }

    /// The content disposition denoted by a header value, if any.
    fn disposition_from_value(value: &'a [u8]) -> (r: Result<Option<Self>, WireError>)
        ensures
            match r {
                Ok(Some(h)) => spec_disposition_from(value@) == Ok::<_, WireError>(h@) && h
                    is ContentDisposition,
                Ok(None) => false,
                Err(e) => spec_disposition_from(value@) == Err::<HeaderView, _>(e),
            },
    {
        proof {
            reveal_strlit("inline");
            reveal_strlit("attachment");
            reveal_strlit("attachment; filename=");
            reveal_strlit("; filename*=");
        }
        if eq_lit(value, "inline") {
            Ok(Some(HttpHeader::ContentDisposition(ContentDisposition::Inline)))
        } else if eq_lit(value, "attachment") {
            Ok(Some(HttpHeader::ContentDisposition(ContentDisposition::Attachment(None))))
        } else {
            let mut prefix: Vec<u8> = Vec::new();
            crate::bytes::append_ascii(&mut prefix, "attachment; filename=");
            if starts_with(value, prefix.as_slice()) {
                let rest = &value[prefix.len()..value.len()];
                proof {
                    assert(rest@ =~= value@.skip(ascii_seq("attachment; filename="@).len() as int));
                }
                let mut middle: Vec<u8> = Vec::new();
                crate::bytes::append_ascii(&mut middle, "; filename*=");
                match split_once(rest, middle.as_slice()) {
                    Some((fname, _)) => Ok(
                        Some(
                            HttpHeader::ContentDisposition(ContentDisposition::Attachment(
                                Some(fname),
                            )),
                        ),
                    ),
                    None => Err(WireError::BadHeaderValue),
                }
            } else {
                Err(WireError::BadHeaderValue)
            }
        }
    }
}

/// The key is on the allow-list of recognized but dropped keys.  The list is
/// data: it is materialized and searched, not compared inline.
fn is_ignored_key(key: &[u8]) -> (r: bool)
    ensures
        r == spec_is_ignored_key(key@),
{
    let keys = ignored_header_keys();
    let mut i: usize = 0;
    let mut found = false;
    while i < keys.len()
        invariant
            i <= keys@.len(),
            keys@.map_values(|k: Vec<u8>| k@) == spec_ignored_key_list(),
            found == exists|j: int| 0 <= j < i && keys@[j]@ == key@,
        decreases keys@.len() - i,
    {
        if crate::bytes::bytes_eq(keys[i].as_slice(), key) {
            proof {
                assert(keys@[i as int]@ == key@);
            }
            found = true;
        }
        i = i + 1;
    }
    proof {
        let list = spec_ignored_key_list();
        assert(forall|j: int|
            0 <= j < keys@.len() ==> keys@[j]@ == #[trigger] list[j]);
        if found {
            let j = choose|j: int| 0 <= j < keys@.len() && keys@[j]@ == key@;
            assert(list[j] == key@);
            assert(spec_is_ignored_key(key@));
        } else {
            assert(forall|j: int| 0 <= j < list.len() ==> #[trigger] list[j] != key@);
            assert(!spec_is_ignored_key(key@)) by {
                if spec_is_ignored_key(key@) {
                    assert(list[0] == ascii_seq("Accept-Language"@));
                    assert(list[1] == ascii_seq("Range"@));
                    assert(list[2] == ascii_seq("DNT"@));
                    assert(list[3] == ascii_seq("Sec-GPC"@));
                    assert(list[4] == ascii_seq("Connection"@));
                    assert(list[5] == ascii_seq("Referer"@));
                    assert(list[6] == ascii_seq("Sec-Fetch-Dest"@));
                    assert(list[7] == ascii_seq("Sec-Fetch-Mode"@));
                    assert(list[8] == ascii_seq("Sec-Fetch-Site"@));
                    assert(list[9] == ascii_seq("Accept-Encoding"@));
                    assert(list[10] == ascii_seq("Priority"@));
                    assert(list[11] == ascii_seq("Accept"@));
                    assert(list[12] == ascii_seq("Host"@));
                    assert(list[13] == ascii_seq("User-Agent"@));
                    assert(list[14] == ascii_seq("Upgrade-Insecure-Requests"@));
                }
            }
        }
    }
    found
}

/// The allow-list, in order.
pub open spec fn spec_ignored_key_list() -> Seq<Seq<u8>> {
    seq![
        ascii_seq("Accept-Language"@),
        ascii_seq("Range"@),
        ascii_seq("DNT"@),
        ascii_seq("Sec-GPC"@),
        ascii_seq("Connection"@),
        ascii_seq("Referer"@),
        ascii_seq("Sec-Fetch-Dest"@),
        ascii_seq("Sec-Fetch-Mode"@),
        ascii_seq("Sec-Fetch-Site"@),
        ascii_seq("Accept-Encoding"@),
        ascii_seq("Priority"@),
        ascii_seq("Accept"@),
        ascii_seq("Host"@),
        ascii_seq("User-Agent"@),
        ascii_seq("Upgrade-Insecure-Requests"@),
    ]
}

/// Builds the allow-list as concrete byte strings.
fn ignored_header_keys() -> (r: Vec<Vec<u8>>)
    ensures
        r@.map_values(|k: Vec<u8>| k@) == spec_ignored_key_list(),
{
    proof {
        reveal_strlit("Accept-Language");
        reveal_strlit("Range");
        reveal_strlit("DNT");
        reveal_strlit("Sec-GPC");
        reveal_strlit("Connection");
        reveal_strlit("Referer");
        reveal_strlit("Sec-Fetch-Dest");
        reveal_strlit("Sec-Fetch-Mode");
        reveal_strlit("Sec-Fetch-Site");
        reveal_strlit("Accept-Encoding");
        reveal_strlit("Priority");
        reveal_strlit("Accept");
        reveal_strlit("Host");
        reveal_strlit("User-Agent");
        reveal_strlit("Upgrade-Insecure-Requests");
    }
    let mut keys: Vec<Vec<u8>> = Vec::new();
    keys.push(crate::bytes::ascii_vec("Accept-Language"));
    keys.push(crate::bytes::ascii_vec("Range"));
    keys.push(crate::bytes::ascii_vec("DNT"));
    keys.push(crate::bytes::ascii_vec("Sec-GPC"));
    keys.push(crate::bytes::ascii_vec("Connection"));
    keys.push(crate::bytes::ascii_vec("Referer"));
    keys.push(crate::bytes::ascii_vec("Sec-Fetch-Dest"));
    keys.push(crate::bytes::ascii_vec("Sec-Fetch-Mode"));
    keys.push(crate::bytes::ascii_vec("Sec-Fetch-Site"));
    keys.push(crate::bytes::ascii_vec("Accept-Encoding"));
    keys.push(crate::bytes::ascii_vec("Priority"));
    keys.push(crate::bytes::ascii_vec("Accept"));
    keys.push(crate::bytes::ascii_vec("Host"));
    keys.push(crate::bytes::ascii_vec("User-Agent"));
    keys.push(crate::bytes::ascii_vec("Upgrade-Insecure-Requests"));
    proof {
        assert(keys@.map_values(|k: Vec<u8>| k@) =~= spec_ignored_key_list());
    }
    keys
}

/// Parses the head lines after the primary line into typed headers.
fn parse_header_lines<'a>(lines: &Vec<&'a [u8]>) -> (r: Result<Vec<HttpHeader<'a>>, WireError>)
    requires
        lines@.len() >= 1,
    ensures
        match r {
            Ok(hs) => spec_parse_header_lines(slice_views(lines@).skip(1)) == Ok::<_, WireError>(
                crate::http::header_views(hs@),
            ),
            Err(e) => spec_parse_header_lines(slice_views(lines@).skip(1)) == Err::<
                Seq<HeaderView>,
                _,
            >(e),
        },
{
    let ghost all = slice_views(lines@).skip(1);
    let mut headers: Vec<HttpHeader<'a>> = Vec::new();
    let mut i: usize = 1;
    let mut colon_sep: Vec<u8> = Vec::new();
    proof {
        reveal_strlit(": ");
    }
    crate::bytes::append_ascii(&mut colon_sep, ": ");
    while i < lines.len()
        invariant
            1 <= i <= lines@.len(),
            colon_sep@ == ascii_seq(": "@),
            colon_sep@.len() == 2,
            spec_parse_header_lines(all) == (match spec_parse_header_lines(
                slice_views(lines@).skip(i as int),
            ) {
                Ok(rest) => Ok::<_, WireError>(crate::http::header_views(headers@) + rest),
                Err(e) => Err(e),
            }),
            all == slice_views(lines@).skip(1),
        decreases lines@.len() - i,
    {
        let ghost suffix = slice_views(lines@).skip(i as int);
        let ghost prev_views = crate::http::header_views(headers@);
        proof {
            assert(suffix.len() > 0);
            assert(suffix[0] == lines@[i as int]@);
            assert(suffix.skip(1) =~= slice_views(lines@).skip(i + 1));
        }
        let line = lines[i];
        match split_once(line, colon_sep.as_slice()) {
            None => {
                proof {
                    assert(spec_parse_header_lines(suffix) == spec_parse_header_lines(
                        suffix.skip(1),
                    ));
                }
            },
            Some((key, value)) => {
                match HttpHeader::from_str_pair(key, value) {
                    Ok(Some(h)) => {
                        headers.push(h);
                        proof {
                            let rest_result = spec_parse_header_lines(suffix.skip(1));
                            assert(spec_parse_header_lines(suffix) == (match rest_result {
                                Ok(hs) => Ok::<_, WireError>(seq![h@] + hs),
                                Err(e) => Err(e),
                            }));
                            assert(crate::http::header_views(headers@) =~= prev_views + seq![h@]);
                            if rest_result is Ok {
                                let hs = rest_result->Ok_0;
                                assert(prev_views + (seq![h@] + hs) =~= crate::http::header_views(
                                    headers@,
                                ) + hs);
                            }
                        }
                    },
                    Ok(None) => {
                        proof {
                            assert(spec_parse_header_lines(suffix) == spec_parse_header_lines(
                                suffix.skip(1),
                            ));
                        }
                    },
                    Err(e) => {
                        return Err(e);
                    },
                }
            },
        }
        i = i + 1;
    }
    proof {
        assert(slice_views(lines@).skip(lines@.len() as int) =~= Seq::<Seq<u8>>::empty());
    }
    Ok(headers)
}

/// The head and body of a raw message, split as the framing heuristic
/// dictates.
fn split_head_body<'a>(buffer: &'a [u8]) -> (r: Result<(&'a [u8], &'a [u8]), WireError>)
    ensures
        match r {
            Ok(p) => spec_split_head_body(buffer@) == Ok::<_, WireError>((p.0@, p.1@)),
            Err(e) => spec_split_head_body(buffer@) == Err::<(Seq<u8>, Seq<u8>), _>(e),
        },
{
    if buffer.len() == 0 {
        return Err(WireError::EmptyRead);
    }
    let mut separator: Vec<u8> = Vec::new();
    separator.push(CR);
    separator.push(LF);
    separator.push(CR);
    separator.push(LF);
    proof {
        assert(separator@ =~= head_body_separator());
    }
    match split_slice_uninclusive(buffer, separator.as_slice()) {
        Some(p) => Ok(p),
        None => {
            if buffer.len() >= 4 {
                let head = &buffer[0..buffer.len() - 4];
                let empty = &buffer[0..0];
                proof {
                    assert(empty@ =~= Seq::<u8>::empty());
                }
                Ok((head, empty))
            } else {
                Err(WireError::IncompleteHead)
            }
        },
    }
}

impl<'a> HttpRequest<'a> {
    /// Parses raw bytes into a request, or reports the first reason they
    /// fail to.
    pub fn parse(buffer: &'a [u8]) -> (r: Result<HttpRequest<'a>, WireError>)
        ensures
            match r {
                Ok(req) => spec_parse_request(buffer@) == Ok::<_, WireError>(req@),
                Err(e) => spec_parse_request(buffer@) == Err::<RequestView, _>(e),
            },
    {
        let (head, body) = match split_head_body(buffer) {
            Ok(p) => p,
            Err(e) => {
                return Err(e);
            },
        };
        if !all_ascii(head) {
            return Err(WireError::NonAsciiHead);
        }
        let mut line_sep: Vec<u8> = Vec::new();
        line_sep.push(CR);
        line_sep.push(LF);
        proof {
            assert(line_sep@ =~= crlf());
        }
        let lines = split_all(head, line_sep.as_slice());
        let headers = match parse_header_lines(&lines) {
            Ok(hs) => hs,
            Err(e) => {
                return Err(e);
            },
        };
        let mut space_sep: Vec<u8> = Vec::new();
        space_sep.push(SP);
        proof {
            assert(space_sep@ =~= seq![SP]);
            assert(slice_views(lines@)[0] == lines@[0]@);
        }
        let segments = split_all(lines[0], space_sep.as_slice());
        if segments.len() < 3 {
            return Err(WireError::MissingField);
        }
        proof {
            assert(slice_views(segments@)[0] == segments@[0]@);
            assert(slice_views(segments@)[1] == segments@[1]@);
            assert(slice_views(segments@)[2] == segments@[2]@);
        }
        let method = match HttpMethod::from_bytes(segments[0]) {
            Some(m) => m,
            None => {
                return Err(WireError::BadMethod);
            },
        };
        let mut question: Vec<u8> = Vec::new();
        proof {
            reveal_strlit("?");
        }
        crate::bytes::append_ascii(&mut question, "?");
        let uri = segments[1];
        let (route, query_params) = match split_once(uri, question.as_slice()) {
            Some(p) => p,
            None => {
                let empty = &uri[0..0];
                proof {
                    assert(empty@ =~= Seq::<u8>::empty());
                }
                (uri, empty)
            },
        };
        Ok(
            HttpRequest {
                protocol_version: segments[2],
                method,
                route,
                query_params,
                headers,
                body,
            },
        )
    }
}

impl<'a> HttpResponse<'a> {
    /// Parses raw bytes into a response, or reports the first reason they
    /// fail to.
    pub fn parse(buffer: &'a [u8]) -> (r: Result<HttpResponse<'a>, WireError>)
        ensures
            match r {
                Ok(resp) => spec_parse_response(buffer@) == Ok::<_, WireError>(resp@),
                Err(e) => spec_parse_response(buffer@) == Err::<ResponseView, _>(e),
            },
    {
        let (head, body) = match split_head_body(buffer) {
            Ok(p) => p,
            Err(e) => {
                return Err(e);
            },
        };
        if !all_ascii(head) {
            return Err(WireError::NonAsciiHead);
        }
        let mut line_sep: Vec<u8> = Vec::new();
        line_sep.push(CR);
        line_sep.push(LF);
        proof {
            assert(line_sep@ =~= crlf());
        }
        let lines = split_all(head, line_sep.as_slice());
        let headers = match parse_header_lines(&lines) {
            Ok(hs) => hs,
            Err(e) => {
                return Err(e);
            },
        };
        let mut space_sep: Vec<u8> = Vec::new();
        space_sep.push(SP);
        proof {
            assert(space_sep@ =~= seq![SP]);
            assert(slice_views(lines@)[0] == lines@[0]@);
        }
        let segments = split_all(lines[0], space_sep.as_slice());
        if segments.len() < 3 {
            return Err(WireError::MissingField);
        }
        proof {
            assert(slice_views(segments@)[0] == segments@[0]@);
            assert(slice_views(segments@)[1] == segments@[1]@);
            assert(slice_views(segments@)[2] == segments@[2]@);
        }
        let status_code = match parse_usize(segments[1]) {
            Some(c) => c,
            None => {
                return Err(WireError::BadStatusCode);
            },
        };
        Ok(
            HttpResponse {
                protocol_version: segments[0],
                status_code,
                status_text: segments[2],
                headers,
                body,
            },
        )
    }
}

} // verus!
