//! The HTTP wire codec: request and response values, the closed header set,
//! and serialization of messages to bytes.  Parsing lives in `parse`, and the
//! proof that parsing inverts serialization lives in `roundtrip`.

use vstd::prelude::*;
use crate::bytes::{ascii_seq, append_ascii, append_bytes, CR, LF, SP};
use crate::numbers::{append_decimal, spec_decimal};

verus! {

/// The byte pair that ends every head line.
pub open spec fn crlf() -> Seq<u8> {
    seq![CR, LF]
}

/// The four-byte separator between the head and the body of a message.
pub open spec fn head_body_separator() -> Seq<u8> {
    seq![CR, LF, CR, LF]
}

#[derive(Clone, Copy, Debug, PartialEq, Eq, Structural)]
pub enum HttpMethod {
    GET,
    POST,
    ERASE,
}

/// The wire name of a method.
pub open spec fn spec_method_bytes(m: HttpMethod) -> Seq<u8> {
    match m {
        HttpMethod::GET => ascii_seq("GET"@),
        HttpMethod::POST => ascii_seq("POST"@),
        HttpMethod::ERASE => ascii_seq("ERASE"@),
    }
}

/// The method named by `b`, if any.
pub open spec fn spec_method_from(b: Seq<u8>) -> Option<HttpMethod> {
    if b == ascii_seq("GET"@) {
        Some(HttpMethod::GET)
    } else if b == ascii_seq("POST"@) {
        Some(HttpMethod::POST)
    } else if b == ascii_seq("ERASE"@) {
        Some(HttpMethod::ERASE)
    } else {
        None
    }
}

impl HttpMethod {
    pub fn as_str(self) -> (r: &'static str)
        ensures
            r.is_ascii(),
            ascii_seq(r@) == spec_method_bytes(self),
    {
        match self {
            Self::GET => {
                proof {
                    reveal_strlit("GET");
                }
                "GET"
            },
            Self::POST => {
                proof {
                    reveal_strlit("POST");
                }
                "POST"
            },
            Self::ERASE => {
                proof {
                    reveal_strlit("ERASE");
                }
                "ERASE"
            },
        }
    }

    pub fn from_str(source: &str) -> (r: Option<Self>)
        ensures
            r == spec_method_from(crate::bytes::str_byte_view(source)),
    {
        Self::from_bytes(source.as_bytes())
    }

    /// The method named by a byte string, if any.
    pub fn from_bytes(source: &[u8]) -> (r: Option<Self>)
        ensures
            r == spec_method_from(source@),
    {
        proof {
            reveal_strlit("GET");
            reveal_strlit("POST");
            reveal_strlit("ERASE");
        }
        if crate::bytes::eq_lit(source, "GET") {
            Some(Self::GET)
        } else if crate::bytes::eq_lit(source, "POST") {
            Some(Self::POST)
        } else if crate::bytes::eq_lit(source, "ERASE") {
            Some(Self::ERASE)
        } else {
            None
        }
    }
}

#[allow(non_camel_case_types)]
#[derive(Clone, Copy, Debug, PartialEq, Eq, Structural)]
pub enum ContentType {
    text_html,
    text_plain,
    image_x_icon,
    audio_flac,
    application_json,
}

/// The wire name of a content type.
pub open spec fn spec_content_type_bytes(c: ContentType) -> Seq<u8> {
    match c {
        ContentType::text_html => ascii_seq("text/html"@),
        ContentType::text_plain => ascii_seq("text/plain"@),
        ContentType::image_x_icon => ascii_seq("image/x-icon"@),
        ContentType::audio_flac => ascii_seq("audio/flac"@),
        ContentType::application_json => ascii_seq("application/json"@),
    }
}

/// The content type named by `b`, if any.
pub open spec fn spec_content_type_from(b: Seq<u8>) -> Option<ContentType> {
    if b == ascii_seq("text/html"@) {
        Some(ContentType::text_html)
    } else if b == ascii_seq("text/plain"@) {
        Some(ContentType::text_plain)
    } else if b == ascii_seq("image/x-icon"@) {
        Some(ContentType::image_x_icon)
    } else if b == ascii_seq("audio/flac"@) {
        Some(ContentType::audio_flac)
    } else if b == ascii_seq("application/json"@) {
        Some(ContentType::application_json)
    } else {
        None
    }
}

impl ContentType {
    pub fn from_str(ctype: &str) -> (r: Option<ContentType>)
        ensures
            r == spec_content_type_from(crate::bytes::str_byte_view(ctype)),
    {
        Self::from_bytes(ctype.as_bytes())
    }

    /// The content type named by a byte string, if any.
    pub fn from_bytes(ctype: &[u8]) -> (r: Option<ContentType>)
        ensures
            r == spec_content_type_from(ctype@),
    {
        proof {
            reveal_strlit("text/html");
            reveal_strlit("text/plain");
            reveal_strlit("image/x-icon");
            reveal_strlit("audio/flac");
            reveal_strlit("application/json");
        }
        if crate::bytes::eq_lit(ctype, "text/html") {
            Some(Self::text_html)
        } else if crate::bytes::eq_lit(ctype, "text/plain") {
            Some(Self::text_plain)
        } else if crate::bytes::eq_lit(ctype, "image/x-icon") {
            Some(Self::image_x_icon)
        } else if crate::bytes::eq_lit(ctype, "audio/flac") {
            Some(Self::audio_flac)
        } else if crate::bytes::eq_lit(ctype, "application/json") {
            Some(Self::application_json)
        } else {
            None
        }
    }

    pub fn as_str(self) -> (r: &'static str)
        ensures
            r.is_ascii(),
            ascii_seq(r@) == spec_content_type_bytes(self),
    {
        match self {
            Self::text_html => {
                proof {
                    reveal_strlit("text/html");
                }
                "text/html"
            },
            Self::text_plain => {
                proof {
                    reveal_strlit("text/plain");
                }
                "text/plain"
            },
            Self::image_x_icon => {
                proof {
                    reveal_strlit("image/x-icon");
                }
                "image/x-icon"
            },
            Self::audio_flac => {
                proof {
                    reveal_strlit("audio/flac");
                }
                "audio/flac"
            },
            Self::application_json => {
                proof {
                    reveal_strlit("application/json");
                }
                "application/json"
            },
        }
    }
}

#[allow(non_camel_case_types)]
#[derive(Clone, Copy, Debug, PartialEq, Eq, Structural)]
pub enum TransferEncoding {
    _7bit,
    _8bit,
    binary,
    quoted_printable,
    base64,
}

/// The wire name of a transfer encoding.
pub open spec fn spec_transfer_encoding_bytes(t: TransferEncoding) -> Seq<u8> {
    match t {
        TransferEncoding::_7bit => ascii_seq("7bit"@),
        TransferEncoding::_8bit => ascii_seq("8bit"@),
        TransferEncoding::binary => ascii_seq("binary"@),
        TransferEncoding::quoted_printable => ascii_seq("quoted-printable"@),
        TransferEncoding::base64 => ascii_seq("base64"@),
    }
}

/// The transfer encoding named by `b`, if any.
pub open spec fn spec_transfer_encoding_from(b: Seq<u8>) -> Option<TransferEncoding> {
    if b == ascii_seq("7bit"@) {
        Some(TransferEncoding::_7bit)
    } else if b == ascii_seq("8bit"@) {
        Some(TransferEncoding::_8bit)
    } else if b == ascii_seq("binary"@) {
        Some(TransferEncoding::binary)
    } else if b == ascii_seq("quoted-printable"@) {
        Some(TransferEncoding::quoted_printable)
    } else if b == ascii_seq("base64"@) {
        Some(TransferEncoding::base64)
    } else {
        None
    }
}

impl TransferEncoding {
    pub fn from_str(source: &str) -> (r: Option<Self>)
        ensures
            r == spec_transfer_encoding_from(crate::bytes::str_byte_view(source)),
    {
        Self::from_bytes(source.as_bytes())
    }

    /// The transfer encoding named by a byte string, if any.
    pub fn from_bytes(source: &[u8]) -> (r: Option<Self>)
        ensures
            r == spec_transfer_encoding_from(source@),
    {
        proof {
            reveal_strlit("7bit");
            reveal_strlit("8bit");
            reveal_strlit("binary");
            reveal_strlit("quoted-printable");
            reveal_strlit("base64");
        }
        if crate::bytes::eq_lit(source, "7bit") {
            Some(Self::_7bit)
        } else if crate::bytes::eq_lit(source, "8bit") {
            Some(Self::_8bit)
        } else if crate::bytes::eq_lit(source, "binary") {
            Some(Self::binary)
        } else if crate::bytes::eq_lit(source, "quoted-printable") {
            Some(Self::quoted_printable)
        } else if crate::bytes::eq_lit(source, "base64") {
            Some(Self::base64)
        } else {
            None
        }
    }

    pub fn as_str(self) -> (r: &'static str)
        ensures
            r.is_ascii(),
            ascii_seq(r@) == spec_transfer_encoding_bytes(self),
    {
        match self {
            Self::_7bit => {
                proof {
                    reveal_strlit("7bit");
                }
                "7bit"
            },
            Self::_8bit => {
                proof {
                    reveal_strlit("8bit");
                }
                "8bit"
            },
            Self::binary => {
                proof {
                    reveal_strlit("binary");
                }
                "binary"
            },
            Self::quoted_printable => {
                proof {
                    reveal_strlit("quoted-printable");
                }
                "quoted-printable"
            },
            Self::base64 => {
                proof {
                    reveal_strlit("base64");
                }
                "base64"
            },
        }
    }
}

#[derive(Clone, Copy)]
pub enum ContentDisposition<'a> {
    Inline,
    Attachment(Option<&'a [u8]>),
}

/// The mathematical value of a content disposition: the attachment file name
/// as a plain byte sequence.
pub enum DispositionView {
    Inline,
    Attachment(Option<Seq<u8>>),
}

impl<'a> View for ContentDisposition<'a> {
    type V = DispositionView;

    open spec fn view(&self) -> DispositionView {
        match *self {
            ContentDisposition::Inline => DispositionView::Inline,
            ContentDisposition::Attachment(None) => DispositionView::Attachment(None),
            ContentDisposition::Attachment(Some(f)) => DispositionView::Attachment(Some(f@)),
        }
    }
}

/// The wire value of a content disposition.
pub open spec fn spec_disposition_bytes(d: DispositionView) -> Seq<u8> {
    match d {
        DispositionView::Inline => ascii_seq("inline"@),
        DispositionView::Attachment(None) => ascii_seq("attachment"@),
        DispositionView::Attachment(Some(f)) => ascii_seq("attachment; filename="@) + f + ascii_seq(
            "; filename*="@,
        ) + f,
    }
}

#[derive(Clone, Copy)]
pub enum HttpHeader<'a> {
    ContentType(ContentType),
    TransferEncoding(TransferEncoding),
    ContentDisposition(ContentDisposition<'a>),
    ContentLength(usize),
}

/// The mathematical value of a header.
pub enum HeaderView {
    ContentType(ContentType),
    TransferEncoding(TransferEncoding),
    ContentDisposition(DispositionView),
    ContentLength(usize),
}

impl<'a> View for HttpHeader<'a> {
    type V = HeaderView;

    open spec fn view(&self) -> HeaderView {
        match *self {
            HttpHeader::ContentType(c) => HeaderView::ContentType(c),
            HttpHeader::TransferEncoding(t) => HeaderView::TransferEncoding(t),
            HttpHeader::ContentDisposition(d) => HeaderView::ContentDisposition(d@),
            HttpHeader::ContentLength(n) => HeaderView::ContentLength(n),
        }
    }
}

/// The views of a list of headers.
pub open spec fn header_views(hs: Seq<HttpHeader>) -> Seq<HeaderView> {
    hs.map_values(|h: HttpHeader| h@)
}

/// The wire key of a header.
pub open spec fn spec_header_key(h: HeaderView) -> Seq<u8> {
    match h {
        HeaderView::ContentType(_) => ascii_seq("Content-Type"@),
        HeaderView::TransferEncoding(_) => ascii_seq("Transfer-Encoding"@),
        HeaderView::ContentDisposition(_) => ascii_seq("Content-Disposition"@),
        HeaderView::ContentLength(_) => ascii_seq("Content-Length"@),
    }
}

/// The wire value of a header.
pub open spec fn spec_header_value(h: HeaderView) -> Seq<u8> {
    match h {
        HeaderView::ContentType(c) => spec_content_type_bytes(c),
        HeaderView::TransferEncoding(t) => spec_transfer_encoding_bytes(t),
        HeaderView::ContentDisposition(d) => spec_disposition_bytes(d),
        HeaderView::ContentLength(n) => spec_decimal(n as nat),
    }
}

/// A full `Key: Value` head line.
pub open spec fn spec_header_line(h: HeaderView) -> Seq<u8> {
    spec_header_key(h) + ascii_seq(": "@) + spec_header_value(h)
}

/// All header lines of a message, each followed by CRLF.
pub open spec fn spec_header_block(hs: Seq<HeaderView>) -> Seq<u8>
    decreases hs.len(),
{
    if hs.len() == 0 {
        Seq::empty()
    } else {
        spec_header_block(hs.drop_last()) + spec_header_line(hs.last()) + crlf()
    }
}

impl<'a> HttpHeader<'a> {
    /// Appends this header's `Key: Value` line (without the final CRLF).
    fn append_line(&self, sink: &mut Vec<u8>)
        ensures
            final(sink)@ == old(sink)@ + spec_header_line(self@),
    {
        match self {
            HttpHeader::ContentType(c) => {
                proof {
                    reveal_strlit("Content-Type: ");
                    reveal_strlit("Content-Type");
                    reveal_strlit(": ");
                    assert(ascii_seq("Content-Type: "@) =~= ascii_seq("Content-Type"@) + ascii_seq(
                        ": "@,
                    ));
                }
                append_ascii(sink, "Content-Type: ");
                append_ascii(sink, c.as_str());
            },
            HttpHeader::TransferEncoding(t) => {
                proof {
                    reveal_strlit("Transfer-Encoding: ");
                    reveal_strlit("Transfer-Encoding");
                    reveal_strlit(": ");
                    assert(ascii_seq("Transfer-Encoding: "@) =~= ascii_seq("Transfer-Encoding"@)
                        + ascii_seq(": "@));
                }
                append_ascii(sink, "Transfer-Encoding: ");
                append_ascii(sink, t.as_str());
            },
            HttpHeader::ContentDisposition(d) => {
                proof {
                    reveal_strlit("Content-Disposition: ");
                    reveal_strlit("Content-Disposition");
                    reveal_strlit(": ");
                    assert(ascii_seq("Content-Disposition: "@) =~= ascii_seq("Content-Disposition"@)
                        + ascii_seq(": "@));
                    reveal_strlit("inline");
                    reveal_strlit("attachment");
                    reveal_strlit("attachment; filename=");
                    reveal_strlit("; filename*=");
                }
                append_ascii(sink, "Content-Disposition: ");
                match d {
                    ContentDisposition::Inline => {
                        append_ascii(sink, "inline");
                    },
                    ContentDisposition::Attachment(None) => {
                        append_ascii(sink, "attachment");
                    },
                    ContentDisposition::Attachment(Some(fname)) => {
                        append_ascii(sink, "attachment; filename=");
                        append_bytes(sink, fname);
                        append_ascii(sink, "; filename*=");
                        append_bytes(sink, fname);
                    },
                }
            },
            HttpHeader::ContentLength(len) => {
                proof {
                    reveal_strlit("Content-Length: ");
                    reveal_strlit("Content-Length");
                    reveal_strlit(": ");
                    assert(ascii_seq("Content-Length: "@) =~= ascii_seq("Content-Length"@)
                        + ascii_seq(": "@));
                }
                append_ascii(sink, "Content-Length: ");
                append_decimal(sink, *len);
            },
        }
    }
}

/// Appends every header line of `headers`, each followed by CRLF.
fn append_header_block(headers: &Vec<HttpHeader>, sink: &mut Vec<u8>)
    ensures
        final(sink)@ == old(sink)@ + spec_header_block(header_views(headers@)),
{
    let mut i: usize = 0;
    while i < headers.len()
        invariant
            i <= headers@.len(),
            sink@ == old(sink)@ + spec_header_block(header_views(headers@).subrange(0, i as int)),
        decreases headers@.len() - i,
    {
        headers[i].append_line(sink);
        append_crlf(sink);
        i = i + 1;
        proof {
            let views = header_views(headers@);
            assert(views.subrange(0, i as int).drop_last() =~= views.subrange(0, i - 1));
            assert(views.subrange(0, i as int).last() == headers@[i - 1]@);
            assert(sink@ =~= old(sink)@ + spec_header_block(views.subrange(0, i as int)));
        }
    }
    proof {
        assert(header_views(headers@).subrange(0, headers@.len() as int) =~= header_views(
            headers@,
        ));
    }
}

/// Appends a CR LF pair.
pub fn append_crlf(sink: &mut Vec<u8>)
    ensures
        final(sink)@ == old(sink)@ + crlf(),
{
    sink.push(CR);
    sink.push(LF);
    proof {
        assert(sink@ =~= old(sink)@ + crlf());
    }
}

/// A byte source that renders itself into a sink; byte slices, rendered
/// buffers and templates all provide it.
pub trait ReadInto {
    /// The bytes this source renders.
    spec fn rendered(&self) -> Seq<u8>;

    /// This source is in a state fit for rendering.
    spec fn render_wf(&self) -> bool;

    /// Renders this source into `destination`, appending exactly
    /// `self.rendered()`.
    fn read_into(&mut self, destination: &mut Vec<u8>)
        requires
            old(self).render_wf(),
        ensures
            final(destination)@ == old(destination)@ + old(self).rendered(),
            final(self).rendered() == old(self).rendered(),
            final(self).render_wf(),
    ;
}

impl ReadInto for &[u8] {
    open spec fn rendered(&self) -> Seq<u8> {
        self@
    }

    open spec fn render_wf(&self) -> bool {
        true
    }

    fn read_into(&mut self, destination: &mut Vec<u8>) {
        append_bytes(destination, self)
    }
}

impl ReadInto for Vec<u8> {
    open spec fn rendered(&self) -> Seq<u8> {
        self@
    }

    open spec fn render_wf(&self) -> bool {
        true
    }

    fn read_into(&mut self, destination: &mut Vec<u8>) {
        append_bytes(destination, self.as_slice())
    }
}

/// The bytes `make_http_request` buffers: the CRLF-terminated primary line,
/// one `Key: Value` line with CRLF per header, and the blank line.
pub open spec fn spec_make_request_bytes(
    method: HttpMethod,
    route: Seq<u8>,
    hs: Seq<HeaderView>,
) -> Seq<u8> {
    spec_method_bytes(method) + seq![SP] + route + ascii_seq(" HTTP/1.1"@) + crlf()
        + spec_header_block(hs) + crlf()
}

/// Buffers an outgoing request for `route`: the primary line, the headers
/// and the blank line, each CRLF-terminated.
pub fn make_http_request(
    buffer: &mut crate::sink::StreamBuffer,
    method: HttpMethod,
    route: &str,
    headers: &[HttpHeader],
)
    requires
        old(buffer).wf(),
    ensures
        final(buffer).wf(),
        final(buffer)@ == crate::sink::sb_write(
            old(buffer)@,
            spec_make_request_bytes(
                method,
                crate::bytes::str_byte_view(route),
                header_views(headers@),
            ),
        ),
{
    proof {
        reveal_strlit(" ");
        reveal_strlit(" HTTP/1.1");
        assert(ascii_seq(" "@) =~= seq![SP]);
    }
    let mut out: Vec<u8> = Vec::new();
    append_ascii(&mut out, method.as_str());
    append_ascii(&mut out, " ");
    append_bytes(&mut out, route.as_bytes());
    append_ascii(&mut out, " HTTP/1.1");
    append_crlf(&mut out);
    let mut header_list: Vec<HttpHeader> = Vec::new();
    let mut i: usize = 0;
    while i < headers.len()
        invariant
            i <= headers@.len(),
            header_list@ =~= headers@.subrange(0, i as int),
        decreases headers@.len() - i,
    {
        header_list.push(headers[i]);
        i = i + 1;
        proof {
            assert(header_list@ =~= headers@.subrange(0, i as int));
        }
    }
    proof {
        assert(header_list@ =~= headers@);
    }
    append_header_block(&header_list, &mut out);
    append_crlf(&mut out);
    proof {
        assert(out@ =~= spec_make_request_bytes(
            method,
            crate::bytes::str_byte_view(route),
            header_views(headers@),
        ));
    }
    buffer.write(out.as_slice());
}

pub struct HttpRequest<'a> {
    pub protocol_version: &'a [u8],
    pub method: HttpMethod,
    pub route: &'a [u8],
    pub query_params: &'a [u8],
    pub headers: Vec<HttpHeader<'a>>,
    pub body: &'a [u8],
}

/// The mathematical value of a request.
pub struct RequestView {
    pub protocol_version: Seq<u8>,
    pub method: HttpMethod,
    pub route: Seq<u8>,
    pub query_params: Seq<u8>,
    pub headers: Seq<HeaderView>,
    pub body: Seq<u8>,
}

impl<'a> View for HttpRequest<'a> {
    type V = RequestView;

    open spec fn view(&self) -> RequestView {
        RequestView {
            protocol_version: self.protocol_version@,
            method: self.method,
            route: self.route@,
            query_params: self.query_params@,
            headers: header_views(self.headers@),
            body: self.body@,
        }
    }
}

/// The primary head line of a request: method, route with optional query
/// string, and protocol version.
pub open spec fn spec_request_primary(v: RequestView) -> Seq<u8> {
    spec_method_bytes(v.method) + seq![SP] + v.route + (if v.query_params.len() > 0 {
        ascii_seq("?"@) + v.query_params
    } else {
        Seq::empty()
    }) + seq![SP] + v.protocol_version
}

/// The full serialization of a request.
pub open spec fn spec_serialize_request(v: RequestView) -> Seq<u8> {
    spec_request_primary(v) + crlf() + spec_header_block(v.headers) + crlf() + v.body
}

impl<'a> HttpRequest<'a> {
    /// Appends the primary line and every header line, each CRLF-terminated.
    fn write_headers_to(&self, sink: &mut Vec<u8>)
        ensures
            final(sink)@ == old(sink)@ + spec_request_primary(self@) + crlf() + spec_header_block(
                self@.headers,
            ),
    {
        append_ascii(sink, self.method.as_str());
        proof {
            reveal_strlit(" ");
            reveal_strlit("?");
            assert(ascii_seq(" "@) =~= seq![SP]);
        }
        append_ascii(sink, " ");
        append_bytes(sink, self.route);
        if self.query_params.len() > 0 {
            append_ascii(sink, "?");
            append_bytes(sink, self.query_params);
        }
        append_ascii(sink, " ");
        append_bytes(sink, self.protocol_version);
        append_crlf(sink);
        append_header_block(&self.headers, sink);
        proof {
            assert(sink@ =~= old(sink)@ + spec_request_primary(self@) + crlf() + spec_header_block(
                self@.headers,
            ));
        }
    }

    /// Serializes this request, with its materialized body, into `sink`.
    pub fn write_to_sink(&self, sink: &mut Vec<u8>)
        ensures
            final(sink)@ == old(sink)@ + spec_serialize_request(self@),
    {
        self.write_headers_to(sink);
        append_crlf(sink);
        append_bytes(sink, self.body);
        proof {
            assert(sink@ =~= old(sink)@ + spec_serialize_request(self@));
        }
    }

    /// Serializes this request's head, then lets `source` render the body in
    /// place of the materialized one.
    pub fn write_from_readinto<R: ReadInto>(&self, source: &mut R, sink: &mut Vec<u8>)
        requires
            old(source).render_wf(),
        ensures
            final(sink)@ == old(sink)@ + spec_request_primary(self@) + crlf() + spec_header_block(
                self@.headers,
            ) + crlf() + old(source).rendered(),
    {
        self.write_headers_to(sink);
        append_crlf(sink);
        source.read_into(sink);
        proof {
            assert(sink@ =~= old(sink)@ + spec_request_primary(self@) + crlf() + spec_header_block(
                self@.headers,
            ) + crlf() + old(source).rendered());
        }
    }
}

pub struct HttpResponse<'a> {
    pub protocol_version: &'a [u8],
    pub status_code: usize,
    pub status_text: &'a [u8],
    pub headers: Vec<HttpHeader<'a>>,
    pub body: &'a [u8],
}

/// The mathematical value of a response.
pub struct ResponseView {
    pub protocol_version: Seq<u8>,
    pub status_code: usize,
    pub status_text: Seq<u8>,
    pub headers: Seq<HeaderView>,
    pub body: Seq<u8>,
}

impl<'a> View for HttpResponse<'a> {
    type V = ResponseView;

    open spec fn view(&self) -> ResponseView {
        ResponseView {
            protocol_version: self.protocol_version@,
            status_code: self.status_code,
            status_text: self.status_text@,
            headers: header_views(self.headers@),
            body: self.body@,
        }
    }
}

/// The primary head line of a response: version, decimal status code, status
/// text.
pub open spec fn spec_response_primary(v: ResponseView) -> Seq<u8> {
    v.protocol_version + seq![SP] + spec_decimal(v.status_code as nat) + seq![SP] + v.status_text
}

/// The full serialization of a response.
pub open spec fn spec_serialize_response(v: ResponseView) -> Seq<u8> {
    spec_response_primary(v) + crlf() + spec_header_block(v.headers) + crlf() + v.body
}

impl<'a> HttpResponse<'a> {
    /// Appends the primary line and every header line, each CRLF-terminated.
    fn write_headers_to(&self, sink: &mut Vec<u8>)
        ensures
            final(sink)@ == old(sink)@ + spec_response_primary(self@) + crlf() + spec_header_block(
                self@.headers,
            ),
    {
        append_bytes(sink, self.protocol_version);
        proof {
            reveal_strlit(" ");
            assert(ascii_seq(" "@) =~= seq![SP]);
        }
        append_ascii(sink, " ");
        append_decimal(sink, self.status_code);
        append_ascii(sink, " ");
        append_bytes(sink, self.status_text);
        append_crlf(sink);
        append_header_block(&self.headers, sink);
        proof {
            assert(sink@ =~= old(sink)@ + spec_response_primary(self@) + crlf() + spec_header_block(
                self@.headers,
            ));
        }
    }

    /// Serializes this response, with its materialized body, into `sink`.
    pub fn write_to_sink(&self, sink: &mut Vec<u8>)
        ensures
            final(sink)@ == old(sink)@ + spec_serialize_response(self@),
    {
        self.write_headers_to(sink);
        append_crlf(sink);
        append_bytes(sink, self.body);
        proof {
            assert(sink@ =~= old(sink)@ + spec_serialize_response(self@));
        }
    }

    /// Serializes this response's head, then lets `source` render the body in
    /// place of the materialized one.
    pub fn write_from_readinto<R: ReadInto>(&self, source: &mut R, sink: &mut Vec<u8>)
        requires
            old(source).render_wf(),
        ensures
            final(sink)@ == old(sink)@ + spec_response_primary(self@) + crlf() + spec_header_block(
                self@.headers,
            ) + crlf() + old(source).rendered(),
    {
        self.write_headers_to(sink);
        append_crlf(sink);
        source.read_into(sink);
        proof {
            assert(sink@ =~= old(sink)@ + spec_response_primary(self@) + crlf() + spec_header_block(
                self@.headers,
            ) + crlf() + old(source).rendered());
        }
    }
}

} // verus!
