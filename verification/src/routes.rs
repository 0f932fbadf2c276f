//! Route handlers and the connection dispatcher's decision logic.  Each
//! handler appends one complete serialized response to a byte sink; the
//! dispatcher classifies a parsed request and either finishes the response
//! itself or asks its caller to perform the outside work (a proxied
//! download, a peer fan-out) that no handler can do from here.
//!
//! Parse failures abort a connection with no response; application-level
//! failures (a bad query parameter, an unknown name) become a status-200
//! inline HTML fragment and the connection completes normally.

use vstd::prelude::*;
use crate::bytes::{append_bytes, ascii_seq, ascii_vec, vec_byte_views, LF};
use crate::http::{
    spec_serialize_response, ContentDisposition, ContentType, HeaderView, HttpHeader,
    HttpResponse, ResponseView, TransferEncoding,
};
use crate::registry::{mapping_bytes, mapping_slice, Globals};
use crate::peers::{spec_peer_bytes, PeerAddr};

verus! {

/// The serialization of a status-200 response with the given headers and
/// body; every route that does not fail answers with one of these.
pub open spec fn spec_ok_response(headers: Seq<HeaderView>, body: Seq<u8>) -> Seq<u8> {
    spec_serialize_response(
        ResponseView {
            protocol_version: ascii_seq("HTTP/1.1"@),
            status_code: 200,
            status_text: ascii_seq("OK"@),
            headers,
            body,
        },
    )
}

/// The serialization of the fixed 404 response.
pub open spec fn spec_not_found_bytes() -> Seq<u8> {
    spec_serialize_response(
        ResponseView {
            protocol_version: ascii_seq("HTTP/1.1"@),
            status_code: 404,
            status_text: ascii_seq("Not Found"@),
            headers: seq![HeaderView::ContentType(ContentType::text_html)],
            body: ascii_seq("<body><h2>Route Undefined or Unavailable - 404</h2></body>"@),
        },
    )
}

/// The serialization of a routing-error fragment: status 200 with the error
/// text wrapped in a small HTML body.
pub open spec fn spec_routing_error_bytes(error: Seq<u8>) -> Seq<u8> {
    spec_ok_response(
        Seq::empty(),
        ascii_seq("<h2>Routing Error</h2><p>"@) + error + ascii_seq("</p>"@),
    )
}

/// The protocol version every response carries.
fn http_version_bytes() -> (r: Vec<u8>)
    ensures
        r@ == ascii_seq("HTTP/1.1"@),
{
    proof {
        reveal_strlit("HTTP/1.1");
    }
    ascii_vec("HTTP/1.1")
}

/// Writes a routing-error fragment for `error_string`: a 200 response whose
/// body names the error, so the connection completes normally.
pub fn return_routing_error(sink: &mut Vec<u8>, error_string: &[u8])
    ensures
        final(sink)@ == old(sink)@ + spec_routing_error_bytes(error_string@),
{
    proof {
        reveal_strlit("OK");
        reveal_strlit("<h2>Routing Error</h2><p>");
        reveal_strlit("</p>");
    }
    let version = http_version_bytes();
    let status = ascii_vec("OK");
    let mut body: Vec<u8> = Vec::new();
    crate::bytes::append_ascii(&mut body, "<h2>Routing Error</h2><p>");
    append_bytes(&mut body, error_string);
    crate::bytes::append_ascii(&mut body, "</p>");
    let response = HttpResponse {
        protocol_version: version.as_slice(),
        status_code: 200,
        status_text: status.as_slice(),
        headers: Vec::new(),
        body: body.as_slice(),
    };
    proof {
        assert(crate::http::header_views(response.headers@) =~= Seq::<HeaderView>::empty());
    }
    response.write_to_sink(sink);
}

/// Writes the fixed 404 response.
pub fn return_not_found(sink: &mut Vec<u8>)
    ensures
        final(sink)@ == old(sink)@ + spec_not_found_bytes(),
{
    proof {
        reveal_strlit("Not Found");
        reveal_strlit("<body><h2>Route Undefined or Unavailable - 404</h2></body>");
    }
    let version = http_version_bytes();
    let status = ascii_vec("Not Found");
    let body = ascii_vec("<body><h2>Route Undefined or Unavailable - 404</h2></body>");
    let mut headers: Vec<HttpHeader> = Vec::new();
    headers.push(HttpHeader::ContentType(ContentType::text_html));
    let response = HttpResponse {
        protocol_version: version.as_slice(),
        status_code: 404,
        status_text: status.as_slice(),
        headers,
        body: body.as_slice(),
    };
    proof {
        assert(crate::http::header_views(response.headers@) =~= seq![
            HeaderView::ContentType(ContentType::text_html),
        ]);
    }
    response.write_to_sink(sink);
}

/// The serialization of the favicon response for icon bytes `icon`.
pub open spec fn spec_favicon_response(icon: Seq<u8>) -> Seq<u8> {
    spec_ok_response(
        seq![
            HeaderView::ContentType(ContentType::image_x_icon),
            HeaderView::TransferEncoding(TransferEncoding::binary),
            HeaderView::ContentLength(icon.len() as usize),
        ],
        icon,
    )
}

/// Serves the binary favicon with its length, as an 200 response.
pub fn serve_get_favicon(globals: &Globals, sink: &mut Vec<u8>)
    requires
        globals.wf(),
    ensures
        final(sink)@ == old(sink)@ + spec_favicon_response(globals.favicon_bytes()),
{
    proof {
        reveal_strlit("OK");
    }
    let version = http_version_bytes();
    let status = ascii_vec("OK");
    let icon = mapping_slice(globals.favicon());
    let mut headers: Vec<HttpHeader> = Vec::new();
    headers.push(HttpHeader::ContentType(ContentType::image_x_icon));
    headers.push(HttpHeader::TransferEncoding(TransferEncoding::binary));
    headers.push(HttpHeader::ContentLength(icon.len()));
    let response = HttpResponse {
        protocol_version: version.as_slice(),
        status_code: 200,
        status_text: status.as_slice(),
        headers,
        body: icon,
    };
    proof {
        assert(crate::http::header_views(response.headers@) =~= seq![
            HeaderView::ContentType(ContentType::image_x_icon),
            HeaderView::TransferEncoding(TransferEncoding::binary),
            HeaderView::ContentLength(icon@.len() as usize),
        ]);
    }
    response.write_to_sink(sink);
}

/// The newline-terminated listing of `names`, one per line.
pub open spec fn spec_name_listing(names: Seq<Seq<u8>>) -> Seq<u8>
    decreases names.len(),
{
    if names.len() == 0 {
        Seq::empty()
    } else {
        spec_name_listing(names.drop_last()) + names.last() + seq![LF]
    }
}

/// Builds the newline-terminated listing of `names`.
fn build_name_listing(names: &Vec<Vec<u8>>) -> (r: Vec<u8>)
    ensures
        r@ == spec_name_listing(vec_byte_views(names@)),
{
    let ghost views = vec_byte_views(names@);
    let mut out: Vec<u8> = Vec::new();
    let mut i: usize = 0;
    while i < names.len()
        invariant
            i <= names@.len(),
            views == vec_byte_views(names@),
            out@ == spec_name_listing(views.subrange(0, i as int)),
        decreases names@.len() - i,
    {
        append_bytes(&mut out, names[i].as_slice());
        out.push(LF);
        i = i + 1;
        proof {
            let prefix = views.subrange(0, i as int);
            assert(prefix.drop_last() =~= views.subrange(0, i - 1));
            assert(prefix.last() == names@[i - 1]@);
            assert(out@ =~= spec_name_listing(prefix));
        }
    }
    proof {
        assert(views.subrange(0, names@.len() as int) =~= views);
    }
    out
}

/// The serialization of the plain-text file listing for `names`.
pub open spec fn spec_files_response(names: Seq<Seq<u8>>) -> Seq<u8> {
    spec_ok_response(
        seq![HeaderView::ContentType(ContentType::text_plain)],
        spec_name_listing(names),
    )
}

/// Serves the newline-delimited names of every registered file, read from
/// one complete snapshot of the registry.
pub fn serve_get_files(globals: &Globals, sink: &mut Vec<u8>)
    requires
        globals.wf(),
    ensures
        exists|db: crate::registry::FileDatabase|
            db.wf() && final(sink)@ == old(sink)@ + spec_files_response(#[trigger] db.names()),
{
    proof {
        reveal_strlit("OK");
    }
    let names = globals.get_file_entry_names();
    let body = build_name_listing(&names);
    let version = http_version_bytes();
    let status = ascii_vec("OK");
    let mut headers: Vec<HttpHeader> = Vec::new();
    headers.push(HttpHeader::ContentType(ContentType::text_plain));
    let response = HttpResponse {
        protocol_version: version.as_slice(),
        status_code: 200,
        status_text: status.as_slice(),
        headers,
        body: body.as_slice(),
    };
    proof {
        assert(crate::http::header_views(response.headers@) =~= seq![
            HeaderView::ContentType(ContentType::text_plain),
        ]);
    }
    response.write_to_sink(sink);
}

/// The newline-terminated listing of peer addresses, one per line.
pub open spec fn spec_peer_listing(ps: Seq<PeerAddr>) -> Seq<u8>
    decreases ps.len(),
{
    if ps.len() == 0 {
        Seq::empty()
    } else {
        spec_peer_listing(ps.drop_last()) + spec_peer_bytes(ps.last()) + seq![LF]
    }
}

/// The serialization of the plain-text peer listing response.
pub open spec fn spec_peers_response(ps: Seq<PeerAddr>) -> Seq<u8> {
    spec_ok_response(
        seq![HeaderView::ContentType(ContentType::text_plain)],
        spec_peer_listing(ps),
    )
}

/// Serves the newline-delimited known peer addresses, read from one
/// complete snapshot of the registry.
pub fn serve_get_peers(globals: &Globals, sink: &mut Vec<u8>)
    requires
        globals.wf(),
    ensures
        exists|ps: Seq<PeerAddr>| final(sink)@ == old(sink)@ + #[trigger] spec_peers_response(ps),
{
    proof {
        reveal_strlit("OK");
    }
    let handle = globals.read_peers();
    let peers = handle.borrow();
    let mut body: Vec<u8> = Vec::new();
    let mut i: usize = 0;
    while i < peers.len()
        invariant
            i <= peers@.len(),
            body@ == spec_peer_listing(peers@.subrange(0, i as int)),
        decreases peers@.len() - i,
    {
        let p = peers[i];
        p.append_to(&mut body);
        body.push(LF);
        i = i + 1;
        proof {
            let prefix = peers@.subrange(0, i as int);
            assert(prefix.drop_last() =~= peers@.subrange(0, i - 1));
            assert(prefix.last() == peers@[i - 1]);
            assert(body@ =~= spec_peer_listing(prefix));
        }
    }
    proof {
        assert(peers@.subrange(0, peers@.len() as int) =~= peers@);
    }
    let ghost snapshot = peers@;
    handle.release_read();
    let version = http_version_bytes();
    let status = ascii_vec("OK");
    let mut headers: Vec<HttpHeader> = Vec::new();
    headers.push(HttpHeader::ContentType(ContentType::text_plain));
    let response = HttpResponse {
        protocol_version: version.as_slice(),
        status_code: 200,
        status_text: status.as_slice(),
        headers,
        body: body.as_slice(),
    };
    proof {
        assert(crate::http::header_views(response.headers@) =~= seq![
            HeaderView::ContentType(ContentType::text_plain),
        ]);
    }
    response.write_to_sink(sink);
    proof {
        assert(sink@ == old(sink)@ + spec_peers_response(snapshot));
    }
}

/// Why a handler had to abort its connection: a static asset the page
/// needs is not registered.  The connection is closed with no response.
#[derive(Clone, Copy, Debug, PartialEq, Eq, Structural)]
pub enum RouteFail {
    MissingAsset,
}

/// A copy of a header list (headers are plain copies).
fn copy_headers<'a>(headers: &Vec<HttpHeader<'a>>) -> (r: Vec<HttpHeader<'a>>)
    ensures
        crate::http::header_views(r@) == crate::http::header_views(headers@),
{
    let mut out: Vec<HttpHeader<'a>> = Vec::new();
    let mut i: usize = 0;
    while i < headers.len()
        invariant
            i <= headers@.len(),
            out@ =~= headers@.subrange(0, i as int),
        decreases headers@.len() - i,
    {
        out.push(headers[i]);
        i = i + 1;
        proof {
            assert(out@ =~= headers@.subrange(0, i as int));
        }
    }
    proof {
        assert(out@ =~= headers@);
    }
    out
}

/// The placeholder keys of the index page template.
pub open spec fn spec_index_keys() -> Seq<Seq<u8>> {
    seq![
        ascii_seq("peer_addr"@),
        ascii_seq("local_addr"@),
        ascii_seq("hosted_files"@),
        ascii_seq("hosted_playlists"@),
    ]
}

/// One `<a>` link per hosted file.
pub open spec fn spec_file_links(names: Seq<Seq<u8>>) -> Seq<u8>
    decreases names.len(),
{
    if names.len() == 0 {
        Seq::empty()
    } else {
        spec_file_links(names.drop_last()) + ascii_seq("<a href=\"/file/"@) + names.last()
            + ascii_seq("\">"@) + names.last() + ascii_seq("</a><br />"@)
    }
}

/// One `<a>` link per hosted playlist.
pub open spec fn spec_playlist_links(names: Seq<Seq<u8>>) -> Seq<u8>
    decreases names.len(),
{
    if names.len() == 0 {
        Seq::empty()
    } else {
        spec_playlist_links(names.drop_last()) + ascii_seq("<a href=\"/playlist?playlist="@)
            + names.last() + ascii_seq("\">"@) + names.last() + ascii_seq("</a><br />"@)
    }
}

/// The index page response: the template rendered against the four
/// placeholder keys.  The first two values are handed over in swapped
/// order, so the `peer_addr` placeholder shows the local address and the
/// `local_addr` placeholder the peer address; the served page has always
/// read this way and callers rely on nothing better.
pub open spec fn spec_index_response(
    template: Seq<u8>,
    local_addr: Seq<u8>,
    peer_addr: Seq<u8>,
    files: Seq<Seq<u8>>,
    playlists: Seq<Seq<u8>>,
) -> Seq<u8> {
    spec_ok_response(
        seq![HeaderView::ContentType(ContentType::text_html)],
        crate::template::spec_render(
            template,
            spec_index_keys(),
            seq![local_addr, peer_addr, spec_file_links(files), spec_playlist_links(playlists)],
        ),
    )
}

/// Builds the file links of the index page.
fn build_file_links(names: &Vec<Vec<u8>>) -> (r: Vec<u8>)
    ensures
        r@ == spec_file_links(vec_byte_views(names@)),
{
    proof {
        reveal_strlit("<a href=\"/file/");
        reveal_strlit("\">");
        reveal_strlit("</a><br />");
    }
    let ghost views = vec_byte_views(names@);
    let mut out: Vec<u8> = Vec::new();
    let mut i: usize = 0;
    while i < names.len()
        invariant
            i <= names@.len(),
            views == vec_byte_views(names@),
            out@ == spec_file_links(views.subrange(0, i as int)),
        decreases names@.len() - i,
    {
        proof {
            reveal_strlit("<a href=\"/file/");
            reveal_strlit("\">");
            reveal_strlit("</a><br />");
        }
        crate::bytes::append_ascii(&mut out, "<a href=\"/file/");
        append_bytes(&mut out, names[i].as_slice());
        crate::bytes::append_ascii(&mut out, "\">");
        append_bytes(&mut out, names[i].as_slice());
        crate::bytes::append_ascii(&mut out, "</a><br />");
        i = i + 1;
        proof {
            let prefix = views.subrange(0, i as int);
            assert(prefix.drop_last() =~= views.subrange(0, i - 1));
            assert(prefix.last() == names@[i - 1]@);
            assert(out@ =~= spec_file_links(prefix));
        }
    }
    proof {
        assert(views.subrange(0, names@.len() as int) =~= views);
    }
    out
}

/// Builds the playlist links of the index page.
fn build_playlist_links(names: &Vec<Vec<u8>>) -> (r: Vec<u8>)
    ensures
        r@ == spec_playlist_links(vec_byte_views(names@)),
{
    proof {
        reveal_strlit("<a href=\"/playlist?playlist=");
        reveal_strlit("\">");
        reveal_strlit("</a><br />");
    }
    let ghost views = vec_byte_views(names@);
    let mut out: Vec<u8> = Vec::new();
    let mut i: usize = 0;
    while i < names.len()
        invariant
            i <= names@.len(),
            views == vec_byte_views(names@),
            out@ == spec_playlist_links(views.subrange(0, i as int)),
        decreases names@.len() - i,
    {
        proof {
            reveal_strlit("<a href=\"/playlist?playlist=");
            reveal_strlit("\">");
            reveal_strlit("</a><br />");
        }
        crate::bytes::append_ascii(&mut out, "<a href=\"/playlist?playlist=");
        append_bytes(&mut out, names[i].as_slice());
        crate::bytes::append_ascii(&mut out, "\">");
        append_bytes(&mut out, names[i].as_slice());
        crate::bytes::append_ascii(&mut out, "</a><br />");
        i = i + 1;
        proof {
            let prefix = views.subrange(0, i as int);
            assert(prefix.drop_last() =~= views.subrange(0, i - 1));
            assert(prefix.last() == names@[i - 1]@);
            assert(out@ =~= spec_playlist_links(prefix));
        }
    }
    proof {
        assert(views.subrange(0, names@.len() as int) =~= views);
    }
    out
}

/// The first static asset whose stored path ends with `name` holds `bytes`.
pub open spec fn spec_static_asset(globals: &Globals, name: Seq<u8>, bytes: Seq<u8>) -> bool {
    let i = crate::registry::spec_suffix_index(globals.static_names(), name);
    0 <= i < globals.static_names().len() && bytes == globals.static_contents()[i]
}

/// The index page was served: the `index.html` asset, rendered against one
/// complete snapshot of the hosted files and playlists, was appended to the
/// sink.
pub open spec fn spec_served_index(
    globals: &Globals,
    local_addr: Seq<u8>,
    peer_addr: Seq<u8>,
    old_sink: Seq<u8>,
    new_sink: Seq<u8>,
) -> bool {
    exists|template: Seq<u8>, files: Seq<Seq<u8>>, playlists: Seq<Seq<u8>>|
        #![trigger spec_index_response(template, local_addr, peer_addr, files, playlists)]
        {
            &&& spec_static_asset(globals, ascii_seq("index.html"@), template)
            &&& (exists|db: crate::registry::FileDatabase|
                db.wf() && files == #[trigger] db.names())
            &&& (exists|ps: Seq<crate::registry::Playlist>|
                crate::registry::playlists_wf(ps) && playlists
                    == #[trigger] crate::registry::playlist_names(ps))
            &&& new_sink == old_sink + spec_index_response(
                template,
                local_addr,
                peer_addr,
                files,
                playlists,
            )
        }
}

/// Serves the templated index page.  The client's own address and the
/// server-side address of the connection fill the address placeholders;
/// the hosted files and playlists fill the listing placeholders.  With no
/// registered `index.html` asset the connection is aborted.
pub fn serve_get_index(
    globals: &Globals,
    client_local_addr: &[u8],
    client_peer_addr: &[u8],
    sink: &mut Vec<u8>,
) -> (r: Result<(), RouteFail>)
    requires
        globals.wf(),
    ensures
        match r {
            Ok(()) => spec_served_index(
                globals,
                client_local_addr@,
                client_peer_addr@,
                old(sink)@,
                final(sink)@,
            ),
            Err(_) => final(sink)@ == old(sink)@ && (forall|i: int|
                0 <= i < globals.static_names().len() ==> !crate::bytes::spec_ends_with(
                    #[trigger] globals.static_names()[i],
                    ascii_seq("index.html"@),
                )),
        },
{
    proof {
        reveal_strlit("OK");
        reveal_strlit("index.html");
        reveal_strlit("peer_addr");
        reveal_strlit("local_addr");
        reveal_strlit("hosted_files");
        reveal_strlit("hosted_playlists");
    }
    let index_name = ascii_vec("index.html");
    let asset = match globals.get_static_file(index_name.as_slice()) {
        Some(m) => m,
        None => {
            return Err(RouteFail::MissingAsset);
        },
    };
    let template_bytes = mapping_slice(asset);

    let file_names = globals.get_file_entry_names();
    let playlist_names = globals.get_playlist_names();
    let files_html = build_file_links(&file_names);
    let playlists_html = build_playlist_links(&playlist_names);

    let mut keys: Vec<Vec<u8>> = Vec::new();
    keys.push(ascii_vec("peer_addr"));
    keys.push(ascii_vec("local_addr"));
    keys.push(ascii_vec("hosted_files"));
    keys.push(ascii_vec("hosted_playlists"));
    proof {
        assert(vec_byte_views(keys@) =~= spec_index_keys());
    }

    let mut local_value: Vec<u8> = Vec::new();
    append_bytes(&mut local_value, client_local_addr);
    let mut peer_value: Vec<u8> = Vec::new();
    append_bytes(&mut peer_value, client_peer_addr);
    let mut values: Vec<Vec<u8>> = Vec::new();
    values.push(local_value);
    values.push(peer_value);
    values.push(files_html);
    values.push(playlists_html);
    proof {
        assert(vec_byte_views(values@) =~= seq![
            client_local_addr@,
            client_peer_addr@,
            spec_file_links(vec_byte_views(file_names@)),
            spec_playlist_links(vec_byte_views(playlist_names@)),
        ]);
    }

    let mut template = crate::template::BodyTemplate {
        template: template_bytes,
        keys,
        values,
    };

    let version = http_version_bytes();
    let status = ascii_vec("OK");
    let empty_body: Vec<u8> = Vec::new();
    let mut headers: Vec<HttpHeader> = Vec::new();
    headers.push(HttpHeader::ContentType(ContentType::text_html));
    let response = HttpResponse {
        protocol_version: version.as_slice(),
        status_code: 200,
        status_text: status.as_slice(),
        headers,
        body: empty_body.as_slice(),
    };
    proof {
        assert(crate::http::header_views(response.headers@) =~= seq![
            HeaderView::ContentType(ContentType::text_html),
        ]);
    }
    response.write_from_readinto(&mut template, sink);
    proof {
        assert(sink@ =~= old(sink)@ + spec_index_response(
            template_bytes@,
            client_local_addr@,
            client_peer_addr@,
            vec_byte_views(file_names@),
            vec_byte_views(playlist_names@),
        ));
    }
    Ok(())
}

/// What the file route decided: the response is fully written, or the
/// request must be proxied to the peer named in its query string.
pub enum FileServeOutcome {
    Served,
    ProxyTo(PeerAddr, Vec<u8>),
}

/// The file name a `/file/...` route names: the route bytes after the
/// `/file/` prefix; empty when the route is shorter than the prefix.
pub open spec fn spec_filepath(route: Seq<u8>) -> Seq<u8> {
    if route.len() >= 6 {
        route.skip(6)
    } else {
        Seq::empty()
    }
}

/// The attachment response for a file download: its bytes with their
/// length, flagged as a named attachment.
pub open spec fn spec_file_response(filepath: Seq<u8>, bytes: Seq<u8>) -> Seq<u8> {
    spec_ok_response(
        seq![
            HeaderView::ContentType(ContentType::text_plain),
            HeaderView::TransferEncoding(TransferEncoding::binary),
            HeaderView::ContentLength(bytes.len() as usize),
            HeaderView::ContentDisposition(
                crate::http::DispositionView::Attachment(
                    Some(crate::bytes::spec_last_segment(filepath, '/' as u8)),
                ),
            ),
        ],
        bytes,
    )
}

/// The file route answered on the spot: a registered file as an attachment,
/// 404 for an unknown name, or an error fragment for a bad `source=` query.
pub open spec fn spec_file_served_direct(
    req: crate::http::RequestView,
    old_sink: Seq<u8>,
    new_sink: Seq<u8>,
) -> bool {
    if req.query_params.len() == 0 {
        exists|db: crate::registry::FileDatabase|
            #![trigger db.wf()]
            db.wf() && (match crate::registry::file_lookup(db, spec_filepath(req.route)) {
                Some(bytes) => new_sink == old_sink + spec_file_response(
                    spec_filepath(req.route),
                    bytes,
                ),
                None => new_sink == old_sink + spec_not_found_bytes(),
            })
    } else if !crate::bytes::spec_starts_with(req.query_params, ascii_seq("source="@)) {
        new_sink == old_sink + spec_routing_error_bytes(
            ascii_seq("query parameter should be formatted as ?sourece=xxxxx"@),
        )
    } else {
        match crate::bytes::spec_split_once(req.query_params, ascii_seq("="@)) {
            Some(p) => crate::peers::spec_parse_peer(p.1) is None && new_sink == old_sink
                + spec_routing_error_bytes(
                ascii_seq("failed to parse address from query parameter"@),
            ),
            None => false,
        }
    }
}

/// The file route asks for a proxy hop: the query names a valid peer, and
/// `relay` is the original request with its query string cleared.
pub open spec fn spec_file_proxy(
    req: crate::http::RequestView,
    addr: PeerAddr,
    relay: Seq<u8>,
) -> bool {
    &&& req.query_params.len() > 0
    &&& crate::bytes::spec_starts_with(req.query_params, ascii_seq("source="@))
    &&& (match crate::bytes::spec_split_once(req.query_params, ascii_seq("="@)) {
        Some(p) => crate::peers::spec_parse_peer(p.1) == Some(addr),
        None => false,
    })
    &&& relay == crate::http::spec_serialize_request(
        (crate::http::RequestView { query_params: Seq::empty(), ..req }),
    )
}

/// Serves a registered file as an attachment, answers 404 for an unknown
/// name, or — when a `source=` query parameter names a peer — asks the
/// caller to proxy the query-stripped request to that peer verbatim.
pub fn serve_get_file(globals: &Globals, req: &crate::http::HttpRequest, sink: &mut Vec<u8>) -> (r:
    FileServeOutcome)
    requires
        globals.wf(),
    ensures
        match r {
            FileServeOutcome::Served => spec_file_served_direct(req@, old(sink)@, final(sink)@),
            FileServeOutcome::ProxyTo(addr, relay) => spec_file_proxy(req@, addr, relay@)
                && final(sink)@ == old(sink)@,
        },
{
    let route_len = req.route.len();
    let filepath: &[u8] = if route_len >= 6 {
        &req.route[6..route_len]
    } else {
        &req.route[0..0]
    };
    proof {
        assert(filepath@ =~= spec_filepath(req@.route));
    }
    if req.query_params.len() == 0 {
        proof {
            reveal_strlit("OK");
        }
        let handle = globals.read_file_entries();
        let db = handle.borrow();
        let ghost snapshot = *db;
        match db.get_by_name(filepath) {
            Some(m) => {
                let bytes = mapping_slice(m);
                let fname = crate::bytes::last_segment(filepath, '/' as u8);
                let version = http_version_bytes();
                let status = ascii_vec("OK");
                let mut headers: Vec<HttpHeader> = Vec::new();
                headers.push(HttpHeader::ContentType(ContentType::text_plain));
                headers.push(HttpHeader::TransferEncoding(TransferEncoding::binary));
                headers.push(HttpHeader::ContentLength(bytes.len()));
                headers.push(
                    HttpHeader::ContentDisposition(ContentDisposition::Attachment(Some(fname))),
                );
                let response = HttpResponse {
                    protocol_version: version.as_slice(),
                    status_code: 200,
                    status_text: status.as_slice(),
                    headers,
                    body: bytes,
                };
                proof {
                    assert(crate::http::header_views(response.headers@) =~= seq![
                        HeaderView::ContentType(ContentType::text_plain),
                        HeaderView::TransferEncoding(TransferEncoding::binary),
                        HeaderView::ContentLength(bytes@.len() as usize),
                        HeaderView::ContentDisposition(
                            crate::http::DispositionView::Attachment(Some(fname@)),
                        ),
                    ]);
                    let i = crate::bytes::spec_index_of(snapshot.names(), filepath@);
                    assert(mapping_bytes(*m) == snapshot.contents()[i]);
                    assert(crate::registry::file_lookup(snapshot, spec_filepath(req@.route))
                        == Some(bytes@));
                }
                response.write_to_sink(sink);
            },
            None => {
                proof {
                    assert(crate::registry::file_lookup(snapshot, spec_filepath(req@.route))
                        == None::<Seq<u8>>);
                }
                return_not_found(sink);
            },
        }
        handle.release_read();
        FileServeOutcome::Served
    } else {
        proof {
            reveal_strlit("source=");
            reveal_strlit("=");
            reveal_strlit("query parameter should be formatted as ?sourece=xxxxx");
            reveal_strlit("failed to parse address from query parameter");
        }
        let source_prefix = ascii_vec("source=");
        if !crate::bytes::starts_with(req.query_params, source_prefix.as_slice()) {
            let message = ascii_vec("query parameter should be formatted as ?sourece=xxxxx");
            return_routing_error(sink, message.as_slice());
            return FileServeOutcome::Served;
        }
        let eq_sep = ascii_vec("=");
        match crate::bytes::split_once(req.query_params, eq_sep.as_slice()) {
            Some((_key, value)) => {
                match PeerAddr::parse(value) {
                    Some(addr) => {
                        let empty_query: Vec<u8> = Vec::new();
                        let relay_request = crate::http::HttpRequest {
                            protocol_version: req.protocol_version,
                            method: req.method,
                            route: req.route,
                            query_params: empty_query.as_slice(),
                            headers: copy_headers(&req.headers),
                            body: req.body,
                        };
                        let mut relay: Vec<u8> = Vec::new();
                        relay_request.write_to_sink(&mut relay);
                        proof {
                            assert(relay_request@.query_params =~= Seq::<u8>::empty());
                            assert(relay_request@ == (crate::http::RequestView {
                                query_params: Seq::<u8>::empty(),
                                ..req@
                            }));
                        }
                        FileServeOutcome::ProxyTo(addr, relay)
                    },
                    None => {
                        let message = ascii_vec("failed to parse address from query parameter");
                        return_routing_error(sink, message.as_slice());
                        FileServeOutcome::Served
                    },
                }
            },
            None => {
                proof {
                    let q = req@.query_params;
                    let eq = ascii_seq("="@);
                    assert(crate::bytes::matches_at(q, eq, 6)) by {
                        assert(q.subrange(0, 7)[6] == q[6]);
                        assert(ascii_seq("source="@)[6] == '=' as u8);
                        assert(q.subrange(6, 7) =~= eq);
                    }
                    crate::bytes::lemma_find_match_from(q, eq, 0, q.len() as int);
                    assert(false);
                }
                vstd::pervasive::unreached()
            },
        }
    }
}

/// What scanning a query string for one parameter found.
pub enum ParamScan {
    Value(Seq<u8>),
    Duplicate(Seq<u8>),
    Unknown(Seq<u8>),
    Missing,
}

/// Scans query parts for a single `prefix`-keyed parameter, reporting a
/// repeated key or a part under any other key.
pub open spec fn spec_scan_single(
    parts: Seq<Seq<u8>>,
    prefix: Seq<u8>,
    found: Option<Seq<u8>>,
) -> ParamScan
    decreases parts.len(),
{
    if parts.len() == 0 {
        match found {
            Some(v) => ParamScan::Value(v),
            None => ParamScan::Missing,
        }
    } else if crate::bytes::spec_starts_with(parts[0], prefix) {
        if found is Some {
            ParamScan::Duplicate(parts[0])
        } else {
            spec_scan_single(parts.skip(1), prefix, Some(parts[0].skip(prefix.len() as int)))
        }
    } else {
        ParamScan::Unknown(parts[0])
    }
}

/// A scan of a nonempty part list, or one that has already found its
/// parameter, never reports the parameter missing.
proof fn lemma_scan_single_not_missing(parts: Seq<Seq<u8>>, prefix: Seq<u8>, found: Option<Seq<u8>>)
    requires
        found is Some || parts.len() >= 1,
    ensures
        !(spec_scan_single(parts, prefix, found) is Missing),
    decreases parts.len(),
{
    if parts.len() > 0 && crate::bytes::spec_starts_with(parts[0], prefix) && found is None {
        lemma_scan_single_not_missing(
            parts.skip(1),
            prefix,
            Some(parts[0].skip(prefix.len() as int)),
        );
    }
}

/// The playlist-name parameter of a query string.
pub open spec fn spec_playlist_param(query: Seq<u8>) -> ParamScan {
    spec_scan_single(
        crate::bytes::spec_split_seq(query, seq![('&' as u8)]),
        ascii_seq("playlist="@),
        None,
    )
}

/// What scanning a query string for one parameter found, executably.
enum SingleScan<'a> {
    Value(&'a [u8]),
    Duplicate(&'a [u8]),
    Unknown(&'a [u8]),
    Missing,
}

/// Scans `query` for a single parameter under `prefix`.
fn scan_single_param<'a>(query: &'a [u8], prefix: &[u8]) -> (r: SingleScan<'a>)
    ensures
        ({
            let outcome = spec_scan_single(
                crate::bytes::spec_split_seq(query@, seq![('&' as u8)]),
                prefix@,
                None,
            );
            match r {
                SingleScan::Value(v) => outcome == ParamScan::Value(v@),
                SingleScan::Duplicate(p) => outcome == ParamScan::Duplicate(p@),
                SingleScan::Unknown(p) => outcome == ParamScan::Unknown(p@),
                SingleScan::Missing => outcome is Missing,
            }
        }),
{
    let mut amp: Vec<u8> = Vec::new();
    amp.push('&' as u8);
    proof {
        assert(amp@ =~= seq![('&' as u8)]);
    }
    let parts = crate::bytes::split_all(query, amp.as_slice());
    let ghost all = crate::bytes::slice_views(parts@);
    proof {
        assert(all.skip(0) =~= all);
    }
    let mut found: Option<&'a [u8]> = None;
    let mut i: usize = 0;
    while i < parts.len()
        invariant
            i <= parts@.len(),
            all == crate::bytes::slice_views(parts@),
            all == crate::bytes::spec_split_seq(query@, seq![('&' as u8)]),
            spec_scan_single(all, prefix@, None) == spec_scan_single(
                all.skip(i as int),
                prefix@,
                (match found {
                    Some(v) => Some(v@),
                    None => None,
                }),
            ),
        decreases parts@.len() - i,
    {
        let ghost suffix = all.skip(i as int);
        proof {
            assert(suffix[0] == parts@[i as int]@);
            assert(suffix.skip(1) =~= all.skip(i + 1));
        }
        let part = parts[i];
        if crate::bytes::starts_with(part, prefix) {
            if found.is_some() {
                return SingleScan::Duplicate(part);
            }
            let value = &part[prefix.len()..part.len()];
            proof {
                assert(value@ =~= parts@[i as int]@.skip(prefix@.len() as int));
            }
            found = Some(value);
        } else {
            return SingleScan::Unknown(part);
        }
        i = i + 1;
    }
    proof {
        assert(all.skip(parts@.len() as int) =~= Seq::<Seq<u8>>::empty());
    }
    match found {
        Some(v) => SingleScan::Value(v),
        None => SingleScan::Missing,
    }
}

/// One quoted, comma-terminated entry per track, each named by the final
/// segment of its stored path.
pub open spec fn spec_song_entries(names: Seq<Seq<u8>>) -> Seq<u8>
    decreases names.len(),
{
    if names.len() == 0 {
        Seq::empty()
    } else {
        spec_song_entries(names.drop_last()) + ascii_seq("\""@) + crate::bytes::spec_last_segment(
            names.last(),
            '/' as u8,
        ) + ascii_seq("\","@)
    }
}

/// Builds the quoted track entries of a playlist page.
fn build_song_entries(names: &Vec<Vec<u8>>) -> (r: Vec<u8>)
    ensures
        r@ == spec_song_entries(vec_byte_views(names@)),
{
    let ghost views = vec_byte_views(names@);
    let mut out: Vec<u8> = Vec::new();
    let mut i: usize = 0;
    while i < names.len()
        invariant
            i <= names@.len(),
            views == vec_byte_views(names@),
            out@ == spec_song_entries(views.subrange(0, i as int)),
        decreases names@.len() - i,
    {
        proof {
            reveal_strlit("\"");
            reveal_strlit("\",");
        }
        crate::bytes::append_ascii(&mut out, "\"");
        let segment = crate::bytes::last_segment(names[i].as_slice(), '/' as u8);
        append_bytes(&mut out, segment);
        crate::bytes::append_ascii(&mut out, "\",");
        i = i + 1;
        proof {
            let prefix = views.subrange(0, i as int);
            assert(prefix.drop_last() =~= views.subrange(0, i - 1));
            assert(prefix.last() == names@[i - 1]@);
            assert(out@ =~= spec_song_entries(prefix));
        }
    }
    proof {
        assert(views.subrange(0, names@.len() as int) =~= views);
    }
    out
}

/// The templated playlist page: the playlist's name and its quoted track
/// entries rendered into the `playlist.html` template.
pub open spec fn spec_playlist_response(
    template: Seq<u8>,
    name: Seq<u8>,
    tracks: Seq<Seq<u8>>,
) -> Seq<u8> {
    spec_ok_response(
        seq![HeaderView::ContentType(ContentType::text_html)],
        crate::template::spec_render(
            template,
            seq![ascii_seq("playlist_name"@), ascii_seq("playlist_songs"@)],
            seq![name, spec_song_entries(tracks)],
        ),
    )
}

/// The playlist page route answered: the named playlist's page rendered
/// from one complete snapshot, or an error fragment for a bad parameter or
/// an unknown name.
pub open spec fn spec_served_playlist(
    globals: &Globals,
    query: Seq<u8>,
    old_sink: Seq<u8>,
    new_sink: Seq<u8>,
) -> bool {
    match spec_playlist_param(query) {
        ParamScan::Duplicate(part) => new_sink == old_sink + spec_routing_error_bytes(
            ascii_seq("duplicate query paramter: "@) + part,
        ),
        ParamScan::Unknown(part) => new_sink == old_sink + spec_routing_error_bytes(
            ascii_seq("unrecognized query parameter: "@) + part,
        ),
        ParamScan::Value(name) => exists|ps: Seq<crate::registry::Playlist>|
            #![trigger crate::registry::playlists_wf(ps)]
            crate::registry::playlists_wf(ps) && ({
                let i = crate::bytes::spec_index_of(crate::registry::playlist_names(ps), name);
                if i >= 0 {
                    exists|template: Seq<u8>|
                        #![trigger spec_playlist_response(template, name, ps[i].files.names())]
                        spec_static_asset(globals, ascii_seq("playlist.html"@), template)
                            && new_sink == old_sink + spec_playlist_response(
                            template,
                            name,
                            ps[i].files.names(),
                        )
                } else {
                    new_sink == old_sink + spec_routing_error_bytes(
                        ascii_seq("Unable to fetch playlist "@) + name,
                    )
                }
            }),
        ParamScan::Missing => false,
    }
}

/// Serves the templated page of the playlist named in the query string; a
/// bad query parameter or an unknown playlist becomes an inline error
/// fragment.  With no registered `playlist.html` asset the connection is
/// aborted.
pub fn serve_get_playlist(
    globals: &Globals,
    req: &crate::http::HttpRequest,
    sink: &mut Vec<u8>,
) -> (r: Result<(), RouteFail>)
    requires
        globals.wf(),
    ensures
        match r {
            Ok(()) => spec_served_playlist(globals, req@.query_params, old(sink)@, final(sink)@),
            Err(_) => final(sink)@ == old(sink)@ && (forall|i: int|
                0 <= i < globals.static_names().len() ==> !crate::bytes::spec_ends_with(
                    #[trigger] globals.static_names()[i],
                    ascii_seq("playlist.html"@),
                )),
        },
{
    proof {
        reveal_strlit("playlist=");
        reveal_strlit("duplicate query paramter: ");
        reveal_strlit("unrecognized query parameter: ");
        reveal_strlit("Unable to fetch playlist ");
        reveal_strlit("playlist.html");
        reveal_strlit("playlist_name");
        reveal_strlit("playlist_songs");
        reveal_strlit("OK");
    }
    let prefix = ascii_vec("playlist=");
    let playlist_name = match scan_single_param(req.query_params, prefix.as_slice()) {
        SingleScan::Value(name) => name,
        SingleScan::Duplicate(part) => {
            let mut message = ascii_vec("duplicate query paramter: ");
            append_bytes(&mut message, part);
            return_routing_error(sink, message.as_slice());
            return Ok(());
        },
        SingleScan::Unknown(part) => {
            let mut message = ascii_vec("unrecognized query parameter: ");
            append_bytes(&mut message, part);
            return_routing_error(sink, message.as_slice());
            return Ok(());
        },
        SingleScan::Missing => {
            proof {
                let parts = crate::bytes::spec_split_seq(req@.query_params, seq![('&' as u8)]);
                lemma_scan_single_not_missing(parts, ascii_seq("playlist="@), None);
                assert(false);
            }
            vstd::pervasive::unreached()
        },
    };
    let handle = globals.read_playlists();
    let ps = handle.borrow();
    let ghost snapshot = ps@;
    match crate::registry::find_playlist(ps, playlist_name) {
        Some(index) => {
            let asset_name = ascii_vec("playlist.html");
            let asset = match globals.get_static_file(asset_name.as_slice()) {
                Some(m) => m,
                None => {
                    handle.release_read();
                    return Err(RouteFail::MissingAsset);
                },
            };
            let template_bytes = mapping_slice(asset);
            let mut keys: Vec<Vec<u8>> = Vec::new();
            keys.push(ascii_vec("playlist_name"));
            keys.push(ascii_vec("playlist_songs"));
            let mut name_value: Vec<u8> = Vec::new();
            append_bytes(&mut name_value, playlist_name);
            let entries = build_song_entries(&ps[index].files.filenames);
            let mut values: Vec<Vec<u8>> = Vec::new();
            values.push(name_value);
            values.push(entries);
            proof {
                assert(vec_byte_views(keys@) =~= seq![
                    ascii_seq("playlist_name"@),
                    ascii_seq("playlist_songs"@),
                ]);
                assert(vec_byte_views(values@) =~= seq![
                    playlist_name@,
                    spec_song_entries(snapshot[index as int].files.names()),
                ]);
            }
            let mut template = crate::template::BodyTemplate {
                template: template_bytes,
                keys,
                values,
            };
            let version = http_version_bytes();
            let status = ascii_vec("OK");
            let empty_body: Vec<u8> = Vec::new();
            let mut headers: Vec<HttpHeader> = Vec::new();
            headers.push(HttpHeader::ContentType(ContentType::text_html));
            let response = HttpResponse {
                protocol_version: version.as_slice(),
                status_code: 200,
                status_text: status.as_slice(),
                headers,
                body: empty_body.as_slice(),
            };
            proof {
                assert(crate::http::header_views(response.headers@) =~= seq![
                    HeaderView::ContentType(ContentType::text_html),
                ]);
            }
            response.write_from_readinto(&mut template, sink);
            proof {
                assert(sink@ =~= old(sink)@ + spec_playlist_response(
                    template_bytes@,
                    playlist_name@,
                    snapshot[index as int].files.names(),
                ));
            }
            handle.release_read();
        },
        None => {
            handle.release_read();
            let mut message = ascii_vec("Unable to fetch playlist ");
            append_bytes(&mut message, playlist_name);
            return_routing_error(sink, message.as_slice());
        },
    }
    Ok(())
}

/// What scanning a query string for the playlist-name and song-number
/// parameters found.
pub enum SongParams {
    Values(Option<Seq<u8>>, Option<Seq<u8>>),
    Duplicate(Seq<u8>),
    Unknown(Seq<u8>),
}

/// Scans query parts for the `playlist=` and `song_number=` parameters,
/// reporting a repeated key or a part under any other key.
pub open spec fn spec_scan_song_params(
    parts: Seq<Seq<u8>>,
    name: Option<Seq<u8>>,
    number: Option<Seq<u8>>,
) -> SongParams
    decreases parts.len(),
{
    if parts.len() == 0 {
        SongParams::Values(name, number)
    } else if crate::bytes::spec_starts_with(parts[0], ascii_seq("playlist="@)) {
        if name is Some {
            SongParams::Duplicate(parts[0])
        } else {
            spec_scan_song_params(
                parts.skip(1),
                Some(parts[0].skip(ascii_seq("playlist="@).len() as int)),
                number,
            )
        }
    } else if crate::bytes::spec_starts_with(parts[0], ascii_seq("song_number="@)) {
        if number is Some {
            SongParams::Duplicate(parts[0])
        } else {
            spec_scan_song_params(
                parts.skip(1),
                name,
                Some(parts[0].skip(ascii_seq("song_number="@).len() as int)),
            )
        }
    } else {
        SongParams::Unknown(parts[0])
    }
}

/// The playlist-name and song-number parameters of a query string.
pub open spec fn spec_song_params(query: Seq<u8>) -> SongParams {
    spec_scan_song_params(
        crate::bytes::spec_split_seq(query, seq![('&' as u8)]),
        None,
        None,
    )
}

/// What scanning for the song route's parameters found, executably.
enum SongScan<'a> {
    Values(Option<&'a [u8]>, Option<&'a [u8]>),
    Duplicate(&'a [u8]),
    Unknown(&'a [u8]),
}

/// The view of an optional byte slice.
spec fn opt_view(o: Option<&[u8]>) -> Option<Seq<u8>> {
    match o {
        Some(v) => Some(v@),
        None => None,
    }
}

/// Scans `query` for the `playlist=` and `song_number=` parameters.
fn scan_song_params<'a>(query: &'a [u8]) -> (r: SongScan<'a>)
    ensures
        ({
            let outcome = spec_song_params(query@);
            match r {
                SongScan::Values(name, number) => outcome == SongParams::Values(
                    opt_view(name),
                    opt_view(number),
                ),
                SongScan::Duplicate(p) => outcome == SongParams::Duplicate(p@),
                SongScan::Unknown(p) => outcome == SongParams::Unknown(p@),
            }
        }),
{
    proof {
        reveal_strlit("playlist=");
        reveal_strlit("song_number=");
    }
    let name_prefix = ascii_vec("playlist=");
    let number_prefix = ascii_vec("song_number=");
    let mut amp: Vec<u8> = Vec::new();
    amp.push('&' as u8);
    proof {
        assert(amp@ =~= seq![('&' as u8)]);
    }
    let parts = crate::bytes::split_all(query, amp.as_slice());
    let ghost all = crate::bytes::slice_views(parts@);
    proof {
        assert(all.skip(0) =~= all);
    }
    let mut name: Option<&'a [u8]> = None;
    let mut number: Option<&'a [u8]> = None;
    let mut i: usize = 0;
    while i < parts.len()
        invariant
            i <= parts@.len(),
            all == crate::bytes::slice_views(parts@),
            all == crate::bytes::spec_split_seq(query@, seq![('&' as u8)]),
            name_prefix@ == ascii_seq("playlist="@),
            number_prefix@ == ascii_seq("song_number="@),
            spec_scan_song_params(all, None, None) == spec_scan_song_params(
                all.skip(i as int),
                opt_view(name),
                opt_view(number),
            ),
        decreases parts@.len() - i,
    {
        let ghost suffix = all.skip(i as int);
        proof {
            assert(suffix[0] == parts@[i as int]@);
            assert(suffix.skip(1) =~= all.skip(i + 1));
        }
        let part = parts[i];
        if crate::bytes::starts_with(part, name_prefix.as_slice()) {
            if name.is_some() {
                return SongScan::Duplicate(part);
            }
            let value = &part[name_prefix.len()..part.len()];
            proof {
                assert(value@ =~= parts@[i as int]@.skip(ascii_seq("playlist="@).len() as int));
            }
            name = Some(value);
        } else if crate::bytes::starts_with(part, number_prefix.as_slice()) {
            if number.is_some() {
                return SongScan::Duplicate(part);
            }
            let value = &part[number_prefix.len()..part.len()];
            proof {
                assert(value@ =~= parts@[i as int]@.skip(
                    ascii_seq("song_number="@).len() as int,
                ));
            }
            number = Some(value);
        } else {
            return SongScan::Unknown(part);
        }
        i = i + 1;
    }
    proof {
        assert(all.skip(parts@.len() as int) =~= Seq::<Seq<u8>>::empty());
    }
    SongScan::Values(name, number)
}

/// The inline audio response for one track: its bytes with their length,
/// flagged as inline binary audio.
pub open spec fn spec_song_response(bytes: Seq<u8>) -> Seq<u8> {
    spec_ok_response(
        seq![
            HeaderView::ContentType(ContentType::audio_flac),
            HeaderView::ContentDisposition(crate::http::DispositionView::Inline),
            HeaderView::ContentLength(bytes.len() as usize),
            HeaderView::TransferEncoding(TransferEncoding::binary),
        ],
        bytes,
    )
}

/// The song route answered: one track of a named playlist as inline audio
/// from one complete snapshot, or an error fragment for a bad parameter, an
/// unknown playlist or an out-of-range index.
pub open spec fn spec_served_song(query: Seq<u8>, old_sink: Seq<u8>, new_sink: Seq<u8>) -> bool {
    match spec_song_params(query) {
        SongParams::Duplicate(part) => new_sink == old_sink + spec_routing_error_bytes(
            ascii_seq("duplicate query paramter: "@) + part,
        ),
        SongParams::Unknown(part) => new_sink == old_sink + spec_routing_error_bytes(
            ascii_seq("unrecognized query parameter: "@) + part,
        ),
        SongParams::Values(name_opt, number_opt) => match name_opt {
            None => new_sink == old_sink + spec_routing_error_bytes(
                ascii_seq("unable to parse playlist name parameter"@),
            ),
            Some(name) => {
                let number = match number_opt {
                    None => Some(0 as nat),
                    Some(text) => crate::numbers::spec_parse_decimal(text, u32::MAX as nat),
                };
                match number {
                    None => new_sink == old_sink + spec_routing_error_bytes(
                        ascii_seq("failed to parse song_number parameter"@),
                    ),
                    Some(n) => exists|ps: Seq<crate::registry::Playlist>|
                        #![trigger crate::registry::playlists_wf(ps)]
                        crate::registry::playlists_wf(ps) && (match crate::registry::song_lookup(
                            ps,
                            name,
                            n as u32,
                        ) {
                            Some(bytes) => new_sink == old_sink + spec_song_response(bytes),
                            None => new_sink == old_sink + spec_routing_error_bytes(
                                ascii_seq("Unable to find playlist name: "@) + name,
                            ),
                        }),
                }
            },
        },
    }
}

/// Serves one track of a named playlist as inline audio.  The song number
/// defaults to zero; a bad parameter, an unknown playlist or an
/// out-of-range index becomes an inline error fragment.
pub fn serve_get_playlist_song(globals: &Globals, req: &crate::http::HttpRequest, sink: &mut Vec<u8>)
    requires
        globals.wf(),
    ensures
        spec_served_song(req@.query_params, old(sink)@, final(sink)@),
{
    proof {
        reveal_strlit("duplicate query paramter: ");
        reveal_strlit("unrecognized query parameter: ");
        reveal_strlit("unable to parse playlist name parameter");
        reveal_strlit("failed to parse song_number parameter");
        reveal_strlit("Unable to find playlist name: ");
        reveal_strlit("OK");
    }
    let (name_opt, number_opt) = match scan_song_params(req.query_params) {
        SongScan::Values(name_opt, number_opt) => (name_opt, number_opt),
        SongScan::Duplicate(part) => {
            let mut message = ascii_vec("duplicate query paramter: ");
            append_bytes(&mut message, part);
            return_routing_error(sink, message.as_slice());
            return ;
        },
        SongScan::Unknown(part) => {
            let mut message = ascii_vec("unrecognized query parameter: ");
            append_bytes(&mut message, part);
            return_routing_error(sink, message.as_slice());
            return ;
        },
    };
    let playlist_name = match name_opt {
        Some(name) => name,
        None => {
            let message = ascii_vec("unable to parse playlist name parameter");
            return_routing_error(sink, message.as_slice());
            return ;
        },
    };
    let song_number: u32 = match number_opt {
        Some(text) => match crate::numbers::parse_u32(text) {
            Some(n) => n,
            None => {
                let message = ascii_vec("failed to parse song_number parameter");
                return_routing_error(sink, message.as_slice());
                return ;
            },
        },
        None => 0,
    };
    match globals.get_song_by_playlist_and_index(playlist_name, song_number) {
        Some(bytes) => {
            let version = http_version_bytes();
            let status = ascii_vec("OK");
            let mut headers: Vec<HttpHeader> = Vec::new();
            headers.push(HttpHeader::ContentType(ContentType::audio_flac));
            headers.push(HttpHeader::ContentDisposition(ContentDisposition::Inline));
            headers.push(HttpHeader::ContentLength(bytes.len()));
            headers.push(HttpHeader::TransferEncoding(TransferEncoding::binary));
            let response = HttpResponse {
                protocol_version: version.as_slice(),
                status_code: 200,
                status_text: status.as_slice(),
                headers,
                body: bytes.as_slice(),
            };
            proof {
                assert(crate::http::header_views(response.headers@) =~= seq![
                    HeaderView::ContentType(ContentType::audio_flac),
                    HeaderView::ContentDisposition(crate::http::DispositionView::Inline),
                    HeaderView::ContentLength(bytes@.len() as usize),
                    HeaderView::TransferEncoding(TransferEncoding::binary),
                ]);
            }
            response.write_to_sink(sink);
        },
        None => {
            let mut message = ascii_vec("Unable to find playlist name: ");
            append_bytes(&mut message, playlist_name);
            return_routing_error(sink, message.as_slice());
        },
    }
}

/// What one peer fan-out task came back with: the peer's full raw response,
/// or a failure (a connection error, or no response at all).
pub enum PeerFetch {
    Response(PeerAddr, Vec<u8>),
    Failed,
}

/// The mathematical value of a fan-out result.
pub enum PeerFetchView {
    Response(PeerAddr, Seq<u8>),
    Failed,
}

impl View for PeerFetch {
    type V = PeerFetchView;

    open spec fn view(&self) -> PeerFetchView {
        match self {
            PeerFetch::Response(addr, bytes) => PeerFetchView::Response(*addr, bytes@),
            PeerFetch::Failed => PeerFetchView::Failed,
        }
    }
}

/// The views of a list of fan-out results.
pub open spec fn peer_fetch_views(rs: Seq<PeerFetch>) -> Seq<PeerFetchView> {
    rs.map_values(|r: PeerFetch| r@)
}

/// The lines of a newline-delimited listing body; a final newline does not
/// contribute an empty line.
pub open spec fn spec_listing_lines(body: Seq<u8>) -> Seq<Seq<u8>> {
    let parts = crate::bytes::spec_split_seq(body, seq![LF]);
    if parts.len() > 0 && parts.last() == Seq::<u8>::empty() {
        parts.drop_last()
    } else {
        parts
    }
}

/// The `(address, filename)` pairs one fan-out result contributes: one per
/// listed file for a parsed response, none for a failure or an unparsable
/// response.
pub open spec fn spec_fetch_pairs(r: PeerFetchView) -> Seq<(Seq<u8>, Seq<u8>)> {
    match r {
        PeerFetchView::Failed => Seq::empty(),
        PeerFetchView::Response(addr, bytes) => match crate::parse::spec_parse_response(bytes) {
            Ok(v) => spec_listing_lines(v.body).map_values(
                |f: Seq<u8>| (spec_peer_bytes(addr), f),
            ),
            Err(_) => Seq::empty(),
        },
    }
}

/// The flat `(address, filename)` pairs of all responding peers, in order.
pub open spec fn spec_peer_pairs(results: Seq<PeerFetchView>) -> Seq<(Seq<u8>, Seq<u8>)>
    decreases results.len(),
{
    if results.len() == 0 {
        Seq::empty()
    } else {
        spec_peer_pairs(results.drop_last()) + spec_fetch_pairs(results.last())
    }
}

/// One JSON two-element array for one pair.
pub open spec fn spec_pair_entry(pair: (Seq<u8>, Seq<u8>)) -> Seq<u8> {
    ascii_seq("[\""@) + pair.0 + ascii_seq("\",\""@) + pair.1 + ascii_seq("\"]"@)
}

/// The comma-separated JSON entries of all pairs.
pub open spec fn spec_json_entries(pairs: Seq<(Seq<u8>, Seq<u8>)>) -> Seq<u8>
    decreases pairs.len(),
{
    if pairs.len() == 0 {
        Seq::empty()
    } else if pairs.len() == 1 {
        spec_pair_entry(pairs.last())
    } else {
        spec_json_entries(pairs.drop_last()) + ascii_seq(","@) + spec_pair_entry(pairs.last())
    }
}

/// The JSON array of all pairs.
pub open spec fn spec_pairs_json(pairs: Seq<(Seq<u8>, Seq<u8>)>) -> Seq<u8> {
    ascii_seq("["@) + spec_json_entries(pairs) + ascii_seq("]"@)
}

/// The aggregated peer-listing response.
pub open spec fn spec_peer_files_response(results: Seq<PeerFetchView>) -> Seq<u8> {
    spec_ok_response(
        seq![HeaderView::ContentType(ContentType::application_json)],
        spec_pairs_json(spec_peer_pairs(results)),
    )
}

/// The views of collected pairs.
spec fn pair_views(pairs: Seq<(Vec<u8>, Vec<u8>)>) -> Seq<(Seq<u8>, Seq<u8>)> {
    pairs.map_values(|p: (Vec<u8>, Vec<u8>)| (p.0@, p.1@))
}

/// Collects the `(address, filename)` pairs of all responding peers.
fn collect_peer_pairs(results: &Vec<PeerFetch>) -> (r: Vec<(Vec<u8>, Vec<u8>)>)
    ensures
        pair_views(r@) == spec_peer_pairs(peer_fetch_views(results@)),
{
    let ghost views = peer_fetch_views(results@);
    let mut pairs: Vec<(Vec<u8>, Vec<u8>)> = Vec::new();
    let mut i: usize = 0;
    while i < results.len()
        invariant
            i <= results@.len(),
            views == peer_fetch_views(results@),
            pair_views(pairs@) == spec_peer_pairs(views.subrange(0, i as int)),
        decreases results@.len() - i,
    {
        let ghost fetch_view = results@[i as int]@;
        match &results[i] {
            PeerFetch::Failed => {
                proof {
                    assert(spec_fetch_pairs(fetch_view) =~= Seq::<(Seq<u8>, Seq<u8>)>::empty());
                }
            },
            PeerFetch::Response(addr, bytes) => {
                match crate::http::HttpResponse::parse(bytes.as_slice()) {
                    Err(_) => {
                        proof {
                            assert(spec_fetch_pairs(fetch_view) =~= Seq::<
                                (Seq<u8>, Seq<u8>),
                            >::empty());
                        }
                    },
                    Ok(response) => {
                        let mut lf_sep: Vec<u8> = Vec::new();
                        lf_sep.push(LF);
                        proof {
                            assert(lf_sep@ =~= seq![LF]);
                        }
                        let mut lines = crate::bytes::split_all(response.body, lf_sep.as_slice());
                        let ghost full = crate::bytes::spec_split_seq(response@.body, seq![LF]);
                        proof {
                            assert(full.last() == lines@[lines@.len() - 1]@);
                        }
                        if lines[lines.len() - 1].len() == 0 {
                            let _ = lines.pop();
                            proof {
                                assert(full.last() =~= Seq::<u8>::empty());
                                assert(crate::bytes::slice_views(lines@) =~= full.drop_last());
                                assert(crate::bytes::slice_views(lines@) == spec_listing_lines(
                                    response@.body,
                                ));
                            }
                        } else {
                            proof {
                                assert(full.last() != Seq::<u8>::empty());
                                assert(crate::bytes::slice_views(lines@) == spec_listing_lines(
                                    response@.body,
                                ));
                            }
                        }
                        let ghost line_views = crate::bytes::slice_views(lines@);
                        let ghost mapped = spec_fetch_pairs(fetch_view);
                        proof {
                            assert(mapped == line_views.map_values(
                                |f: Seq<u8>| (spec_peer_bytes(*addr), f),
                            ));
                        }
                        let ghost pairs_before = pair_views(pairs@);
                        let mut j: usize = 0;
                        while j < lines.len()
                            invariant
                                j <= lines@.len(),
                                line_views == crate::bytes::slice_views(lines@),
                                mapped == line_views.map_values(
                                    |f: Seq<u8>| (spec_peer_bytes(*addr), f),
                                ),
                                pair_views(pairs@) == pairs_before + mapped.subrange(0, j as int),
                            decreases lines@.len() - j,
                        {
                            let mut addr_text: Vec<u8> = Vec::new();
                            addr.append_to(&mut addr_text);
                            proof {
                                assert(addr_text@ =~= spec_peer_bytes(*addr));
                            }
                            let mut line_copy: Vec<u8> = Vec::new();
                            append_bytes(&mut line_copy, lines[j]);
                            proof {
                                assert(line_copy@ =~= lines@[j as int]@);
                            }
                            let ghost prev_pairs = pairs@;
                            pairs.push((addr_text, line_copy));
                            j = j + 1;
                            proof {
                                assert(line_views[j - 1] == lines@[j - 1]@);
                                assert(mapped[j - 1] == (spec_peer_bytes(*addr), lines@[j - 1]@));
                                assert(pairs@ == prev_pairs.push((addr_text, line_copy)));
                                assert(pair_views(pairs@) =~= pair_views(prev_pairs).push(
                                    (addr_text@, line_copy@),
                                ));
                                assert(mapped.subrange(0, j as int) =~= mapped.subrange(0, j - 1).push(
                                    mapped[j - 1],
                                ));
                                assert(pair_views(pairs@) =~= pairs_before + mapped.subrange(
                                    0,
                                    j as int,
                                ));
                            }
                        }
                        proof {
                            assert(mapped.subrange(0, mapped.len() as int) =~= mapped);
                        }
                    },
                }
            },
        }
        i = i + 1;
        proof {
            let prefix = views.subrange(0, i as int);
            assert(prefix.drop_last() =~= views.subrange(0, i - 1));
            assert(prefix.last() == views[i - 1]);
            assert(views[i - 1] == fetch_view);
            assert(pair_views(pairs@) =~= spec_peer_pairs(prefix));
        }
    }
    proof {
        assert(views.subrange(0, results@.len() as int) =~= views);
    }
    pairs
}

/// Builds the JSON array of all pairs.
fn build_pairs_json(pairs: &Vec<(Vec<u8>, Vec<u8>)>) -> (r: Vec<u8>)
    ensures
        r@ == spec_pairs_json(pair_views(pairs@)),
{
    proof {
        reveal_strlit("[");
        reveal_strlit("]");
    }
    let ghost views = pair_views(pairs@);
    let mut out: Vec<u8> = Vec::new();
    crate::bytes::append_ascii(&mut out, "[");
    let mut i: usize = 0;
    while i < pairs.len()
        invariant
            i <= pairs@.len(),
            views == pair_views(pairs@),
            out@ == ascii_seq("["@) + spec_json_entries(views.subrange(0, i as int)),
        decreases pairs@.len() - i,
    {
        proof {
            reveal_strlit(",");
            reveal_strlit("[\"");
            reveal_strlit("\",\"");
            reveal_strlit("\"]");
        }
        if i > 0 {
            crate::bytes::append_ascii(&mut out, ",");
        }
        crate::bytes::append_ascii(&mut out, "[\"");
        append_bytes(&mut out, pairs[i].0.as_slice());
        crate::bytes::append_ascii(&mut out, "\",\"");
        append_bytes(&mut out, pairs[i].1.as_slice());
        crate::bytes::append_ascii(&mut out, "\"]");
        i = i + 1;
        proof {
            let prefix = views.subrange(0, i as int);
            assert(prefix.drop_last() =~= views.subrange(0, i - 1));
            assert(prefix.last() == (pairs@[i - 1].0@, pairs@[i - 1].1@));
            assert(out@ =~= ascii_seq("["@) + spec_json_entries(prefix));
        }
    }
    proof {
        assert(views.subrange(0, pairs@.len() as int) =~= views);
    }
    crate::bytes::append_ascii(&mut out, "]");
    out
}

/// Aggregates the fan-out results into the peer-listing response: one
/// `[address, filename]` pair per file per responding peer, as a JSON
/// array; an errored or unparsable peer contributes nothing and does not
/// fail the aggregate.
pub fn serve_get_peer_files(results: &Vec<PeerFetch>, sink: &mut Vec<u8>)
    ensures
        final(sink)@ == old(sink)@ + spec_peer_files_response(peer_fetch_views(results@)),
{
    proof {
        reveal_strlit("OK");
    }
    let pairs = collect_peer_pairs(results);
    let body = build_pairs_json(&pairs);
    let version = http_version_bytes();
    let status = ascii_vec("OK");
    let mut headers: Vec<HttpHeader> = Vec::new();
    headers.push(HttpHeader::ContentType(ContentType::application_json));
    let response = HttpResponse {
        protocol_version: version.as_slice(),
        status_code: 200,
        status_text: status.as_slice(),
        headers,
        body: body.as_slice(),
    };
    proof {
        assert(crate::http::header_views(response.headers@) =~= seq![
            HeaderView::ContentType(ContentType::application_json),
        ]);
    }
    response.write_to_sink(sink);
}

/// The serialized request a fan-out task sends to each peer: a bare GET for
/// its file listing.
pub fn peer_listing_request() -> (r: Vec<u8>)
    ensures
        r@ == crate::http::spec_serialize_request(
            (crate::http::RequestView {
                protocol_version: ascii_seq("HTTP/1.1"@),
                method: crate::http::HttpMethod::GET,
                route: ascii_seq("/files"@),
                query_params: Seq::empty(),
                headers: Seq::empty(),
                body: Seq::empty(),
            }),
        ),
{
    proof {
        reveal_strlit("/files");
    }
    let version = http_version_bytes();
    let route = ascii_vec("/files");
    let empty: Vec<u8> = Vec::new();
    let request = crate::http::HttpRequest {
        protocol_version: version.as_slice(),
        method: crate::http::HttpMethod::GET,
        route: route.as_slice(),
        query_params: empty.as_slice(),
        headers: Vec::new(),
        body: empty.as_slice(),
    };
    let mut out: Vec<u8> = Vec::new();
    request.write_to_sink(&mut out);
    proof {
        assert(request@.query_params =~= Seq::<u8>::empty());
        assert(request@.body =~= Seq::<u8>::empty());
        assert(crate::http::header_views(request.headers@) =~= Seq::<HeaderView>::empty());
    }
    out
}

/// The peer addresses of a newline-delimited body, when every line is one.
pub open spec fn spec_parse_addr_lines(lines: Seq<Seq<u8>>) -> Option<Seq<PeerAddr>>
    decreases lines.len(),
{
    if lines.len() == 0 {
        Some(Seq::empty())
    } else {
        match (spec_parse_addr_lines(lines.drop_last()), crate::peers::spec_parse_peer(
            lines.last(),
        )) {
            (Some(rest), Some(addr)) => Some(rest.push(addr)),
            _ => None,
        }
    }
}

/// The peer-merge route answered: nothing on success, an error fragment
/// when some line is not an address.
pub open spec fn spec_served_post_peers(body: Seq<u8>, old_sink: Seq<u8>, new_sink: Seq<u8>) -> bool {
    match spec_parse_addr_lines(spec_listing_lines(body)) {
        Some(_) => new_sink == old_sink,
        None => new_sink == old_sink + spec_routing_error_bytes(
            ascii_seq("unable to parse peer address"@),
        ),
    }
}

/// Merges a newline-delimited address body into the peer registry.  When
/// every line parses, each address is appended in order and nothing is
/// written; one bad line writes an inline error fragment and merges
/// nothing.
pub fn serve_post_peers(globals: &Globals, body: &[u8], sink: &mut Vec<u8>)
    requires
        globals.wf(),
    ensures
        spec_served_post_peers(body@, old(sink)@, final(sink)@),
{
    proof {
        reveal_strlit("unable to parse peer address");
    }
    let mut lf_sep: Vec<u8> = Vec::new();
    lf_sep.push(LF);
    proof {
        assert(lf_sep@ =~= seq![LF]);
    }
    let mut lines = crate::bytes::split_all(body, lf_sep.as_slice());
    let ghost full = crate::bytes::spec_split_seq(body@, seq![LF]);
    proof {
        assert(full.last() == lines@[lines@.len() - 1]@);
    }
    if lines[lines.len() - 1].len() == 0 {
        let _ = lines.pop();
        proof {
            assert(full.last() =~= Seq::<u8>::empty());
            assert(crate::bytes::slice_views(lines@) =~= full.drop_last());
            assert(crate::bytes::slice_views(lines@) == spec_listing_lines(body@));
        }
    } else {
        proof {
            assert(full.last() != Seq::<u8>::empty());
            assert(crate::bytes::slice_views(lines@) == spec_listing_lines(body@));
        }
    }
    let ghost line_views = crate::bytes::slice_views(lines@);
    let mut addrs: Vec<PeerAddr> = Vec::new();
    let mut i: usize = 0;
    while i < lines.len()
        invariant
            i <= lines@.len(),
            line_views == crate::bytes::slice_views(lines@),
            line_views == spec_listing_lines(body@),
            sink@ == old(sink)@,
            spec_parse_addr_lines(line_views.subrange(0, i as int)) == Some(addrs@),
        decreases lines@.len() - i,
    {
        match PeerAddr::parse(lines[i]) {
            Some(addr) => {
                addrs.push(addr);
                i = i + 1;
                proof {
                    let prefix = line_views.subrange(0, i as int);
                    assert(prefix.drop_last() =~= line_views.subrange(0, i - 1));
                    assert(prefix.last() == lines@[i - 1]@);
                }
            },
            None => {
                proof {
                    reveal_strlit("unable to parse peer address");
                    lemma_parse_addr_lines_prefix_fail(line_views, i as int);
                }
                let message = ascii_vec("unable to parse peer address");
                return_routing_error(sink, message.as_slice());
                return ;
            },
        }
    }
    proof {
        assert(line_views.subrange(0, lines@.len() as int) =~= line_views);
    }
    let mut k: usize = 0;
    while k < addrs.len()
        invariant
            globals.wf(),
        decreases addrs@.len() - k,
    {
        globals.push_peer(addrs[k]);
        k = k + 1;
    }
}

/// A line that fails to parse fails the whole body.
proof fn lemma_parse_addr_lines_prefix_fail(lines: Seq<Seq<u8>>, i: int)
    requires
        0 <= i < lines.len(),
        crate::peers::spec_parse_peer(lines[i]) is None,
    ensures
        spec_parse_addr_lines(lines) is None,
    decreases lines.len(),
{
    if lines.len() > 0 {
        if i < lines.len() - 1 {
            lemma_parse_addr_lines_prefix_fail(lines.drop_last(), i);
        }
    }
}

/// Where routing sends a request: by its method, then by the first path
/// segment of its route.
pub enum RouteClass {
    Index,
    Favicon,
    File,
    Files,
    Playlist,
    PlaylistSong,
    Peers,
    PeerFiles,
    PostPeers,
    NotFound,
}

/// The classification of a request: its first path segment (or, for a route
/// without one, the whole route) picks the handler; `/playlist` routes with
/// a third segment go to the song handler only when that segment is
/// `songs`.
pub open spec fn spec_route(method: crate::http::HttpMethod, route: Seq<u8>) -> RouteClass {
    let parts = crate::bytes::spec_split_seq(route, seq![('/' as u8)]);
    let base = if parts.len() >= 2 {
        parts[1]
    } else {
        route
    };
    match method {
        crate::http::HttpMethod::GET => {
            if base == Seq::<u8>::empty() || base == ascii_seq("/"@) {
                RouteClass::Index
            } else if base == ascii_seq("favicon.ico"@) {
                RouteClass::Favicon
            } else if base == ascii_seq("file"@) {
                RouteClass::File
            } else if base == ascii_seq("files"@) {
                RouteClass::Files
            } else if base == ascii_seq("playlist"@) {
                if parts.len() >= 3 {
                    if parts[2] == ascii_seq("songs"@) {
                        RouteClass::PlaylistSong
                    } else {
                        RouteClass::NotFound
                    }
                } else {
                    RouteClass::Playlist
                }
            } else if base == ascii_seq("peers"@) {
                RouteClass::Peers
            } else if base == ascii_seq("peer_files"@) {
                RouteClass::PeerFiles
            } else {
                RouteClass::NotFound
            }
        },
        crate::http::HttpMethod::POST => {
            if base == ascii_seq("peers"@) {
                RouteClass::PostPeers
            } else {
                RouteClass::NotFound
            }
        },
        crate::http::HttpMethod::ERASE => RouteClass::NotFound,
    }
}

/// What the dispatcher decided beyond the bytes it wrote: nothing more, a
/// proxy hop to perform, or a peer fan-out to run before finishing with
/// `serve_get_peer_files`.
pub enum DispatchAction {
    Done,
    Proxy(PeerAddr, Vec<u8>),
    FetchPeerFiles,
}

/// Routes one parsed request and writes its response.  Routing is by method
/// and first path segment; an unmatched route or method answers 404.  The
/// two routes whose work leaves this library — a proxied download and the
/// peer fan-out — return an action for the caller; everything else is
/// finished here.
pub fn handle_request(
    globals: &Globals,
    req: &crate::http::HttpRequest,
    client_local_addr: &[u8],
    client_peer_addr: &[u8],
    sink: &mut Vec<u8>,
) -> (r: Result<DispatchAction, RouteFail>)
    requires
        globals.wf(),
    ensures
        match r {
            Err(_) => final(sink)@ == old(sink)@ && (match spec_route(req@.method, req@.route) {
                RouteClass::Index => forall|i: int|
                    0 <= i < globals.static_names().len() ==> !crate::bytes::spec_ends_with(
                        #[trigger] globals.static_names()[i],
                        ascii_seq("index.html"@),
                    ),
                RouteClass::Playlist => forall|i: int|
                    0 <= i < globals.static_names().len() ==> !crate::bytes::spec_ends_with(
                        #[trigger] globals.static_names()[i],
                        ascii_seq("playlist.html"@),
                    ),
                _ => false,
            }),
            Ok(action) => match spec_route(req@.method, req@.route) {
                RouteClass::Index => action is Done && spec_served_index(
                    globals,
                    client_local_addr@,
                    client_peer_addr@,
                    old(sink)@,
                    final(sink)@,
                ),
                RouteClass::Favicon => action is Done && final(sink)@ == old(sink)@
                    + spec_favicon_response(globals.favicon_bytes()),
                RouteClass::File => match action {
                    DispatchAction::Done => spec_file_served_direct(
                        req@,
                        old(sink)@,
                        final(sink)@,
                    ),
                    DispatchAction::Proxy(addr, relay) => spec_file_proxy(req@, addr, relay@)
                        && final(sink)@ == old(sink)@,
                    DispatchAction::FetchPeerFiles => false,
                },
                RouteClass::Files => action is Done && (exists|
                    db: crate::registry::FileDatabase,
                |
                    db.wf() && final(sink)@ == old(sink)@ + spec_files_response(
                        #[trigger] db.names(),
                    )),
                RouteClass::Playlist => action is Done && spec_served_playlist(
                    globals,
                    req@.query_params,
                    old(sink)@,
                    final(sink)@,
                ),
                RouteClass::PlaylistSong => action is Done && spec_served_song(
                    req@.query_params,
                    old(sink)@,
                    final(sink)@,
                ),
                RouteClass::Peers => action is Done && (exists|ps: Seq<PeerAddr>|
                    final(sink)@ == old(sink)@ + #[trigger] spec_peers_response(ps)),
                RouteClass::PeerFiles => action is FetchPeerFiles && final(sink)@ == old(sink)@,
                RouteClass::PostPeers => action is Done && spec_served_post_peers(
                    req@.body,
                    old(sink)@,
                    final(sink)@,
                ),
                RouteClass::NotFound => action is Done && final(sink)@ == old(sink)@
                    + spec_not_found_bytes(),
            },
        },
{
    proof {
        reveal_strlit("/");
        reveal_strlit("favicon.ico");
        reveal_strlit("file");
        reveal_strlit("files");
        reveal_strlit("playlist");
        reveal_strlit("songs");
        reveal_strlit("peers");
        reveal_strlit("peer_files");
    }
    let mut slash: Vec<u8> = Vec::new();
    slash.push('/' as u8);
    proof {
        assert(slash@ =~= seq![('/' as u8)]);
    }
    let parts = crate::bytes::split_all(req.route, slash.as_slice());
    let base: &[u8] = if parts.len() >= 2 {
        parts[1]
    } else {
        req.route
    };
    proof {
        if crate::bytes::slice_views(parts@).len() >= 2 {
            assert(base@ == crate::bytes::slice_views(parts@)[1]);
        }
    }
    match req.method {
        crate::http::HttpMethod::GET => {
            if base.len() == 0 || crate::bytes::eq_lit(base, "/") {
                proof {
                    assert(base@.len() == 0 ==> base@ =~= Seq::<u8>::empty());
                }
                match serve_get_index(globals, client_local_addr, client_peer_addr, sink) {
                    Ok(()) => Ok(DispatchAction::Done),
                    Err(e) => Err(e),
                }
            } else if crate::bytes::eq_lit(base, "favicon.ico") {
                serve_get_favicon(globals, sink);
                Ok(DispatchAction::Done)
            } else if crate::bytes::eq_lit(base, "file") {
                match serve_get_file(globals, req, sink) {
                    FileServeOutcome::Served => Ok(DispatchAction::Done),
                    FileServeOutcome::ProxyTo(addr, relay) => Ok(
                        DispatchAction::Proxy(addr, relay),
                    ),
                }
            } else if crate::bytes::eq_lit(base, "files") {
                serve_get_files(globals, sink);
                Ok(DispatchAction::Done)
            } else if crate::bytes::eq_lit(base, "playlist") {
                if parts.len() >= 3 {
                    proof {
                        assert(parts@[2]@ == crate::bytes::slice_views(parts@)[2]);
                    }
                    if crate::bytes::eq_lit(parts[2], "songs") {
                        serve_get_playlist_song(globals, req, sink);
                        Ok(DispatchAction::Done)
                    } else {
                        return_not_found(sink);
                        Ok(DispatchAction::Done)
                    }
                } else {
                    match serve_get_playlist(globals, req, sink) {
                        Ok(()) => Ok(DispatchAction::Done),
                        Err(e) => Err(e),
                    }
                }
            } else if crate::bytes::eq_lit(base, "peers") {
                serve_get_peers(globals, sink);
                Ok(DispatchAction::Done)
            } else if crate::bytes::eq_lit(base, "peer_files") {
                Ok(DispatchAction::FetchPeerFiles)
            } else {
                return_not_found(sink);
                Ok(DispatchAction::Done)
            }
        },
        crate::http::HttpMethod::POST => {
            if crate::bytes::eq_lit(base, "peers") {
                serve_post_peers(globals, req.body, sink);
                Ok(DispatchAction::Done)
            } else {
                return_not_found(sink);
                Ok(DispatchAction::Done)
            }
        },
        crate::http::HttpMethod::ERASE => {
            return_not_found(sink);
            Ok(DispatchAction::Done)
        },
    }
}

} // verus!
