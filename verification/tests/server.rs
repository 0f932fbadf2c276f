//! End-to-end tests of the route handlers and the dispatcher, against a
//! registry backed by real memory mappings.

use localshare::http::{HttpMethod, HttpRequest};
use localshare::peers::PeerAddr;
use localshare::registry::{FileDatabase, Globals};
use localshare::routes::{
    handle_request, serve_get_peer_files, DispatchAction, PeerFetch,
};

fn mapping_of(bytes: &[u8]) -> memmap2::Mmap {
    let mut writable = memmap2::MmapMut::map_anon(bytes.len()).expect("anonymous mapping");
    writable[..bytes.len()].copy_from_slice(bytes);
    writable.make_read_only().expect("read-only mapping")
}

fn request<'a>(method: HttpMethod, route: &'a [u8], query: &'a [u8], body: &'a [u8]) -> HttpRequest<'a> {
    HttpRequest {
        protocol_version: b"HTTP/1.1",
        method,
        route,
        query_params: query,
        headers: vec![],
        body,
    }
}

fn globals_with_files() -> Globals {
    let globals = Globals::new(
        FileDatabase::new(),
        Vec::new(),
        Vec::new(),
        FileDatabase::new(),
        mapping_of(b"icon-bytes"),
    );
    globals.push_file_entry(b"a.flac".to_vec(), mapping_of(b"contents of a"));
    globals.push_file_entry(b"b.flac".to_vec(), mapping_of(b"contents of b"));
    globals
}

#[test]
fn get_files_lists_names_as_plain_text() {
    let globals = globals_with_files();
    let req = request(HttpMethod::GET, b"/files", b"", b"");
    let mut sink = Vec::new();
    let action = handle_request(&globals, &req, b"local", b"peer", &mut sink).unwrap();
    assert!(matches!(action, DispatchAction::Done));
    assert_eq!(
        sink.as_slice(),
        b"HTTP/1.1 200 OK\r\nContent-Type: text/plain\r\n\r\na.flac\nb.flac\n".as_slice()
    );
}

#[test]
fn get_file_serves_attachment_bytes() {
    let globals = globals_with_files();
    let req = request(HttpMethod::GET, b"/file/a.flac", b"", b"");
    let mut sink = Vec::new();
    let action = handle_request(&globals, &req, b"local", b"peer", &mut sink).unwrap();
    assert!(matches!(action, DispatchAction::Done));
    let expected: &[u8] = b"HTTP/1.1 200 OK\r\nContent-Type: text/plain\r\nTransfer-Encoding: binary\r\nContent-Length: 13\r\nContent-Disposition: attachment; filename=a.flac; filename*=a.flac\r\n\r\ncontents of a";
    assert_eq!(sink.as_slice(), expected);
}

#[test]
fn get_unknown_file_is_not_found() {
    let globals = globals_with_files();
    let req = request(HttpMethod::GET, b"/file/missing", b"", b"");
    let mut sink = Vec::new();
    handle_request(&globals, &req, b"local", b"peer", &mut sink).unwrap();
    let expected: &[u8] = b"HTTP/1.1 404 Not Found\r\nContent-Type: text/html\r\n\r\n<body><h2>Route Undefined or Unavailable - 404</h2></body>";
    assert_eq!(sink.as_slice(), expected);
}

#[test]
fn unmatched_route_and_method_are_not_found() {
    let globals = globals_with_files();
    let mut sink = Vec::new();
    handle_request(
        &globals,
        &request(HttpMethod::GET, b"/nothing/here", b"", b""),
        b"local",
        b"peer",
        &mut sink,
    )
    .unwrap();
    assert!(sink.starts_with(b"HTTP/1.1 404 Not Found\r\n"));

    sink.clear();
    handle_request(
        &globals,
        &request(HttpMethod::ERASE, b"/files", b"", b""),
        b"local",
        b"peer",
        &mut sink,
    )
    .unwrap();
    assert!(sink.starts_with(b"HTTP/1.1 404 Not Found\r\n"));
}

#[test]
fn get_favicon_serves_icon_bytes() {
    let globals = globals_with_files();
    let req = request(HttpMethod::GET, b"/favicon.ico", b"", b"");
    let mut sink = Vec::new();
    handle_request(&globals, &req, b"local", b"peer", &mut sink).unwrap();
    let expected: &[u8] = b"HTTP/1.1 200 OK\r\nContent-Type: image/x-icon\r\nTransfer-Encoding: binary\r\nContent-Length: 10\r\n\r\nicon-bytes";
    assert_eq!(sink.as_slice(), expected);
}

#[test]
fn file_route_with_source_parameter_asks_for_proxy() {
    let globals = globals_with_files();
    let req = request(HttpMethod::GET, b"/file/a.flac", b"source=10.0.0.7", b"");
    let mut sink = Vec::new();
    let action = handle_request(&globals, &req, b"local", b"peer", &mut sink).unwrap();
    match action {
        DispatchAction::Proxy(addr, relay) => {
            assert_eq!(addr, PeerAddr::V4(10, 0, 0, 7));
            // The relayed request is the original with its query cleared.
            assert_eq!(relay.as_slice(), b"GET /file/a.flac HTTP/1.1\r\n\r\n".as_slice());
        },
        _ => panic!("expected a proxy action"),
    }
    assert!(sink.is_empty());
}

#[test]
fn file_route_with_bad_source_is_a_routing_error() {
    let globals = globals_with_files();
    let req = request(HttpMethod::GET, b"/file/a.flac", b"source=not-an-addr", b"");
    let mut sink = Vec::new();
    let action = handle_request(&globals, &req, b"local", b"peer", &mut sink).unwrap();
    assert!(matches!(action, DispatchAction::Done));
    let expected: &[u8] = b"HTTP/1.1 200 OK\r\n\r\n<h2>Routing Error</h2><p>failed to parse address from query parameter</p>";
    assert_eq!(sink.as_slice(), expected);
}

#[test]
fn peer_files_route_asks_for_fan_out() {
    let globals = globals_with_files();
    let req = request(HttpMethod::GET, b"/peer_files", b"", b"");
    let mut sink = Vec::new();
    let action = handle_request(&globals, &req, b"local", b"peer", &mut sink).unwrap();
    assert!(matches!(action, DispatchAction::FetchPeerFiles));
    assert!(sink.is_empty());
}

#[test]
fn peer_aggregation_keeps_responders_and_drops_errors() {
    // Peer A returns one file; peer B errored.  The aggregate carries
    // exactly one [address, filename] pair and reports success.
    let peer_a = PeerAddr::V4(10, 1, 1, 1);
    let results = vec![
        PeerFetch::Response(peer_a, b"HTTP/1.1 200 OK\r\n\r\nx.mp3\n".to_vec()),
        PeerFetch::Failed,
    ];
    let mut sink = Vec::new();
    serve_get_peer_files(&results, &mut sink);
    let expected: &[u8] = b"HTTP/1.1 200 OK\r\nContent-Type: application/json\r\n\r\n[[\"10.1.1.1\",\"x.mp3\"]]";
    assert_eq!(sink.as_slice(), expected);
}

#[test]
fn peer_aggregation_flattens_all_pairs() {
    let peer_a = PeerAddr::V4(10, 1, 1, 1);
    let peer_b = PeerAddr::V4(10, 2, 2, 2);
    let results = vec![
        PeerFetch::Response(peer_a, b"HTTP/1.1 200 OK\r\n\r\none\ntwo\n".to_vec()),
        PeerFetch::Response(peer_b, b"HTTP/1.1 200 OK\r\n\r\nthree\n".to_vec()),
    ];
    let mut sink = Vec::new();
    serve_get_peer_files(&results, &mut sink);
    let expected: &[u8] = b"HTTP/1.1 200 OK\r\nContent-Type: application/json\r\n\r\n[[\"10.1.1.1\",\"one\"],[\"10.1.1.1\",\"two\"],[\"10.2.2.2\",\"three\"]]";
    assert_eq!(sink.as_slice(), expected);
}

#[test]
fn get_peers_lists_addresses() {
    let globals = Globals::new(
        FileDatabase::new(),
        Vec::new(),
        vec![PeerAddr::V4(1, 2, 3, 4), PeerAddr::V6(0, 0, 0, 0, 0, 0, 0, 1)],
        FileDatabase::new(),
        mapping_of(b"icon"),
    );
    let req = request(HttpMethod::GET, b"/peers", b"", b"");
    let mut sink = Vec::new();
    handle_request(&globals, &req, b"local", b"peer", &mut sink).unwrap();
    assert_eq!(
        sink.as_slice(),
        b"HTTP/1.1 200 OK\r\nContent-Type: text/plain\r\n\r\n1.2.3.4\n0:0:0:0:0:0:0:1\n".as_slice()
    );
}

#[test]
fn post_peers_merges_addresses_silently() {
    let globals = globals_with_files();
    let req = request(HttpMethod::POST, b"/peers", b"", b"9.9.9.9\n8.8.8.8");
    let mut sink = Vec::new();
    let action = handle_request(&globals, &req, b"local", b"peer", &mut sink).unwrap();
    assert!(matches!(action, DispatchAction::Done));
    assert!(sink.is_empty());

    // The merged peers appear in the listing, in order and undeduplicated.
    let list_req = request(HttpMethod::GET, b"/peers", b"", b"");
    let mut listing = Vec::new();
    handle_request(&globals, &list_req, b"local", b"peer", &mut listing).unwrap();
    assert_eq!(
        listing.as_slice(),
        b"HTTP/1.1 200 OK\r\nContent-Type: text/plain\r\n\r\n9.9.9.9\n8.8.8.8\n".as_slice()
    );
}

#[test]
fn post_peers_with_bad_line_is_a_routing_error() {
    let globals = globals_with_files();
    let req = request(HttpMethod::POST, b"/peers", b"", b"9.9.9.9\nnot-an-address");
    let mut sink = Vec::new();
    handle_request(&globals, &req, b"local", b"peer", &mut sink).unwrap();
    let expected: &[u8] =
        b"HTTP/1.1 200 OK\r\n\r\n<h2>Routing Error</h2><p>unable to parse peer address</p>";
    assert_eq!(sink.as_slice(), expected);
}

#[test]
fn index_page_renders_template_with_swapped_addresses() {
    let mut statics = FileDatabase::new();
    statics.push_entry(
        b"./static/index.html".to_vec(),
        mapping_of(b"you:%peer_addr% me:%local_addr% files:%hosted_files%"),
    );
    let globals = Globals::new(
        FileDatabase::new(),
        Vec::new(),
        Vec::new(),
        statics,
        mapping_of(b"icon"),
    );
    globals.push_file_entry(b"f.txt".to_vec(), mapping_of(b"f"));
    let req = request(HttpMethod::GET, b"/", b"", b"");
    let mut sink = Vec::new();
    handle_request(&globals, &req, b"1.1.1.1:80", b"2.2.2.2:9", &mut sink).unwrap();
    // The peer_addr placeholder receives the local address and vice versa.
    let expected: &[u8] = b"HTTP/1.1 200 OK\r\nContent-Type: text/html\r\n\r\nyou:1.1.1.1:80 me:2.2.2.2:9 files:<a href=\"/file/f.txt\">f.txt</a><br />";
    assert_eq!(sink.as_slice(), expected);
}

#[test]
fn index_without_asset_aborts_the_connection() {
    let globals = globals_with_files();
    let req = request(HttpMethod::GET, b"/", b"", b"");
    let mut sink = Vec::new();
    assert!(handle_request(&globals, &req, b"l", b"p", &mut sink).is_err());
    assert!(sink.is_empty());
}

#[test]
fn playlist_page_renders_track_entries() {
    let mut statics = FileDatabase::new();
    statics.push_entry(
        b"./static/playlist.html".to_vec(),
        mapping_of(b"%playlist_name%: [%playlist_songs%]"),
    );
    let globals = Globals::new(
        FileDatabase::new(),
        Vec::new(),
        Vec::new(),
        statics,
        mapping_of(b"icon"),
    );
    let mut tracks = FileDatabase::new();
    tracks.push_entry(b"/music/jazz/one.flac".to_vec(), mapping_of(b"t1"));
    tracks.push_entry(b"/music/jazz/two.flac".to_vec(), mapping_of(b"t2"));
    globals.push_playlist_directory(b"/music/jazz".to_vec(), tracks);

    let req = request(HttpMethod::GET, b"/playlist", b"playlist=jazz", b"");
    let mut sink = Vec::new();
    handle_request(&globals, &req, b"l", b"p", &mut sink).unwrap();
    let expected: &[u8] = b"HTTP/1.1 200 OK\r\nContent-Type: text/html\r\n\r\njazz: [\"one.flac\",\"two.flac\",]";
    assert_eq!(sink.as_slice(), expected);
}

#[test]
fn playlist_song_serves_inline_audio() {
    let globals = Globals::new(
        FileDatabase::new(),
        Vec::new(),
        Vec::new(),
        FileDatabase::new(),
        mapping_of(b"icon"),
    );
    let mut tracks = FileDatabase::new();
    tracks.push_entry(b"one.flac".to_vec(), mapping_of(b"first track"));
    tracks.push_entry(b"two.flac".to_vec(), mapping_of(b"second track"));
    globals.push_playlist_directory(b"jazz".to_vec(), tracks);

    let req = request(
        HttpMethod::GET,
        b"/playlist/songs",
        b"playlist=jazz&song_number=1",
        b"",
    );
    let mut sink = Vec::new();
    handle_request(&globals, &req, b"l", b"p", &mut sink).unwrap();
    let expected: &[u8] = b"HTTP/1.1 200 OK\r\nContent-Type: audio/flac\r\nContent-Disposition: inline\r\nContent-Length: 12\r\nTransfer-Encoding: binary\r\n\r\nsecond track";
    assert_eq!(sink.as_slice(), expected);
}

#[test]
fn playlist_duplicate_parameter_is_a_routing_error() {
    let globals = globals_with_files();
    let req = request(HttpMethod::GET, b"/playlist", b"playlist=a&playlist=b", b"");
    let mut sink = Vec::new();
    handle_request(&globals, &req, b"l", b"p", &mut sink).unwrap();
    let expected: &[u8] = b"HTTP/1.1 200 OK\r\n\r\n<h2>Routing Error</h2><p>duplicate query paramter: playlist=b</p>";
    assert_eq!(sink.as_slice(), expected);
}

#[test]
fn unknown_playlist_is_a_routing_error() {
    let globals = globals_with_files();
    let req = request(HttpMethod::GET, b"/playlist", b"playlist=missing", b"");
    let mut sink = Vec::new();
    handle_request(&globals, &req, b"l", b"p", &mut sink).unwrap();
    let expected: &[u8] =
        b"HTTP/1.1 200 OK\r\n\r\n<h2>Routing Error</h2><p>Unable to fetch playlist missing</p>";
    assert_eq!(sink.as_slice(), expected);
}
