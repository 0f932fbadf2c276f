//! Tests of the content registry and peer addresses, with real memory
//! mappings backing the stored files.

use localshare::peers::PeerAddr;
use localshare::registry::{FileDatabase, Globals};

/// An anonymous read-only mapping holding `bytes`.
fn mapping_of(bytes: &[u8]) -> memmap2::Mmap {
    let mut writable = memmap2::MmapMut::map_anon(bytes.len()).expect("anonymous mapping");
    writable[..bytes.len()].copy_from_slice(bytes);
    writable.make_read_only().expect("read-only mapping")
}

fn empty_globals() -> Globals {
    Globals::new(
        FileDatabase::new(),
        Vec::new(),
        Vec::new(),
        FileDatabase::new(),
        mapping_of(b"icon"),
    )
}

#[test]
fn first_added_file_wins_lookup() {
    let globals = empty_globals();
    globals.push_file_entry(b"a.txt".to_vec(), mapping_of(b"contents of a"));
    globals.push_file_entry(b"b.txt".to_vec(), mapping_of(b"contents of b"));
    globals.push_file_entry(b"a.txt".to_vec(), mapping_of(b"a shadowed duplicate"));

    let found = globals.get_file_entry_by_name(b"a.txt").expect("a.txt is registered");
    assert_eq!(found.as_slice(), b"contents of a");
    let found_b = globals.get_file_entry_by_name(b"b.txt").expect("b.txt is registered");
    assert_eq!(found_b.as_slice(), b"contents of b");
    assert!(globals.get_file_entry_by_name(b"c.txt").is_none());

    let names = globals.get_file_entry_names();
    assert_eq!(names.len(), 3);
    assert_eq!(names[0].as_slice(), b"a.txt");
    assert_eq!(names[1].as_slice(), b"b.txt");
    assert_eq!(names[2].as_slice(), b"a.txt");
}

#[test]
fn playlist_tracks_are_addressed_by_index() {
    let globals = empty_globals();
    let mut tracks = FileDatabase::new();
    tracks.push_entry(b"one.flac".to_vec(), mapping_of(b"track one"));
    tracks.push_entry(b"two.flac".to_vec(), mapping_of(b"track two"));
    tracks.push_entry(b"three.flac".to_vec(), mapping_of(b"track three"));
    globals.push_playlist_directory(b"/music/jazz".to_vec(), tracks);

    let third = globals
        .get_song_by_playlist_and_index(b"jazz", 2)
        .expect("the playlist has a third track");
    assert_eq!(third.as_slice(), b"track three");
    assert!(globals.get_song_by_playlist_and_index(b"jazz", 9).is_none());
    assert!(globals.get_song_by_playlist_and_index(b"unknown", 0).is_none());

    let names = globals.get_playlist_names();
    assert_eq!(names.len(), 1);
    assert_eq!(names[0].as_slice(), b"jazz");
}

#[test]
fn playlist_name_is_final_path_segment() {
    let globals = empty_globals();
    let mut tracks = FileDatabase::new();
    tracks.push_entry(b"t.flac".to_vec(), mapping_of(b"t"));
    globals.push_playlist_directory(b"plain".to_vec(), tracks);
    let names = globals.get_playlist_names();
    assert_eq!(names[0].as_slice(), b"plain");
}

#[test]
fn static_assets_match_by_path_suffix() {
    let mut statics = FileDatabase::new();
    statics.push_entry(b"./static/index.html".to_vec(), mapping_of(b"<html></html>"));
    let globals = Globals::new(
        FileDatabase::new(),
        Vec::new(),
        Vec::new(),
        statics,
        mapping_of(b"icon"),
    );
    assert!(globals.get_static_file(b"index.html").is_some());
    assert!(globals.get_static_file(b"missing.html").is_none());
}

#[test]
fn peer_addresses_render_and_parse() {
    let addr = PeerAddr::V4(192, 168, 0, 17);
    let mut text = Vec::new();
    addr.append_to(&mut text);
    assert_eq!(text.as_slice(), b"192.168.0.17");
    assert_eq!(PeerAddr::parse(text.as_slice()), Some(addr));

    assert_eq!(PeerAddr::parse(b"1.2.3"), None);
    assert_eq!(PeerAddr::parse(b"1.2.3.4.5"), None);
    assert_eq!(PeerAddr::parse(b"1.2.3.256"), None);
    assert_eq!(PeerAddr::parse(b"a.b.c.d"), None);
    assert_eq!(PeerAddr::parse(b""), None);
}

#[test]
fn v6_peer_addresses_render_and_parse() {
    let addr = PeerAddr::V6(0xfe80, 0, 0, 0, 0x1ff, 0xfe23, 0x4567, 0x890a);
    let mut text = Vec::new();
    addr.append_to(&mut text);
    assert_eq!(text.as_slice(), b"fe80:0:0:0:1ff:fe23:4567:890a");
    assert_eq!(PeerAddr::parse(text.as_slice()), Some(addr));

    // A single `::` stands for the elided zero groups.
    assert_eq!(
        PeerAddr::parse(b"fe80::1ff:fe23:4567:890a"),
        Some(PeerAddr::V6(0xfe80, 0, 0, 0, 0x1ff, 0xfe23, 0x4567, 0x890a))
    );
    assert_eq!(PeerAddr::parse(b"::1"), Some(PeerAddr::V6(0, 0, 0, 0, 0, 0, 0, 1)));
    assert_eq!(PeerAddr::parse(b"1::"), Some(PeerAddr::V6(1, 0, 0, 0, 0, 0, 0, 0)));
    assert_eq!(PeerAddr::parse(b"::"), Some(PeerAddr::V6(0, 0, 0, 0, 0, 0, 0, 0)));
    assert_eq!(
        PeerAddr::parse(b"1:2:3:4:5:6:7::"),
        Some(PeerAddr::V6(1, 2, 3, 4, 5, 6, 7, 0))
    );
    assert_eq!(
        PeerAddr::parse(b"A:B:C:D:E:F:10:11"),
        Some(PeerAddr::V6(10, 11, 12, 13, 14, 15, 16, 17))
    );

    assert_eq!(PeerAddr::parse(b"1:2:3"), None);
    assert_eq!(PeerAddr::parse(b"1:2:3:4:5:6:7:8:9"), None);
    assert_eq!(PeerAddr::parse(b"1::2::3"), None);
    assert_eq!(PeerAddr::parse(b"1:2:3:4:5:6:7:8::"), None);
    assert_eq!(PeerAddr::parse(b"10000::"), None);
    assert_eq!(PeerAddr::parse(b":1:2:3:4:5:6:7"), None);
}

#[test]
fn duplicate_file_names_are_permitted() {
    // Name uniqueness is not enforced: both entries stay, and the listing
    // shows both.
    let mut db = FileDatabase::new();
    db.push_entry(b"same".to_vec(), mapping_of(b"first"));
    db.push_entry(b"same".to_vec(), mapping_of(b"second"));
    assert_eq!(db.filenames.len(), 2);
    let found = db.get_by_name(b"same").expect("present");
    assert_eq!(localshare::registry::mapping_slice(found), b"first");
}
