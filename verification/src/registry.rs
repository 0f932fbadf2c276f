//! The content registry: named memory-mapped files, directory-backed
//! playlists and peer addresses, each behind its own reader-writer lock, and
//! immutable static assets.  Readers only ever see a complete, well-formed
//! registry value: the lock invariants carry well-formedness, and a writer
//! exchanges one complete value for another.

use vstd::prelude::*;
use vstd::rwlock::{ReadHandle, RwLock};
use crate::bytes::{spec_ends_with, spec_index_of, vec_byte_views};
use crate::peers::PeerAddr;

verus! {

/// The bytes a mapping presents.  A mapping's contents are fixed once the
/// file is mapped; the backing file must not change while mapped, a caveat
/// this design documents rather than solves.
pub uninterp spec fn mapping_bytes(m: memmap2::Mmap) -> Seq<u8>;

#[verifier::external_type_specification]
#[verifier::external_body]
pub struct ExMmap(memmap2::Mmap);

/// Relies on memmap2::Mmap's dereference to `[u8]`: the mapped bytes, read
/// in place without copying.
#[verifier::external_body]
pub fn mapping_slice(m: &memmap2::Mmap) -> (r: &[u8])
    ensures
        r@ == mapping_bytes(*m),
{
    m.as_ref()
}

/// The index of the first name in `names` that ends with `suffix`, or `-1`.
pub open spec fn spec_suffix_index(names: Seq<Seq<u8>>, suffix: Seq<u8>) -> int
    decreases names.len(),
{
    if names.len() == 0 {
        -1
    } else if spec_ends_with(names[0], suffix) {
        0
    } else {
        let rest = spec_suffix_index(names.skip(1), suffix);
        if rest < 0 {
            -1
        } else {
            rest + 1
        }
    }
}

/// A name that matches first at `j` is the one the suffix search finds.
proof fn lemma_suffix_index_first(names: Seq<Seq<u8>>, suffix: Seq<u8>, j: int)
    requires
        0 <= j < names.len(),
        spec_ends_with(names[j], suffix),
        forall|l: int| 0 <= l < j ==> !spec_ends_with(#[trigger] names[l], suffix),
    ensures
        spec_suffix_index(names, suffix) == j,
    decreases j,
{
    if j > 0 {
        lemma_suffix_index_first(names.skip(1), suffix, j - 1);
    }
}

/// With no matching name, the suffix search finds nothing.
proof fn lemma_suffix_index_none(names: Seq<Seq<u8>>, suffix: Seq<u8>)
    requires
        forall|l: int| 0 <= l < names.len() ==> !spec_ends_with(#[trigger] names[l], suffix),
    ensures
        spec_suffix_index(names, suffix) == -1,
    decreases names.len(),
{
    if names.len() > 0 {
        lemma_suffix_index_none(names.skip(1), suffix);
    }
}

/// An ordered store of file names and their mapped contents.  Name
/// uniqueness is not enforced; lookups return the first match.
pub struct FileDatabase {
    pub filenames: Vec<Vec<u8>>,
    pub file_contents: Vec<memmap2::Mmap>,
}

impl FileDatabase {
    /// Every name has contents and vice versa.
    pub open spec fn wf(&self) -> bool {
        self.filenames@.len() == self.file_contents@.len()
    }

    /// The stored names, in order.
    pub open spec fn names(&self) -> Seq<Seq<u8>> {
        vec_byte_views(self.filenames@)
    }

    /// The stored contents, in order.
    pub open spec fn contents(&self) -> Seq<Seq<u8>> {
        self.file_contents@.map_values(|m: memmap2::Mmap| mapping_bytes(m))
    }

    pub fn new() -> (r: Self)
        ensures
            r.wf(),
            r.names() == Seq::<Seq<u8>>::empty(),
            r.file_contents@ == Seq::<memmap2::Mmap>::empty(),
    {
        let r = FileDatabase { filenames: Vec::new(), file_contents: Vec::new() };
        proof {
            assert(r.names() =~= Seq::<Seq<u8>>::empty());
        }
        r
    }

    /// Appends one entry; an existing entry under the same name is kept and
    /// keeps winning lookups.
    pub fn push_entry(&mut self, filename: Vec<u8>, filemap: memmap2::Mmap)
        ensures
            final(self).names() == old(self).names().push(filename@),
            final(self).file_contents@ == old(self).file_contents@.push(filemap),
            old(self).wf() ==> final(self).wf(),
    {
        self.filenames.push(filename);
        self.file_contents.push(filemap);
        proof {
            assert(self.names() =~= old(self).names().push(filename@));
        }
    }

    /// The mapping of the first entry named `name`, if any.
    pub fn get_by_name(&self, name: &[u8]) -> (r: Option<&memmap2::Mmap>)
        requires
            self.wf(),
        ensures
            match r {
                Some(m) => 0 <= spec_index_of(self.names(), name@) < self.names().len() && *m
                    == self.file_contents@[spec_index_of(self.names(), name@)],
                None => spec_index_of(self.names(), name@) == -1,
            },
    {
        match crate::bytes::index_of(&self.filenames, name) {
            Some(i) => Some(&self.file_contents[i]),
            None => None,
        }
    }

    /// The mapping of the first entry whose name ends with `suffix`, if any:
    /// static assets are looked up by path suffix, not exact name, and the
    /// earliest matching entry wins.
    pub fn get_by_suffix(&self, suffix: &[u8]) -> (r: Option<&memmap2::Mmap>)
        requires
            self.wf(),
        ensures
            match r {
                Some(m) => 0 <= spec_suffix_index(self.names(), suffix@) < self.names().len()
                    && *m == self.file_contents@[spec_suffix_index(self.names(), suffix@)],
                None => spec_suffix_index(self.names(), suffix@) == -1 && (forall|i: int|
                    0 <= i < self.names().len() ==> !spec_ends_with(
                        #[trigger] self.names()[i],
                        suffix@,
                    )),
            },
    {
        let mut j: usize = 0;
        while j < self.filenames.len()
            invariant
                self.wf(),
                j <= self.names().len(),
                forall|i: int| 0 <= i < j ==> !spec_ends_with(#[trigger] self.names()[i], suffix@),
            decreases self.names().len() - j,
        {
            if crate::bytes::ends_with(self.filenames[j].as_slice(), suffix) {
                proof {
                    assert(spec_ends_with(self.names()[j as int], suffix@));
                    lemma_suffix_index_first(self.names(), suffix@, j as int);
                }
                return Some(&self.file_contents[j]);
            }
            j = j + 1;
        }
        proof {
            lemma_suffix_index_none(self.names(), suffix@);
        }
        None
    }
}

/// A directory-backed list of tracks with a derived display name.
pub struct Playlist {
    pub directory: Vec<u8>,
    pub name: Vec<u8>,
    pub files: FileDatabase,
}

impl Playlist {
    pub open spec fn wf(&self) -> bool {
        self.files.wf()
    }

    /// Builds a playlist from its source directory path and its already
    /// mapped tracks; the display name is the path's final segment.
    pub fn from_parts(directory: Vec<u8>, files: FileDatabase) -> (r: Playlist)
        requires
            files.wf(),
        ensures
            r.wf(),
            r.directory@ == directory@,
            r.name@ == crate::bytes::spec_last_segment(directory@, '/' as u8),
            r.files.names() == files.names(),
            r.files.file_contents@ == files.file_contents@,
    {
        let seg = crate::bytes::last_segment(directory.as_slice(), '/' as u8);
        let mut name: Vec<u8> = Vec::new();
        crate::bytes::append_bytes(&mut name, seg);
        proof {
            assert(name@ =~= seg@);
        }
        Playlist { directory, name, files }
    }
}

/// The contents of the first file named `name` in `db`, if any.
pub open spec fn file_lookup(db: FileDatabase, name: Seq<u8>) -> Option<Seq<u8>> {
    let i = spec_index_of(db.names(), name);
    if i >= 0 {
        Some(db.contents()[i])
    } else {
        None
    }
}

/// Every playlist in the list is well formed.
pub open spec fn playlists_wf(ps: Seq<Playlist>) -> bool {
    forall|i: int| 0 <= i < ps.len() ==> (#[trigger] ps[i]).wf()
}

/// The display names of a list of playlists.
pub open spec fn playlist_names(ps: Seq<Playlist>) -> Seq<Seq<u8>> {
    ps.map_values(|p: Playlist| p.name@)
}

/// The source directory paths of a list of playlists.
pub open spec fn playlist_directories(ps: Seq<Playlist>) -> Seq<Seq<u8>> {
    ps.map_values(|p: Playlist| p.directory@)
}

/// The contents of the track at `song_number` (zero-based) in the first
/// playlist of `ps` named `name`: `None` for an unknown name or an
/// out-of-range index.
pub open spec fn song_lookup(ps: Seq<Playlist>, name: Seq<u8>, song_number: u32) -> Option<
    Seq<u8>,
> {
    let i = spec_index_of(playlist_names(ps), name);
    if 0 <= i < ps.len() {
        let tracks = ps[i].files.contents();
        if song_number < tracks.len() {
            Some(tracks[song_number as int])
        } else {
            None
        }
    } else {
        None
    }
}

/// The index of the first playlist named `name`, if any.
pub fn find_playlist(playlists: &Vec<Playlist>, name: &[u8]) -> (r: Option<usize>)
    ensures
        match r {
            Some(i) => spec_index_of(playlist_names(playlists@), name@) == i as int && i
                < playlists@.len(),
            None => spec_index_of(playlist_names(playlists@), name@) == -1,
        },
{
    let ghost views = playlist_names(playlists@);
    let mut j: usize = 0;
    while j < playlists.len()
        invariant
            j <= playlists@.len(),
            views == playlist_names(playlists@),
            forall|l: int| 0 <= l < j ==> views[l] != name@,
        decreases playlists@.len() - j,
    {
        if crate::bytes::bytes_eq(playlists[j].name.as_slice(), name) {
            proof {
                crate::bytes::lemma_index_of_first(views, name@, j as int);
            }
            return Some(j);
        }
        j = j + 1;
    }
    proof {
        crate::bytes::lemma_index_of_none(views, name@);
    }
    None
}

/// The aggregate registry: one instance per process, constructed once at
/// startup and shared by every connection handler.  Files, playlists and
/// peers are independently guarded; static assets and the favicon are
/// immutable after construction.
pub struct Globals {
    file_entries: RwLock<FileDatabase, spec_fn(FileDatabase) -> bool>,
    playlists: RwLock<Vec<Playlist>, spec_fn(Vec<Playlist>) -> bool>,
    peers: RwLock<Vec<PeerAddr>, spec_fn(Vec<PeerAddr>) -> bool>,
    static_files: FileDatabase,
    favicon: memmap2::Mmap,
}

impl Globals {
    /// The lock invariants carry exactly well-formedness, so every reader
    /// sees a complete registry value and never a torn one.
    /// The stored names of the immutable static assets.
    pub closed spec fn static_names(&self) -> Seq<Seq<u8>> {
        self.static_files.names()
    }

    /// The contents of the immutable static assets.
    pub closed spec fn static_contents(&self) -> Seq<Seq<u8>> {
        self.static_files.contents()
    }

    /// The bytes of the favicon mapping.
    pub closed spec fn favicon_bytes(&self) -> Seq<u8> {
        mapping_bytes(self.favicon)
    }

    /// The favicon's mapping.
    pub fn favicon(&self) -> (r: &memmap2::Mmap)
        ensures
            mapping_bytes(*r) == self.favicon_bytes(),
    {
        &self.favicon
    }

    pub closed spec fn wf(&self) -> bool {
        &&& forall|db: FileDatabase| self.file_entries.inv(db) == db.wf()
        &&& forall|ps: Vec<Playlist>| self.playlists.inv(ps) == playlists_wf(ps@)
        &&& forall|peers: Vec<PeerAddr>| self.peers.inv(peers)
        &&& self.static_files.wf()
    }

    pub fn new(
        file_entries: FileDatabase,
        playlists: Vec<Playlist>,
        peers: Vec<PeerAddr>,
        static_files: FileDatabase,
        favicon: memmap2::Mmap,
    ) -> (r: Globals)
        requires
            file_entries.wf(),
            playlists_wf(playlists@),
            static_files.wf(),
        ensures
            r.wf(),
    {
        Globals {
            file_entries: RwLock::new(
                file_entries,
                Ghost(|db: FileDatabase| db.wf()),
            ),
            playlists: RwLock::new(
                playlists,
                Ghost(|ps: Vec<Playlist>| playlists_wf(ps@)),
            ),
            peers: RwLock::new(peers, Ghost(|peers: Vec<PeerAddr>| true)),
            static_files,
            favicon,
        }
    }

    /// Takes a shared read lock on the file entries; the value seen is well
    /// formed.
    pub fn read_file_entries(&self) -> (r: ReadHandle<'_, FileDatabase, spec_fn(
        FileDatabase,
    ) -> bool>)
        requires
            self.wf(),
        ensures
            r@.wf(),
    {
        self.file_entries.acquire_read()
    }

    /// Takes a shared read lock on the playlists; every playlist seen is
    /// well formed.
    pub fn read_playlists(&self) -> (r: ReadHandle<'_, Vec<Playlist>, spec_fn(
        Vec<Playlist>,
    ) -> bool>)
        requires
            self.wf(),
        ensures
            playlists_wf(r@@),
    {
        self.playlists.acquire_read()
    }

    /// Takes a shared read lock on the peer list.
    pub fn read_peers(&self) -> (r: ReadHandle<'_, Vec<PeerAddr>, spec_fn(Vec<PeerAddr>) -> bool>)
        requires
            self.wf(),
    {
        self.peers.acquire_read()
    }

    /// A snapshot of the stored file names, copied out under a shared lock:
    /// the names of one complete, well-formed registry value.
    pub fn get_file_entry_names(&self) -> (r: Vec<Vec<u8>>)
        requires
            self.wf(),
        ensures
            exists|db: FileDatabase| db.wf() && vec_byte_views(r@) == #[trigger] db.names(),
    {
        let handle = self.read_file_entries();
        let db = handle.borrow();
        let mut names: Vec<Vec<u8>> = Vec::new();
        let mut i: usize = 0;
        while i < db.filenames.len()
            invariant
                i <= db.filenames@.len(),
                vec_byte_views(names@) == db.names().subrange(0, i as int),
            decreases db.filenames@.len() - i,
        {
            let mut copy: Vec<u8> = Vec::new();
            crate::bytes::append_bytes(&mut copy, db.filenames[i].as_slice());
            proof {
                assert(copy@ =~= db.filenames@[i as int]@);
            }
            let ghost prev = names@;
            names.push(copy);
            i = i + 1;
            proof {
                assert(vec_byte_views(prev) == db.names().subrange(0, i - 1));
                assert(prev.len() == i - 1) by {
                    assert(vec_byte_views(prev).len() == prev.len());
                }
                assert(names@ == prev.push(copy));
                assert forall|j: int| 0 <= j < i implies vec_byte_views(names@)[j]
                    == db.names()[j] by {
                    assert(vec_byte_views(names@)[j] == names@[j]@);
                    if j < i - 1 {
                        assert(names@[j] == prev[j]);
                        assert(vec_byte_views(prev)[j] == prev[j]@);
                        assert(vec_byte_views(prev)[j] == db.names().subrange(0, i - 1)[j]);
                    } else {
                        assert(names@[j] == copy);
                        assert(db.names()[j] == db.filenames@[j]@);
                    }
                }
                assert(vec_byte_views(names@) =~= db.names().subrange(0, i as int));
            }
        }
        proof {
            assert(db.names().subrange(0, db.filenames@.len() as int) =~= db.names());
        }
        let ghost snapshot = *db;
        handle.release_read();
        proof {
            assert(snapshot.wf() && vec_byte_views(names@) == snapshot.names());
        }
        names
    }

    /// A snapshot of the playlist display names, copied out under a shared
    /// lock: the names of one complete, well-formed playlist list.
    pub fn get_playlist_names(&self) -> (r: Vec<Vec<u8>>)
        requires
            self.wf(),
        ensures
            exists|ps: Seq<Playlist>|
                playlists_wf(ps) && vec_byte_views(r@) == #[trigger] playlist_names(ps),
    {
        let handle = self.read_playlists();
        let ps = handle.borrow();
        let ghost snapshot = ps@;
        let mut names: Vec<Vec<u8>> = Vec::new();
        let mut i: usize = 0;
        while i < ps.len()
            invariant
                i <= ps@.len(),
                ps@ == snapshot,
                vec_byte_views(names@) == playlist_names(snapshot).subrange(0, i as int),
            decreases ps@.len() - i,
        {
            let mut copy: Vec<u8> = Vec::new();
            crate::bytes::append_bytes(&mut copy, ps[i].name.as_slice());
            proof {
                assert(copy@ =~= ps@[i as int].name@);
            }
            let ghost prev = names@;
            names.push(copy);
            i = i + 1;
            proof {
                assert(vec_byte_views(prev) == playlist_names(snapshot).subrange(0, i - 1));
                assert(prev.len() == i - 1) by {
                    assert(vec_byte_views(prev).len() == prev.len());
                }
                assert(names@ == prev.push(copy));
                assert forall|j: int| 0 <= j < i implies vec_byte_views(names@)[j]
                    == playlist_names(snapshot)[j] by {
                    assert(vec_byte_views(names@)[j] == names@[j]@);
                    if j < i - 1 {
                        assert(names@[j] == prev[j]);
                        assert(vec_byte_views(prev)[j] == prev[j]@);
                        assert(vec_byte_views(prev)[j] == playlist_names(snapshot).subrange(
                            0,
                            i - 1,
                        )[j]);
                    } else {
                        assert(names@[j] == copy);
                        assert(playlist_names(snapshot)[j] == snapshot[j].name@);
                    }
                }
                assert(vec_byte_views(names@) =~= playlist_names(snapshot).subrange(0, i as int));
            }
        }
        proof {
            assert(playlist_names(snapshot).subrange(0, snapshot.len() as int) =~= playlist_names(
                snapshot,
            ));
        }
        handle.release_read();
        names
    }

    /// A snapshot of the playlist source directory paths, copied out under
    /// a shared lock: what a startup manifest needs to rebuild the same
    /// playlists.
    pub fn get_playlist_directories(&self) -> (r: Vec<Vec<u8>>)
        requires
            self.wf(),
        ensures
            exists|ps: Seq<Playlist>|
                playlists_wf(ps) && vec_byte_views(r@) == #[trigger] playlist_directories(ps),
    {
        let handle = self.read_playlists();
        let ps = handle.borrow();
        let ghost snapshot = ps@;
        let mut dirs: Vec<Vec<u8>> = Vec::new();
        let mut i: usize = 0;
        while i < ps.len()
            invariant
                i <= ps@.len(),
                ps@ == snapshot,
                vec_byte_views(dirs@) == playlist_directories(snapshot).subrange(0, i as int),
            decreases ps@.len() - i,
        {
            let mut copy: Vec<u8> = Vec::new();
            crate::bytes::append_bytes(&mut copy, ps[i].directory.as_slice());
            proof {
                assert(copy@ =~= ps@[i as int].directory@);
            }
            let ghost prev = dirs@;
            dirs.push(copy);
            i = i + 1;
            proof {
                assert(vec_byte_views(prev) == playlist_directories(snapshot).subrange(0, i - 1));
                assert(prev.len() == i - 1) by {
                    assert(vec_byte_views(prev).len() == prev.len());
                }
                assert(dirs@ == prev.push(copy));
                assert forall|j: int| 0 <= j < i implies vec_byte_views(dirs@)[j]
                    == playlist_directories(snapshot)[j] by {
                    assert(vec_byte_views(dirs@)[j] == dirs@[j]@);
                    if j < i - 1 {
                        assert(dirs@[j] == prev[j]);
                        assert(vec_byte_views(prev)[j] == prev[j]@);
                        assert(vec_byte_views(prev)[j] == playlist_directories(snapshot).subrange(
                            0,
                            i - 1,
                        )[j]);
                    } else {
                        assert(dirs@[j] == copy);
                        assert(playlist_directories(snapshot)[j] == snapshot[j].directory@);
                    }
                }
                assert(vec_byte_views(dirs@) =~= playlist_directories(snapshot).subrange(
                    0,
                    i as int,
                ));
            }
        }
        proof {
            assert(playlist_directories(snapshot).subrange(0, snapshot.len() as int)
                =~= playlist_directories(snapshot));
        }
        handle.release_read();
        dirs
    }

    /// The contents of the first file named `name`, copied out under a
    /// shared lock, or `None` when no stored name matches.
    pub fn get_file_entry_by_name(&self, name: &[u8]) -> (r: Option<Vec<u8>>)
        requires
            self.wf(),
        ensures
            match r {
                Some(bytes) => exists|db: FileDatabase|
                    db.wf() && #[trigger] file_lookup(db, name@) == Some(bytes@),
                None => exists|db: FileDatabase|
                    db.wf() && #[trigger] file_lookup(db, name@) == None::<Seq<u8>>,
            },
    {
        let handle = self.read_file_entries();
        let db = handle.borrow();
        let ghost snapshot = *db;
        let r = match db.get_by_name(name) {
            Some(m) => {
                let mut bytes: Vec<u8> = Vec::new();
                crate::bytes::append_bytes(&mut bytes, mapping_slice(m));
                proof {
                    let i = spec_index_of(snapshot.names(), name@);
                    assert(snapshot.contents()[i] == mapping_bytes(snapshot.file_contents@[i]));
                    assert(bytes@ =~= snapshot.contents()[i]);
                    assert(file_lookup(snapshot, name@) == Some(bytes@));
                }
                Some(bytes)
            },
            None => {
                proof {
                    assert(file_lookup(snapshot, name@) == None::<Seq<u8>>);
                }
                None
            },
        };
        handle.release_read();
        r
    }

    /// Appends one file entry under an exclusive lock.  Duplicate names are
    /// permitted; the earlier entry keeps winning lookups.
    pub fn push_file_entry(&self, name: Vec<u8>, filemap: memmap2::Mmap)
        requires
            self.wf(),
    {
        let (mut db, handle) = self.file_entries.acquire_write();
        db.push_entry(name, filemap);
        handle.release_write(db);
    }

    /// Appends a whole playlist atomically under an exclusive lock; its
    /// display name is the directory path's final segment.
    pub fn push_playlist_directory(&self, directory: Vec<u8>, files: FileDatabase)
        requires
            self.wf(),
            files.wf(),
    {
        let playlist = Playlist::from_parts(directory, files);
        let (mut ps, handle) = self.playlists.acquire_write();
        let ghost before = ps@;
        ps.push(playlist);
        proof {
            assert forall|i: int| 0 <= i < ps@.len() implies (#[trigger] ps@[i]).wf() by {
                if i < ps@.len() - 1 {
                    assert(ps@[i] == before[i]);
                } else {
                    assert(ps@[i] == playlist);
                }
            }
        }
        handle.release_write(ps);
    }

    /// The contents of the track at `song_number` (zero-based) in the first
    /// playlist named `playlist_name`, copied out under a shared lock;
    /// `None` for an unknown name or an out-of-range index.
    pub fn get_song_by_playlist_and_index(&self, playlist_name: &[u8], song_number: u32) -> (r:
        Option<Vec<u8>>)
        requires
            self.wf(),
        ensures
            match r {
                Some(bytes) => exists|ps: Seq<Playlist>|
                    playlists_wf(ps) && #[trigger] song_lookup(ps, playlist_name@, song_number)
                        == Some(bytes@),
                None => exists|ps: Seq<Playlist>|
                    playlists_wf(ps) && #[trigger] song_lookup(ps, playlist_name@, song_number)
                        == None::<Seq<u8>>,
            },
    {
        let handle = self.read_playlists();
        let ps = handle.borrow();
        let ghost snapshot = ps@;
        let r = match find_playlist(ps, playlist_name) {
            Some(i) => {
                let playlist = &ps[i];
                let count = playlist.files.file_contents.len();
                if (song_number as usize) < count {
                    let m = &playlist.files.file_contents[song_number as usize];
                    let mut bytes: Vec<u8> = Vec::new();
                    crate::bytes::append_bytes(&mut bytes, mapping_slice(m));
                    proof {
                        assert(bytes@ =~= snapshot[i as int].files.contents()[song_number as int]);
                        assert(song_lookup(snapshot, playlist_name@, song_number) == Some(bytes@));
                    }
                    Some(bytes)
                } else {
                    proof {
                        assert(song_lookup(snapshot, playlist_name@, song_number) == None::<
                            Seq<u8>,
                        >);
                    }
                    None
                }
            },
            None => {
                proof {
                    assert(song_lookup(snapshot, playlist_name@, song_number) == None::<Seq<u8>>);
                }
                None
            },
        };
        handle.release_read();
        r
    }

    /// The first static asset whose stored path ends with `filename`, so a
    /// request for a bare file name matches its on-disk path; under several
    /// matching paths the earliest stored one wins.
    pub fn get_static_file(&self, filename: &[u8]) -> (r: Option<&memmap2::Mmap>)
        requires
            self.wf(),
        ensures
            match r {
                Some(m) => 0 <= spec_suffix_index(self.static_names(), filename@)
                    < self.static_names().len() && mapping_bytes(*m) == self.static_contents()[
                    spec_suffix_index(self.static_names(), filename@)
                ],
                None => spec_suffix_index(self.static_names(), filename@) == -1 && (forall|i: int|
                    0 <= i < self.static_names().len() ==> !spec_ends_with(
                        #[trigger] self.static_names()[i],
                        filename@,
                    )),
            },
    {
        match self.static_files.get_by_suffix(filename) {
            Some(m) => {
                proof {
                    let i = spec_suffix_index(self.static_files.names(), filename@);
                    assert(self.static_files.wf());
                    assert(mapping_bytes(*m) == self.static_contents()[i]);
                }
                Some(m)
            },
            None => None,
        }
    }

    /// A snapshot of the known peer addresses, copied out under a shared
    /// lock.
    pub fn get_peer_list(&self) -> (r: Vec<PeerAddr>)
        requires
            self.wf(),
    {
        let handle = self.read_peers();
        let peers = handle.borrow();
        let mut out: Vec<PeerAddr> = Vec::new();
        let mut i: usize = 0;
        while i < peers.len()
            decreases peers@.len() - i,
        {
            out.push(peers[i]);
            i = i + 1;
        }
        handle.release_read();
        out
    }

    /// Appends a peer address under an exclusive lock, without
    /// deduplication.
    pub fn push_peer(&self, peer: PeerAddr)
        requires
            self.wf(),
    {
        let (mut peers, handle) = self.peers.acquire_write();
        peers.push(peer);
        handle.release_write(peers);
    }
}

} // verus!
