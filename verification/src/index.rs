//! The Artist -> Album -> Song hierarchy and the grouping pass that builds
//! it: every song is appended to the song list and filed either under the
//! first artist and album whose names match its tags exactly, or into the
//! unknown bucket when it carries no usable artist name.

use vstd::prelude::*;

verus! {

/// One audio file, as the grouping pass records it.
#[derive(Debug, PartialEq)]
pub struct Song {
    pub track: u16,
    pub artist: String,
    pub title: String,
    pub current_file: String,
}

/// An album: a name and the indices of its songs in the song list.
#[derive(Debug, PartialEq)]
pub struct Album {
    pub name: String,
    pub songs: Vec<usize>,
}

/// An artist: a name and its albums, in discovery order.
#[derive(Debug, PartialEq)]
pub struct Artist {
    pub name: String,
    pub albums: Vec<Album>,
}

/// The tag fields that drive grouping and naming for one file.
#[derive(Debug, PartialEq)]
pub struct Metadata {
    pub track: u16,
    pub artist: String,
    pub album_artist: String,
    pub album: String,
    pub title: String,
}

#[verifier::ext_equal]
pub struct SongView {
    pub track: u16,
    pub artist: Seq<char>,
    pub title: Seq<char>,
    pub current_file: Seq<char>,
}

#[verifier::ext_equal]
pub struct AlbumView {
    pub name: Seq<char>,
    pub songs: Seq<usize>,
}

#[verifier::ext_equal]
pub struct ArtistView {
    pub name: Seq<char>,
    pub albums: Seq<AlbumView>,
}

#[verifier::ext_equal]
pub struct MetadataView {
    pub track: u16,
    pub artist: Seq<char>,
    pub album_artist: Seq<char>,
    pub album: Seq<char>,
    pub title: Seq<char>,
}

impl View for Song {
    type V = SongView;

    open spec fn view(&self) -> SongView {
        SongView {
            track: self.track,
            artist: self.artist@,
            title: self.title@,
            current_file: self.current_file@,
        }
    }
}

impl View for Album {
    type V = AlbumView;

    open spec fn view(&self) -> AlbumView {
        AlbumView { name: self.name@, songs: self.songs@ }
    }
}

impl View for Artist {
    type V = ArtistView;

    open spec fn view(&self) -> ArtistView {
        ArtistView { name: self.name@, albums: self.albums@.map_values(|a: Album| a@) }
    }
}

impl View for Metadata {
    type V = MetadataView;

    open spec fn view(&self) -> MetadataView {
        MetadataView {
            track: self.track,
            artist: self.artist@,
            album_artist: self.album_artist@,
            album: self.album@,
            title: self.title@,
        }
    }
}

impl Default for Metadata {
    /// The all-empty metadata that stands in for an unreadable tag.
    fn default() -> (r: Metadata)
        ensures
            r@.track == 0 && r@.artist.len() == 0 && r@.album_artist.len() == 0 && r@.album.len()
                == 0 && r@.title.len() == 0,
    {
        Metadata {
            track: 0,
            artist: String::new(),
            album_artist: String::new(),
            album: String::new(),
            title: String::new(),
        }
    }
}

impl Metadata {
    /// Read the grouping fields of the file at `path`, dispatching on its
    /// extension: ID3 for MP3 files, MPEG-4 metadata for the M4 family. An
    /// unsupported extension or an unreadable tag yields the all-empty
    /// record — extraction never fails.
    pub fn read_from(path: &str) -> (r: Metadata)
        ensures
            !crate::plan::spec_is_music_ext(crate::plan::ext_or_empty(path@)) ==> r@.track == 0
                && r@.artist.len() == 0 && r@.album_artist.len() == 0 && r@.album.len() == 0
                && r@.title.len() == 0,
    {
        let ext = crate::plan::ext_str(path);
        if ext == String::from_str("mp3") {
            if let Some(tag) = crate::tags::id3_read(path) {
                let track = match crate::tags::id3_track(&tag) {
                    Some(t) => #[verifier::truncate] (t as u16),
                    None => 0,
                };
                return Metadata {
                    track,
                    artist: crate::tags::id3_artist(&tag).unwrap_or(String::new()),
                    album_artist: crate::tags::id3_album_artist(&tag).unwrap_or(String::new()),
                    album: crate::tags::id3_album(&tag).unwrap_or(String::new()),
                    title: crate::tags::id3_title(&tag).unwrap_or(String::new()),
                };
            }
        } else if ext == String::from_str("m4a") || ext == String::from_str("m4b") || ext
            == String::from_str("m4p") || ext == String::from_str("m4v") {
            if let Some(tag) = crate::tags::mp4_read(path) {
                let track = match crate::tags::mp4_track_number(&tag) {
                    Some(t) => t,
                    None => 0,
                };
                return Metadata {
                    track,
                    artist: crate::tags::mp4_artist(&tag).unwrap_or(String::new()),
                    album_artist: crate::tags::mp4_album_artist(&tag).unwrap_or(String::new()),
                    album: crate::tags::mp4_album(&tag).unwrap_or(String::new()),
                    title: crate::tags::mp4_title(&tag).unwrap_or(String::new()),
                };
            }
        }
        Metadata::default()
    }
}

/// The whole index: the song list, the artist hierarchy and the unknown
/// bucket of songs without any artist attribution.
pub struct MusicIndex {
    pub songs: Vec<Song>,
    pub artists: Vec<Artist>,
    pub unknown: Vec<usize>,
}

#[verifier::ext_equal]
pub struct IndexView {
    pub songs: Seq<SongView>,
    pub artists: Seq<ArtistView>,
    pub unknown: Seq<usize>,
}

impl View for MusicIndex {
    type V = IndexView;

    open spec fn view(&self) -> IndexView {
        IndexView {
            songs: self.songs@.map_values(|s: Song| s@),
            artists: self.artists@.map_values(|a: Artist| a@),
            unknown: self.unknown@,
        }
    }
}

/// Index of the first artist with the given name, or the length when none
/// matches.
pub open spec fn find_artist(artists: Seq<ArtistView>, name: Seq<char>) -> nat
    decreases artists.len(),
{
    if artists.len() == 0 {
        0
    } else if artists[0].name == name {
        0
    } else {
        1 + find_artist(artists.drop_first(), name)
    }
}

/// Index of the first album with the given name, or the length when none
/// matches.
pub open spec fn find_album(albums: Seq<AlbumView>, name: Seq<char>) -> nat
    decreases albums.len(),
{
    if albums.len() == 0 {
        0
    } else if albums[0].name == name {
        0
    } else {
        1 + find_album(albums.drop_first(), name)
    }
}

pub proof fn lemma_find_artist(artists: Seq<ArtistView>, name: Seq<char>)
    ensures
        find_artist(artists, name) <= artists.len(),
        find_artist(artists, name) < artists.len() ==> artists[find_artist(artists, name) as int].name
            == name,
        forall|k: int| 0 <= k < find_artist(artists, name) ==> artists[k].name != name,
    decreases artists.len(),
{
    if artists.len() > 0 && artists[0].name != name {
        lemma_find_artist(artists.drop_first(), name);
        assert forall|k: int| 0 <= k < find_artist(artists, name) implies artists[k].name
            != name by {
            if k > 0 {
                assert(artists.drop_first()[k - 1] == artists[k]);
            }
        }
    }
}

pub proof fn lemma_find_album(albums: Seq<AlbumView>, name: Seq<char>)
    ensures
        find_album(albums, name) <= albums.len(),
        find_album(albums, name) < albums.len() ==> albums[find_album(albums, name) as int].name
            == name,
        forall|k: int| 0 <= k < find_album(albums, name) ==> albums[k].name != name,
    decreases albums.len(),
{
    if albums.len() > 0 && albums[0].name != name {
        lemma_find_album(albums.drop_first(), name);
        assert forall|k: int| 0 <= k < find_album(albums, name) implies albums[k].name != name by {
            if k > 0 {
                assert(albums.drop_first()[k - 1] == albums[k]);
            }
        }
    }
}

/// A position with a matching name and no earlier match is the position
/// `find_artist` denotes.
pub proof fn lemma_find_artist_at(artists: Seq<ArtistView>, name: Seq<char>, r: int)
    requires
        0 <= r <= artists.len(),
        r < artists.len() ==> artists[r].name == name,
        forall|k: int| 0 <= k < r ==> artists[k].name != name,
    ensures
        find_artist(artists, name) == r,
    decreases artists.len(),
{
    if artists.len() > 0 {
        if artists[0].name == name {
            assert(r == 0);
        } else {
            assert(r > 0);
            lemma_find_artist_at(artists.drop_first(), name, r - 1);
        }
    }
}

pub proof fn lemma_find_album_at(albums: Seq<AlbumView>, name: Seq<char>, r: int)
    requires
        0 <= r <= albums.len(),
        r < albums.len() ==> albums[r].name == name,
        forall|k: int| 0 <= k < r ==> albums[k].name != name,
    ensures
        find_album(albums, name) == r,
    decreases albums.len(),
{
    if albums.len() > 0 {
        if albums[0].name == name {
            assert(r == 0);
        } else {
            assert(r > 0);
            lemma_find_album_at(albums.drop_first(), name, r - 1);
        }
    }
}

/// The artist name a song is grouped under: the release artist when present,
/// else the song artist; empty means no usable attribution.
pub open spec fn effective_artist(m: MetadataView) -> Seq<char> {
    if m.album_artist.len() > 0 {
        m.album_artist
    } else {
        m.artist
    }
}

/// The song record built from one file's metadata.
pub open spec fn song_of_meta(m: MetadataView, path: Seq<char>) -> SongView {
    SongView { track: m.track, artist: m.artist, title: m.title, current_file: path }
}

/// One grouping step: what adding one file does to the index.
pub open spec fn spec_add_song(ix: IndexView, m: MetadataView, path: Seq<char>) -> IndexView {
    let idx = ix.songs.len() as usize;
    let songs2 = ix.songs.push(song_of_meta(m, path));
    let name = effective_artist(m);
    if name.len() == 0 {
        IndexView { songs: songs2, artists: ix.artists, unknown: ix.unknown.push(idx) }
    } else {
        let ai = find_artist(ix.artists, name) as int;
        if ai < ix.artists.len() {
            let ar = ix.artists[ai];
            let aj = find_album(ar.albums, m.album) as int;
            if aj < ar.albums.len() {
                let al = ar.albums[aj];
                let al2 = AlbumView { name: al.name, songs: al.songs.push(idx) };
                IndexView {
                    songs: songs2,
                    artists: ix.artists.update(
                        ai,
                        ArtistView { name: ar.name, albums: ar.albums.update(aj, al2) },
                    ),
                    unknown: ix.unknown,
                }
            } else {
                let al2 = AlbumView { name: m.album, songs: seq![idx] };
                IndexView {
                    songs: songs2,
                    artists: ix.artists.update(
                        ai,
                        ArtistView { name: ar.name, albums: ar.albums.push(al2) },
                    ),
                    unknown: ix.unknown,
                }
            }
        } else {
            let al2 = AlbumView { name: m.album, songs: seq![idx] };
            IndexView {
                songs: songs2,
                artists: ix.artists.push(ArtistView { name, albums: seq![al2] }),
                unknown: ix.unknown,
            }
        }
    }
}

/// The index built from a sequence of (metadata, path) entries, in order.
pub open spec fn spec_index(entries: Seq<(MetadataView, Seq<char>)>) -> IndexView
    decreases entries.len(),
{
    if entries.len() == 0 {
        IndexView {
            songs: Seq::empty(),
            artists: Seq::empty(),
            unknown: Seq::empty(),
        }
    } else {
        spec_add_song(spec_index(entries.drop_last()), entries.last().0, entries.last().1)
    }
}

impl MusicIndex {
    /// The empty index.
    pub fn new() -> (r: MusicIndex)
        ensures
            r@ == spec_index(Seq::<(MetadataView, Seq<char>)>::empty()),
    {
        let r = MusicIndex { songs: Vec::new(), artists: Vec::new(), unknown: Vec::new() };
        proof {
            assert(r@.songs =~= Seq::<SongView>::empty());
            assert(r@.artists =~= Seq::<ArtistView>::empty());
        }
        r
    }

    /// Append one song and file it under its artist and album, creating the
    /// album or the artist when no exact name match exists, or routing the
    /// song to the unknown bucket when it has no usable artist name.
    pub fn add_song(&mut self, m: Metadata, path: String)
        ensures
            final(self)@ == spec_add_song(old(self)@, m@, path@),
    {
        let ghost gold = self@;
        let ghost mv = m@;
        let idx = self.songs.len();
        let song = Song {
            track: m.track,
            artist: m.artist.clone(),
            title: m.title,
            current_file: path,
        };
        self.songs.push(song);
        proof {
            assert(self@.songs =~= gold.songs.push(song_of_meta(mv, path@)));
            assert(self@.artists == gold.artists);
        }
        let name = if m.album_artist.as_str().unicode_len() > 0 {
            m.album_artist
        } else {
            m.artist
        };
        proof {
            assert(name@ == effective_artist(mv));
        }
        if name.as_str().unicode_len() == 0 {
            self.unknown.push(idx);
            return ;
        }
        // Scan for an artist with exactly this name.
        let n = self.artists.len();
        let mut ai: usize = 0;
        let mut found = false;
        while !found && ai < n
            invariant
                ai <= n,
                n == self.artists@.len(),
                self@.artists == gold.artists,
                found ==> ai < n && self@.artists[ai as int].name == name@,
                forall|k: int| 0 <= k < ai ==> #[trigger] self@.artists[k].name != name@,
            decreases n - ai + if found {
                0int
            } else {
                1int
            },
        {
            if self.artists[ai].name == name {
                found = true;
            } else {
                ai = ai + 1;
            }
        }
        proof {
            if !found {
                assert(ai == n);
            }
            lemma_find_artist_at(self@.artists, name@, ai as int);
        }
        if !found {
            // No artist of this name yet: a fresh artist with a fresh album.
            let mut songs_v: Vec<usize> = Vec::new();
            songs_v.push(idx);
            let mut albums_v: Vec<Album> = Vec::new();
            albums_v.push(Album { name: m.album, songs: songs_v });
            self.artists.push(Artist { name, albums: albums_v });
            proof {
                let target = spec_add_song(gold, mv, path@);
                assert(self@.artists =~~= target.artists);
                assert(self@ =~~= target);
            }
            return ;
        }
        // Scan the artist's albums for an exact album-name match.
        let mut ar = self.artists.remove(ai);
        let ghost arv = gold.artists[ai as int];
        proof {
            assert(ar@ == arv);
        }
        let an = ar.albums.len();
        let mut aj: usize = 0;
        let mut afound = false;
        while !afound && aj < an
            invariant
                aj <= an,
                an == ar.albums@.len(),
                ar@ == arv,
                afound ==> aj < an && arv.albums[aj as int].name == m.album@,
                forall|k: int| 0 <= k < aj ==> #[trigger] arv.albums[k].name != m.album@,
            decreases an - aj + if afound {
                0int
            } else {
                1int
            },
        {
            if ar.albums[aj].name == m.album {
                afound = true;
            } else {
                aj = aj + 1;
            }
        }
        proof {
            if !afound {
                assert(aj == an);
            }
            lemma_find_album_at(arv.albums, mv.album, aj as int);
        }
        if !afound {
            // A new album under the matched artist.
            let mut songs_v: Vec<usize> = Vec::new();
            songs_v.push(idx);
            ar.albums.push(Album { name: m.album, songs: songs_v });
            self.artists.insert(ai, ar);
            proof {
                let target = spec_add_song(gold, mv, path@);
                assert(self@.artists =~~= target.artists);
                assert(self@ =~~= target);
            }
        } else {
            // Append to the matched album.
            let mut al = ar.albums.remove(aj);
            al.songs.push(idx);
            ar.albums.insert(aj, al);
            self.artists.insert(ai, ar);
            proof {
                let target = spec_add_song(gold, mv, path@);
                assert(self@.artists =~~= target.artists);
                assert(self@ =~~= target);
            }
        }
    }
}

/// A field-for-field copy of one metadata record.
pub fn clone_meta(m: &Metadata) -> (r: Metadata)
    ensures
        r@ == m@,
{
    let r = Metadata {
        track: m.track,
        artist: m.artist.clone(),
        album_artist: m.album_artist.clone(),
        album: m.album.clone(),
        title: m.title.clone(),
    };
    proof {
        assert(r@ =~~= m@);
    }
    r
}

/// Build the index for a list of (metadata, path) entries, in order.
pub fn index_songs(entries: &Vec<(Metadata, String)>) -> (r: MusicIndex)
    ensures
        r@ == spec_index(entries@.map_values(|e: (Metadata, String)| (e.0@, e.1@))),
        partitioned(r@),
{
    let ghost all = entries@.map_values(|e: (Metadata, String)| (e.0@, e.1@));
    let mut ix = MusicIndex::new();
    let mut i: usize = 0;
    proof {
        assert(all.subrange(0, 0) =~= Seq::<(MetadataView, Seq<char>)>::empty());
    }
    while i < entries.len()
        invariant
            i <= entries@.len(),
            all == entries@.map_values(|e: (Metadata, String)| (e.0@, e.1@)),
            ix@ == spec_index(all.subrange(0, i as int)),
        decreases entries@.len() - i,
    {
        let m = clone_meta(&entries[i].0);
        let path = entries[i].1.clone();
        proof {
            assert((m@, path@) == all[i as int]);
            assert(all.subrange(0, i + 1).drop_last() =~= all.subrange(0, i as int));
            assert(all.subrange(0, i + 1).last() == all[i as int]);
        }
        ix.add_song(m, path);
        i = i + 1;
    }
    proof {
        assert(all.subrange(0, all.len() as int) =~= all);
        lemma_index_partitioned(all);
    }
    ix
}

/// Law: grouping is deterministic — the index is a function of the metadata
/// sequence alone, so re-running it over the same entries, in the same
/// enumeration order, rebuilds the same hierarchy.
pub proof fn lemma_index_deterministic(
    a: Seq<(MetadataView, Seq<char>)>,
    b: Seq<(MetadataView, Seq<char>)>,
)
    requires
        a == b,
    ensures
        spec_index(a) == spec_index(b),
{
}

/// Law: the hierarchy is determined by the tag tuples alone — two runs over
/// the same metadata sequence build the same artists and the same unknown
/// bucket even when the files lie at different paths, and their song lists
/// differ at most in the recorded file locations.
pub proof fn lemma_index_ignores_paths(
    a: Seq<(MetadataView, Seq<char>)>,
    b: Seq<(MetadataView, Seq<char>)>,
)
    requires
        a.len() == b.len(),
        forall|k: int| 0 <= k < a.len() ==> a[k].0 == b[k].0,
    ensures
        spec_index(a).artists == spec_index(b).artists,
        spec_index(a).unknown == spec_index(b).unknown,
        spec_index(a).songs.len() == spec_index(b).songs.len(),
        forall|k: int|
            0 <= k < spec_index(a).songs.len() ==> spec_index(a).songs[k].track == spec_index(
                b,
            ).songs[k].track && spec_index(a).songs[k].artist == spec_index(b).songs[k].artist
                && spec_index(a).songs[k].title == spec_index(b).songs[k].title,
    decreases a.len(),
{
    if a.len() > 0 {
        assert(forall|k: int| 0 <= k < a.drop_last().len() ==> a.drop_last()[k] == a[k]);
        assert(forall|k: int| 0 <= k < b.drop_last().len() ==> b.drop_last()[k] == b[k]);
        lemma_index_ignores_paths(a.drop_last(), b.drop_last());
        lemma_index_songs_len(a.drop_last());
        lemma_index_songs_len(b.drop_last());
        let ixa = spec_index(a.drop_last());
        let ixb = spec_index(b.drop_last());
        let m = a.last().0;
        assert(b.last().0 == m);
        let ra = spec_add_song(ixa, m, a.last().1);
        let rb = spec_add_song(ixb, m, b.last().1);
        assert(ra.artists == rb.artists && ra.unknown == rb.unknown);
        assert(ra.songs.len() == rb.songs.len());
        assert forall|k: int| 0 <= k < ra.songs.len() implies ra.songs[k].track
            == rb.songs[k].track && ra.songs[k].artist == rb.songs[k].artist && ra.songs[k].title
            == rb.songs[k].title by {
            if k < ixa.songs.len() {
                assert(ra.songs[k] == ixa.songs[k]);
                assert(rb.songs[k] == ixb.songs[k]);
            } else {
                assert(ra.songs[k] == song_of_meta(m, a.last().1));
                assert(rb.songs[k] == song_of_meta(m, b.last().1));
            }
        }
    }
}

/// How often a song index occurs in a list of indices.
pub open spec fn count_seq(s: Seq<usize>, x: usize) -> int
    decreases s.len(),
{
    if s.len() == 0 {
        0
    } else {
        count_seq(s.drop_last(), x) + if s.last() == x {
            1int
        } else {
            0int
        }
    }
}

/// How often a song index occurs across a list of albums.
pub open spec fn count_albums(als: Seq<AlbumView>, x: usize) -> int
    decreases als.len(),
{
    if als.len() == 0 {
        0
    } else {
        count_albums(als.drop_last(), x) + count_seq(als.last().songs, x)
    }
}

/// How often a song index occurs across the whole artist hierarchy.
pub open spec fn count_artists(ars: Seq<ArtistView>, x: usize) -> int
    decreases ars.len(),
{
    if ars.len() == 0 {
        0
    } else {
        count_artists(ars.drop_last(), x) + count_albums(ars.last().albums, x)
    }
}

/// How often a song index occurs in the whole index: hierarchy plus unknown
/// bucket.
pub open spec fn song_count(ix: IndexView, x: usize) -> int {
    count_artists(ix.artists, x) + count_seq(ix.unknown, x)
}

/// The partition invariant: every indexed song stands in exactly one place —
/// one album of one artist, or the unknown bucket — and nothing refers past
/// the song list.
pub open spec fn partitioned(ix: IndexView) -> bool {
    forall|x: usize|
        #[trigger] song_count(ix, x) == if (x as int) < ix.songs.len() {
            1int
        } else {
            0int
        }
}

pub proof fn lemma_count_seq_push(s: Seq<usize>, v: usize, x: usize)
    ensures
        count_seq(s.push(v), x) == count_seq(s, x) + if v == x {
            1int
        } else {
            0int
        },
{
    assert(s.push(v).drop_last() =~= s);
}

pub proof fn lemma_count_albums_push(als: Seq<AlbumView>, al: AlbumView, x: usize)
    ensures
        count_albums(als.push(al), x) == count_albums(als, x) + count_seq(al.songs, x),
{
    assert(als.push(al).drop_last() =~= als);
}

pub proof fn lemma_count_artists_push(ars: Seq<ArtistView>, ar: ArtistView, x: usize)
    ensures
        count_artists(ars.push(ar), x) == count_artists(ars, x) + count_albums(ar.albums, x),
{
    assert(ars.push(ar).drop_last() =~= ars);
}

pub proof fn lemma_count_albums_update(als: Seq<AlbumView>, j: int, al: AlbumView, x: usize)
    requires
        0 <= j < als.len(),
    ensures
        count_albums(als.update(j, al), x) == count_albums(als, x) - count_seq(als[j].songs, x)
            + count_seq(al.songs, x),
    decreases als.len(),
{
    if j == als.len() - 1 {
        assert(als.update(j, al).drop_last() =~= als.drop_last());
        assert(als.update(j, al).last() == al);
    } else {
        lemma_count_albums_update(als.drop_last(), j, al, x);
        assert(als.update(j, al).drop_last() =~= als.drop_last().update(j, al));
        assert(als.update(j, al).last() == als.last());
        assert(als.drop_last()[j] == als[j]);
    }
}

pub proof fn lemma_count_artists_update(ars: Seq<ArtistView>, i: int, ar: ArtistView, x: usize)
    requires
        0 <= i < ars.len(),
    ensures
        count_artists(ars.update(i, ar), x) == count_artists(ars, x) - count_albums(
            ars[i].albums,
            x,
        ) + count_albums(ar.albums, x),
    decreases ars.len(),
{
    if i == ars.len() - 1 {
        assert(ars.update(i, ar).drop_last() =~= ars.drop_last());
        assert(ars.update(i, ar).last() == ar);
    } else {
        lemma_count_artists_update(ars.drop_last(), i, ar, x);
        assert(ars.update(i, ar).drop_last() =~= ars.drop_last().update(i, ar));
        assert(ars.update(i, ar).last() == ars.last());
        assert(ars.drop_last()[i] == ars[i]);
    }
}

/// Law: one grouping step keeps the partition invariant — the new song is
/// filed in exactly one place and every earlier song stays where it was.
pub proof fn lemma_add_song_partitioned(ix: IndexView, m: MetadataView, path: Seq<char>)
    requires
        partitioned(ix),
        ix.songs.len() <= usize::MAX,
    ensures
        partitioned(spec_add_song(ix, m, path)),
{
    let ix2 = spec_add_song(ix, m, path);
    let idx = ix.songs.len() as usize;
    assert(idx as int == ix.songs.len());
    let name = effective_artist(m);
    assert forall|x: usize|
        #[trigger] song_count(ix2, x) == if (x as int) < ix2.songs.len() {
            1int
        } else {
            0int
        } by {
        assert(song_count(ix, x) == if (x as int) < ix.songs.len() {
            1int
        } else {
            0int
        });
        if name.len() == 0 {
            lemma_count_seq_push(ix.unknown, idx, x);
            assert(ix2.artists == ix.artists);
            assert(song_count(ix2, x) == song_count(ix, x) + if idx == x { 1int } else { 0int });
        } else {
            let ai = find_artist(ix.artists, name) as int;
            if ai < ix.artists.len() {
                let ar = ix.artists[ai];
                let aj = find_album(ar.albums, m.album) as int;
                lemma_find_artist(ix.artists, name);
                lemma_find_album(ar.albums, m.album);
                if aj < ar.albums.len() {
                    let al = ar.albums[aj];
                    let al2 = AlbumView { name: al.name, songs: al.songs.push(idx) };
                    let ar2 = ArtistView { name: ar.name, albums: ar.albums.update(aj, al2) };
                    lemma_count_seq_push(al.songs, idx, x);
                    lemma_count_albums_update(ar.albums, aj, al2, x);
                    lemma_count_artists_update(ix.artists, ai, ar2, x);
                    assert(ix2.artists == ix.artists.update(ai, ar2));
                    assert(song_count(ix2, x) == song_count(ix, x) + if idx == x { 1int } else { 0int });
                } else {
                    let al2 = AlbumView { name: m.album, songs: seq![idx] };
                    let ar2 = ArtistView { name: ar.name, albums: ar.albums.push(al2) };
                    assert(count_seq(Seq::<usize>::empty(), x) == 0);
                    assert(seq![idx].drop_last() =~= Seq::<usize>::empty());
                    assert(seq![idx].last() == idx);
                    lemma_count_albums_push(ar.albums, al2, x);
                    lemma_count_artists_update(ix.artists, ai, ar2, x);
                    assert(ix2.artists == ix.artists.update(ai, ar2));
                    assert(song_count(ix2, x) == song_count(ix, x) + if idx == x { 1int } else { 0int });
                }
            } else {
                let al2 = AlbumView { name: m.album, songs: seq![idx] };
                let ar2 = ArtistView { name, albums: seq![al2] };
                assert(count_seq(Seq::<usize>::empty(), x) == 0);
                assert(count_albums(Seq::<AlbumView>::empty(), x) == 0);
                assert(seq![idx].drop_last() =~= Seq::<usize>::empty());
                assert(seq![idx].last() == idx);
                assert(seq![al2].drop_last() =~= Seq::<AlbumView>::empty());
                assert(seq![al2].last() == al2);
                assert(count_albums(seq![al2], x) == count_seq(al2.songs, x));
                lemma_count_artists_push(ix.artists, ar2, x);
                assert(ix2.artists == ix.artists.push(ar2));
                assert(song_count(ix2, x) == song_count(ix, x) + if idx == x { 1int } else { 0int });
            }
        }
    }
}

/// Law: the partition invariant holds of every built index — each indexed
/// song stands either in exactly one album of exactly one artist or in the
/// unknown bucket, never in both and never twice.
pub proof fn lemma_index_partitioned(entries: Seq<(MetadataView, Seq<char>)>)
    requires
        entries.len() <= usize::MAX,
    ensures
        partitioned(spec_index(entries)),
    decreases entries.len(),
{
    if entries.len() > 0 {
        lemma_index_partitioned(entries.drop_last());
        lemma_index_songs_len(entries.drop_last());
        lemma_add_song_partitioned(spec_index(entries.drop_last()), entries.last().0, entries.last().1);
    }
}

/// A built index holds one song record per entry.
pub proof fn lemma_index_songs_len(entries: Seq<(MetadataView, Seq<char>)>)
    ensures
        spec_index(entries).songs.len() == entries.len(),
    decreases entries.len(),
{
    if entries.len() > 0 {
        lemma_index_songs_len(entries.drop_last());
    }
}

pub proof fn lemma_count_seq_nonneg(s: Seq<usize>, x: usize)
    ensures
        count_seq(s, x) >= 0,
    decreases s.len(),
{
    if s.len() > 0 {
        lemma_count_seq_nonneg(s.drop_last(), x);
    }
}

pub proof fn lemma_count_albums_nonneg(als: Seq<AlbumView>, x: usize)
    ensures
        count_albums(als, x) >= 0,
    decreases als.len(),
{
    if als.len() > 0 {
        lemma_count_albums_nonneg(als.drop_last(), x);
        lemma_count_seq_nonneg(als.last().songs, x);
    }
}

pub proof fn lemma_count_artists_nonneg(ars: Seq<ArtistView>, x: usize)
    ensures
        count_artists(ars, x) >= 0,
    decreases ars.len(),
{
    if ars.len() > 0 {
        lemma_count_artists_nonneg(ars.drop_last(), x);
        lemma_count_albums_nonneg(ars.last().albums, x);
    }
}

/// An index stored somewhere in a song list is counted at least once there.
pub proof fn lemma_count_seq_at(s: Seq<usize>, k: int, x: usize)
    requires
        0 <= k < s.len(),
        s[k] == x,
    ensures
        count_seq(s, x) >= 1,
    decreases s.len(),
{
    if k == s.len() - 1 {
        lemma_count_seq_nonneg(s.drop_last(), x);
    } else {
        lemma_count_seq_at(s.drop_last(), k, x);
        assert(s.drop_last()[k] == s[k]);
    }
}

pub proof fn lemma_count_albums_at(als: Seq<AlbumView>, j: int, x: usize)
    requires
        0 <= j < als.len(),
    ensures
        count_albums(als, x) >= count_seq(als[j].songs, x),
    decreases als.len(),
{
    if j == als.len() - 1 {
        lemma_count_albums_nonneg(als.drop_last(), x);
    } else {
        lemma_count_albums_at(als.drop_last(), j, x);
        lemma_count_seq_nonneg(als.last().songs, x);
        assert(als.drop_last()[j] == als[j]);
    }
}

pub proof fn lemma_count_artists_at(ars: Seq<ArtistView>, i: int, x: usize)
    requires
        0 <= i < ars.len(),
    ensures
        count_artists(ars, x) >= count_albums(ars[i].albums, x),
    decreases ars.len(),
{
    if i == ars.len() - 1 {
        lemma_count_artists_nonneg(ars.drop_last(), x);
    } else {
        lemma_count_artists_at(ars.drop_last(), i, x);
        lemma_count_albums_nonneg(ars.last().albums, x);
        assert(ars.drop_last()[i] == ars[i]);
    }
}

/// In a partitioned index, every stored song index refers into the song
/// list.
pub proof fn lemma_partitioned_index_in_range(ix: IndexView, i: int, j: int, k: int)
    requires
        partitioned(ix),
        0 <= i < ix.artists.len(),
        0 <= j < ix.artists[i].albums.len(),
        0 <= k < ix.artists[i].albums[j].songs.len(),
    ensures
        (ix.artists[i].albums[j].songs[k] as int) < ix.songs.len(),
{
    let x = ix.artists[i].albums[j].songs[k];
    lemma_count_seq_at(ix.artists[i].albums[j].songs, k, x);
    lemma_count_albums_at(ix.artists[i].albums, j, x);
    lemma_count_artists_at(ix.artists, i, x);
    lemma_count_seq_nonneg(ix.unknown, x);
    assert(song_count(ix, x) >= 1);
}

/// In a partitioned index, every unknown-bucket index refers into the song
/// list.
pub proof fn lemma_partitioned_unknown_in_range(ix: IndexView, k: int)
    requires
        partitioned(ix),
        0 <= k < ix.unknown.len(),
    ensures
        (ix.unknown[k] as int) < ix.songs.len(),
{
    let x = ix.unknown[k];
    lemma_count_seq_at(ix.unknown, k, x);
    lemma_count_artists_nonneg(ix.artists, x);
    assert(song_count(ix, x) >= 1);
}

pub proof fn lemma_push_contains<T>(s: Seq<T>, v: T, x: T)
    ensures
        s.push(v).contains(x) <==> (s.contains(x) || x == v),
{
    if s.contains(x) {
        let k = choose|k: int| 0 <= k < s.len() && s[k] == x;
        assert(s.push(v)[k] == x);
    }
    assert(s.push(v)[s.len() as int] == v);
    if s.push(v).contains(x) {
        let k = choose|k: int| 0 <= k < s.push(v).len() && s.push(v)[k] == x;
        if k < s.len() {
            assert(s[k] == x);
        }
    }
}

/// Where entry `k` is filed in the built index, in terms of its own tags
/// alone.
pub open spec fn placed_at(ix: IndexView, k: int, m: MetadataView) -> bool {
    if effective_artist(m).len() == 0 {
        ix.unknown.contains(k as usize)
    } else {
        exists|i: int, j: int|
            0 <= i < ix.artists.len() && 0 <= j < (#[trigger] ix.artists[i]).albums.len()
                && ix.artists[i].name == effective_artist(m) && (#[trigger] ix.artists[i].albums[
                j
            ]).name == m.album && ix.artists[i].albums[j].songs.contains(k as usize)
    }
}

/// Law: each song's place is a function of its own tags — entry `k` always
/// ends up in the unknown bucket when it has no usable artist name, and
/// otherwise in an album named by its album tag under an artist named by
/// its effective artist. Together with the partition and naming-uniqueness
/// laws this pins the grouping relation independently of the order in
/// which the other entries were enumerated.
pub proof fn lemma_index_placement(entries: Seq<(MetadataView, Seq<char>)>, k: int)
    requires
        0 <= k < entries.len(),
        entries.len() <= usize::MAX,
    ensures
        placed_at(spec_index(entries), k, entries[k].0),
    decreases entries.len(),
{
    let prev = spec_index(entries.drop_last());
    let m = entries.last().0;
    let ix = spec_index(entries);
    lemma_index_songs_len(entries.drop_last());
    let idx = prev.songs.len() as usize;
    let name = effective_artist(m);
    lemma_find_artist(prev.artists, name);
    if k == entries.len() - 1 {
        assert(idx as int == k);
        if name.len() == 0 {
            assert(ix.unknown[prev.unknown.len() as int] == idx);
            assert(ix.unknown.contains(idx));
        } else {
            let ai = find_artist(prev.artists, name) as int;
            if ai < prev.artists.len() {
                let ar = prev.artists[ai];
                let aj = find_album(ar.albums, m.album) as int;
                lemma_find_album(ar.albums, m.album);
                if aj < ar.albums.len() {
                    assert(ix.artists[ai].albums[aj].songs.contains(idx)) by {
                        let songs2 = ar.albums[aj].songs.push(idx);
                        assert(songs2[ar.albums[aj].songs.len() as int] == idx);
                    }
                    assert(ix.artists[ai].albums[aj].name == m.album);
                    assert(ix.artists[ai].name == name);
                } else {
                    let j2 = ar.albums.len() as int;
                    assert(ix.artists[ai].albums[j2].name == m.album);
                    assert(ix.artists[ai].albums[j2].songs == seq![idx]);
                    assert(ix.artists[ai].albums[j2].songs[0] == idx);
                    assert(ix.artists[ai].albums[j2].songs.contains(idx));
                    assert(ix.artists[ai].name == name);
                }
            } else {
                let i2 = prev.artists.len() as int;
                assert(ix.artists[i2].name == name);
                assert(ix.artists[i2].albums[0].name == m.album);
                assert(ix.artists[i2].albums[0].songs[0] == idx);
                assert(ix.artists[i2].albums[0].songs.contains(idx));
            }
        }
    } else {
        assert(entries.drop_last()[k] == entries[k]);
        lemma_index_placement(entries.drop_last(), k);
        let mk = entries[k].0;
        if effective_artist(mk).len() == 0 {
            if name.len() == 0 {
                lemma_push_contains(prev.unknown, idx, k as usize);
            }
            assert(ix.unknown.contains(k as usize));
        } else {
            let (i, j) = choose|i: int, j: int|
                0 <= i < prev.artists.len() && 0 <= j < (#[trigger] prev.artists[i]).albums.len()
                    && prev.artists[i].name == effective_artist(mk) && (
                #[trigger] prev.artists[i].albums[j]).name == mk.album && prev.artists[i].albums[
                    j
                ].songs.contains(k as usize);
            if name.len() == 0 {
                assert(ix.artists == prev.artists);
                assert(placed_at(ix, k, mk));
            } else {
                let ai = find_artist(prev.artists, name) as int;
                if ai < prev.artists.len() {
                    let ar = prev.artists[ai];
                    let aj = find_album(ar.albums, m.album) as int;
                    lemma_find_album(ar.albums, m.album);
                    if i != ai {
                        assert(ix.artists[i] == prev.artists[i]);
                        assert(placed_at(ix, k, mk));
                    } else {
                        if aj < ar.albums.len() {
                            if j != aj {
                                assert(ix.artists[ai].albums[j] == ar.albums[j]);
                                assert(ix.artists[ai].name == ar.name);
                                assert(placed_at(ix, k, mk));
                            } else {
                                lemma_push_contains(ar.albums[aj].songs, idx, k as usize);
                                assert(ix.artists[ai].albums[aj].songs.contains(k as usize));
                                assert(ix.artists[ai].albums[aj].name == ar.albums[aj].name);
                                assert(ix.artists[ai].name == ar.name);
                                assert(placed_at(ix, k, mk));
                            }
                        } else {
                            assert(ix.artists[ai].albums[j] == ar.albums[j]);
                            assert(ix.artists[ai].name == ar.name);
                            assert(placed_at(ix, k, mk));
                        }
                    }
                } else {
                    assert(ix.artists[i] == prev.artists[i]);
                    assert(placed_at(ix, k, mk));
                }
            }
        }
    }
}

/// Law: grouping does not depend on the enumeration order. Two runs whose
/// entries carry the same tags for a song file it identically: into the
/// unknown bucket in both, or under the same artist name and the same
/// album name in both — whatever the rest of each sequence holds and in
/// whatever order it was walked.
pub proof fn lemma_grouping_order_independent(
    a: Seq<(MetadataView, Seq<char>)>,
    b: Seq<(MetadataView, Seq<char>)>,
    ka: int,
    kb: int,
)
    requires
        0 <= ka < a.len() <= usize::MAX,
        0 <= kb < b.len() <= usize::MAX,
        a[ka].0 == b[kb].0,
    ensures
        placed_at(spec_index(a), ka, a[ka].0),
        placed_at(spec_index(b), kb, a[ka].0),
{
    lemma_index_placement(a, ka);
    lemma_index_placement(b, kb);
}

} // verus!
