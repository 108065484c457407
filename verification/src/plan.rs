//! The path planner and the transfer decisions: every indexed song is
//! mapped to a destination under the output root — singles directly under
//! the artist directory, album tracks under a two-digit-track name inside
//! the album directory, unattributed songs under the `unknown` directory —
//! and each planned transfer is then classified as a skip, a copy or a move.

use vstd::prelude::*;

use crate::index::{AlbumView, ArtistView, IndexView, MusicIndex, Song, SongView, partitioned};
use crate::sanitize::{sanitize, spec_sanitize};
use crate::text::{lower, pad2, pad2_str, str_lower};

verus! {

/// The characters of a path after the last occurrence of the separator
/// character; the whole text when the separator is absent.
pub open spec fn after_last(p: Seq<char>, c: char) -> Seq<char>
    decreases p.len(),
{
    if p.len() == 0 {
        Seq::empty()
    } else if p.last() == c {
        Seq::empty()
    } else {
        after_last(p.drop_last(), c).push(p.last())
    }
}

/// The file-name component of a path: everything after the last `/`. The
/// library models paths as text with `/` as the separator, the convention
/// of the platforms it targets.
pub open spec fn file_name_of(p: Seq<char>) -> Seq<char> {
    after_last(p, '/')
}

/// The extension suffix used when renaming a song: the file name's text
/// after its last dot, or empty when the file name has no dot past its
/// first character.
pub open spec fn ext_or_empty(p: Seq<char>) -> Seq<char> {
    let f = file_name_of(p);
    if f.contains('.') && f.len() - after_last(f, '.').len() - 1 >= 1 {
        after_last(f, '.')
    } else {
        Seq::empty()
    }
}

proof fn lemma_after_last_at(p: Seq<char>, c: char, i: int)
    requires
        0 <= i < p.len(),
        p[i] == c,
        forall|k: int| i < k < p.len() ==> p[k] != c,
    ensures
        after_last(p, c) == p.subrange(i + 1, p.len() as int),
    decreases p.len(),
{
    if i == p.len() - 1 {
        assert(after_last(p, c) =~= p.subrange(i + 1, p.len() as int));
    } else {
        lemma_after_last_at(p.drop_last(), c, i);
        assert(p.drop_last()[i] == c);
        assert(after_last(p, c) =~= p.subrange(i + 1, p.len() as int));
    }
}

proof fn lemma_after_last_absent(p: Seq<char>, c: char)
    requires
        forall|k: int| 0 <= k < p.len() ==> p[k] != c,
    ensures
        after_last(p, c) == p,
    decreases p.len(),
{
    if p.len() > 0 {
        lemma_after_last_absent(p.drop_last(), c);
        assert(after_last(p, c) =~= p);
    }
}

/// Executable suffix of a string after the last occurrence of a character;
/// the whole string when the character is absent.
pub fn after_last_str(p: &str, c: char) -> (r: String)
    ensures
        r@ == after_last(p@, c),
{
    let n = p.unicode_len();
    let mut i: usize = n;
    while i > 0
        invariant
            i <= n,
            n == p@.len(),
            forall|k: int| i <= k < n ==> p@[k] != c,
        decreases i,
    {
        if p.get_char(i - 1) == c {
            proof {
                lemma_after_last_at(p@, c, i - 1);
            }
            let s = p.substring_char(i, n);
            return s.to_owned();
        }
        i = i - 1;
    }
    proof {
        lemma_after_last_absent(p@, c);
        assert(p@.subrange(0, n as int) =~= p@);
    }
    let s = p.substring_char(0, n);
    s.to_owned()
}

/// Executable file-name component of a path.
pub fn file_name_str(p: &str) -> (r: String)
    ensures
        r@ == file_name_of(p@),
{
    after_last_str(p, '/')
}

/// Executable extension suffix of a path, empty when it has none.
pub fn ext_str(p: &str) -> (r: String)
    ensures
        r@ == ext_or_empty(p@),
{
    let f = file_name_str(p);
    let n = f.as_str().unicode_len();
    let mut i: usize = n;
    while i > 0
        invariant
            i <= n,
            n == f@.len(),
            f@ == file_name_of(p@),
            forall|k: int| i <= k < n ==> f@[k] != '.',
        decreases i,
    {
        if f.as_str().get_char(i - 1) == '.' {
            proof {
                lemma_after_last_at(f@, '.', i - 1);
                assert(f@.contains('.')) by {
                    assert(f@[i - 1] == '.');
                }
                assert(after_last(f@, '.') == f@.subrange(i as int, n as int));
                assert(after_last(f@, '.').len() == n - i);
                assert(f@.len() - after_last(f@, '.').len() - 1 == i - 1);
                assert(file_name_of(p@) == f@);
                if i - 1 >= 1 {
                    assert(ext_or_empty(p@) == after_last(f@, '.'));
                } else {
                    assert(ext_or_empty(p@) == Seq::<char>::empty());
                }
            }
            if i - 1 >= 1 {
                let s = f.as_str().substring_char(i, n);
                return s.to_owned();
            } else {
                return String::new();
            }
        }
        i = i - 1;
    }
    proof {
        if f@.contains('.') {
            let k = choose|k: int| 0 <= k < f@.len() && f@[k] == '.';
            assert(false);
        }
    }
    String::new()
}

/// The supported audio extensions.
pub open spec fn spec_is_music_ext(e: Seq<char>) -> bool {
    e == "m4a"@ || e == "mp3"@ || e == "m4b"@ || e == "m4p"@ || e == "m4v"@
}

/// Executable test for a supported audio extension.
pub fn is_music_extension(e: &str) -> (r: bool)
    ensures
        r == spec_is_music_ext(e@),
{
    let s = e.to_owned();
    s == String::from_str("m4a") || s == String::from_str("mp3") || s == String::from_str("m4b")
        || s == String::from_str("m4p") || s == String::from_str("m4v")
}

/// Whether a file-name component is hidden: it begins with a dot.
pub open spec fn spec_is_hidden(name: Seq<char>) -> bool {
    name.len() > 0 && name[0] == '.'
}

/// Executable test for a hidden file or directory name.
pub fn is_hidden_name(name: &str) -> (r: bool)
    ensures
        r == spec_is_hidden(name@),
{
    if name.unicode_len() == 0 {
        false
    } else {
        name.get_char(0) == '.'
    }
}

/// Whether a path is an indexable music file: not hidden, and carrying a
/// supported extension.
pub fn is_music_path(p: &str) -> (r: bool)
    ensures
        r == (!spec_is_hidden(file_name_of(p@)) && spec_is_music_ext(ext_or_empty(p@))),
{
    let f = file_name_str(p);
    if is_hidden_name(f.as_str()) {
        return false;
    }
    let e = ext_str(p);
    is_music_extension(e.as_str())
}

/// The single-release rule: an album is treated as a single when its name is
/// empty or case-folds to `"<title> - single"`.
pub open spec fn spec_is_single(album: Seq<char>, title: Seq<char>) -> bool {
    album.len() == 0 || lower(album) == lower(title) + " - single"@
}

/// Executable single-release test.
pub fn is_single(album: &str, title: &str) -> (r: bool)
    ensures
        r == spec_is_single(album@, title@),
{
    if album.unicode_len() == 0 {
        return true;
    }
    let la = str_lower(album);
    let mut lt = str_lower(title);
    lt.append(" - single");
    la == lt
}

/// The file name of a single release: `artist - title.ext`.
pub open spec fn spec_single_name(s: SongView, ext: Seq<char>) -> Seq<char> {
    spec_sanitize(s.artist) + " - "@ + spec_sanitize(s.title) + "."@ + ext
}

/// The file name of an album track: `NN - artist - title.ext`.
pub open spec fn spec_track_name(s: SongView, ext: Seq<char>) -> Seq<char> {
    pad2(s.track as nat) + " - "@ + spec_sanitize(s.artist) + " - "@ + spec_sanitize(s.title)
        + "."@ + ext
}

/// The destination of one hierarchy song: under the sanitized artist
/// directory for a single, under the sanitized album directory with a
/// track-prefixed name otherwise.
pub open spec fn spec_song_dest(
    out: Seq<char>,
    ar_name: Seq<char>,
    al_name: Seq<char>,
    s: SongView,
) -> Seq<char> {
    let ext = ext_or_empty(s.current_file);
    if spec_is_single(al_name, s.title) {
        out + "/"@ + spec_sanitize(ar_name) + "/"@ + spec_single_name(s, ext)
    } else {
        out + "/"@ + spec_sanitize(ar_name) + "/"@ + spec_sanitize(al_name) + "/"@
            + spec_track_name(s, ext)
    }
}

/// The destination of an unattributed song: its own file name under the
/// `unknown` directory.
pub open spec fn spec_unknown_dest(out: Seq<char>, s: SongView) -> Seq<char> {
    out + "/unknown/"@ + file_name_of(s.current_file)
}

/// Executable destination path for one hierarchy song.
pub fn song_dest(out: &str, ar_name: &str, al_name: &str, song: &Song) -> (r: String)
    ensures
        r@ == spec_song_dest(out@, ar_name@, al_name@, song@),
{
    let ext = ext_str(song.current_file.as_str());
    let mut r = out.to_owned();
    r.append("/");
    let sar = sanitize(ar_name);
    r.append(sar.as_str());
    r.append("/");
    if is_single(al_name, song.title.as_str()) {
        let sa = sanitize(song.artist.as_str());
        r.append(sa.as_str());
        r.append(" - ");
        let st = sanitize(song.title.as_str());
        r.append(st.as_str());
        r.append(".");
        r.append(ext.as_str());
        proof {
            assert(r@ =~= spec_song_dest(out@, ar_name@, al_name@, song@));
        }
    } else {
        let sal = sanitize(al_name);
        r.append(sal.as_str());
        r.append("/");
        let tp = pad2_str(song.track);
        r.append(tp.as_str());
        r.append(" - ");
        let sa = sanitize(song.artist.as_str());
        r.append(sa.as_str());
        r.append(" - ");
        let st = sanitize(song.title.as_str());
        r.append(st.as_str());
        r.append(".");
        r.append(ext.as_str());
        proof {
            assert(r@ =~= spec_song_dest(out@, ar_name@, al_name@, song@));
        }
    }
    r
}

/// Executable destination path for one unknown-bucket song.
pub fn unknown_dest(out: &str, song: &Song) -> (r: String)
    ensures
        r@ == spec_unknown_dest(out@, song@),
{
    let mut r = out.to_owned();
    r.append("/unknown/");
    let f = file_name_str(song.current_file.as_str());
    r.append(f.as_str());
    proof {
        assert(r@ =~= spec_unknown_dest(out@, song@));
    }
    r
}

/// One planned file movement.
#[derive(Debug, PartialEq)]
pub struct Transfer {
    pub source: String,
    pub dest: String,
}

#[verifier::ext_equal]
pub struct TransferView {
    pub source: Seq<char>,
    pub dest: Seq<char>,
}

impl View for Transfer {
    type V = TransferView;

    open spec fn view(&self) -> TransferView {
        TransferView { source: self.source@, dest: self.dest@ }
    }
}

/// The planned transfers of one album, in song order.
pub open spec fn spec_album_plan(
    out: Seq<char>,
    ar_name: Seq<char>,
    al: AlbumView,
    songs: Seq<SongView>,
) -> Seq<TransferView> {
    al.songs.map_values(
        |si: usize|
            TransferView {
                source: songs[si as int].current_file,
                dest: spec_song_dest(out, ar_name, al.name, songs[si as int]),
            },
    )
}

/// The planned transfers of an album list, in order.
pub open spec fn spec_albums_plan(
    out: Seq<char>,
    ar_name: Seq<char>,
    als: Seq<AlbumView>,
    songs: Seq<SongView>,
) -> Seq<TransferView>
    decreases als.len(),
{
    if als.len() == 0 {
        Seq::empty()
    } else {
        spec_albums_plan(out, ar_name, als.drop_last(), songs) + spec_album_plan(
            out,
            ar_name,
            als.last(),
            songs,
        )
    }
}

/// The planned transfers of the whole hierarchy, artist by artist.
pub open spec fn spec_artists_plan(
    out: Seq<char>,
    ars: Seq<ArtistView>,
    songs: Seq<SongView>,
) -> Seq<TransferView>
    decreases ars.len(),
{
    if ars.len() == 0 {
        Seq::empty()
    } else {
        spec_artists_plan(out, ars.drop_last(), songs) + spec_albums_plan(
            out,
            ars.last().name,
            ars.last().albums,
            songs,
        )
    }
}

/// The planned transfers of the unknown bucket, in order.
pub open spec fn spec_unknown_plan(
    out: Seq<char>,
    unknown: Seq<usize>,
    songs: Seq<SongView>,
) -> Seq<TransferView> {
    unknown.map_values(
        |si: usize|
            TransferView {
                source: songs[si as int].current_file,
                dest: spec_unknown_dest(out, songs[si as int]),
            },
    )
}

/// The whole plan: hierarchy transfers first, unknown transfers last.
pub open spec fn spec_plan(out: Seq<char>, ix: IndexView) -> Seq<TransferView> {
    spec_artists_plan(out, ix.artists, ix.songs) + spec_unknown_plan(out, ix.unknown, ix.songs)
}

/// Derive the destination of every indexed song. The planner reads the
/// index only: re-running it yields the same plan.
pub fn plan_transfers(ix: &MusicIndex, out: &str) -> (r: Vec<Transfer>)
    requires
        partitioned(ix@),
    ensures
        r@.map_values(|t: Transfer| t@) == spec_plan(out@, ix@),
{
    let ghost ixv = ix@;
    let mut r: Vec<Transfer> = Vec::new();
    let mut i: usize = 0;
    while i < ix.artists.len()
        invariant
            partitioned(ixv),
            ixv == ix@,
            i <= ixv.artists.len(),
            r@.map_values(|t: Transfer| t@) == spec_artists_plan(
                out@,
                ixv.artists.subrange(0, i as int),
                ixv.songs,
            ),
        decreases ixv.artists.len() - i,
    {
        let ghost arv = ixv.artists[i as int];
        let mut j: usize = 0;
        while j < ix.artists[i].albums.len()
            invariant
                partitioned(ixv),
                ixv == ix@,
                i < ixv.artists.len(),
                arv == ixv.artists[i as int],
                j <= arv.albums.len(),
                r@.map_values(|t: Transfer| t@) == spec_artists_plan(
                    out@,
                    ixv.artists.subrange(0, i as int),
                    ixv.songs,
                ) + spec_albums_plan(out@, arv.name, arv.albums.subrange(0, j as int), ixv.songs),
            decreases arv.albums.len() - j,
        {
            let ghost alv = arv.albums[j as int];
            let ghost base = spec_artists_plan(out@, ixv.artists.subrange(0, i as int), ixv.songs)
                + spec_albums_plan(out@, arv.name, arv.albums.subrange(0, j as int), ixv.songs);
            let mut k: usize = 0;
            while k < ix.artists[i].albums[j].songs.len()
                invariant
                    partitioned(ixv),
                    ixv == ix@,
                    i < ixv.artists.len(),
                    arv == ixv.artists[i as int],
                    j < arv.albums.len(),
                    alv == arv.albums[j as int],
                    k <= alv.songs.len(),
                    base == spec_artists_plan(out@, ixv.artists.subrange(0, i as int), ixv.songs)
                        + spec_albums_plan(
                        out@,
                        arv.name,
                        arv.albums.subrange(0, j as int),
                        ixv.songs,
                    ),
                    r@.map_values(|t: Transfer| t@) == base + spec_album_plan(
                        out@,
                        arv.name,
                        AlbumView { name: alv.name, songs: alv.songs.subrange(0, k as int) },
                        ixv.songs,
                    ),
                decreases alv.songs.len() - k,
            {
                let si = ix.artists[i].albums[j].songs[k];
                proof {
                    crate::index::lemma_partitioned_index_in_range(
                        ixv,
                        i as int,
                        j as int,
                        k as int,
                    );
                }
                let song = &ix.songs[si];
                let dest = song_dest(
                    out,
                    ix.artists[i].name.as_str(),
                    ix.artists[i].albums[j].name.as_str(),
                    song,
                );
                let ghost prev = r@;
                r.push(Transfer { source: song.current_file.clone(), dest });
                proof {
                    assert(song@ == ixv.songs[si as int]);
                    assert(dest@ == spec_song_dest(out@, arv.name, alv.name, ixv.songs[si as int]));
                    assert(alv.songs.subrange(0, k + 1) =~= alv.songs.subrange(0, k as int).push(
                        alv.songs[k as int],
                    ));
                    let ghost tv = TransferView {
                        source: ixv.songs[si as int].current_file,
                        dest: spec_song_dest(out@, arv.name, alv.name, ixv.songs[si as int]),
                    };
                    assert(r@.map_values(|t: Transfer| t@) =~~= prev.map_values(
                        |t: Transfer| t@,
                    ).push(tv));
                    assert(spec_album_plan(
                        out@,
                        arv.name,
                        AlbumView { name: alv.name, songs: alv.songs.subrange(0, k + 1) },
                        ixv.songs,
                    ) =~~= spec_album_plan(
                        out@,
                        arv.name,
                        AlbumView { name: alv.name, songs: alv.songs.subrange(0, k as int) },
                        ixv.songs,
                    ).push(tv));
                    assert(base + spec_album_plan(
                        out@,
                        arv.name,
                        AlbumView { name: alv.name, songs: alv.songs.subrange(0, k as int) },
                        ixv.songs,
                    ).push(tv) =~= (base + spec_album_plan(
                        out@,
                        arv.name,
                        AlbumView { name: alv.name, songs: alv.songs.subrange(0, k as int) },
                        ixv.songs,
                    )).push(tv));
                    assert(r@.map_values(|t: Transfer| t@) == base + spec_album_plan(
                        out@,
                        arv.name,
                        AlbumView { name: alv.name, songs: alv.songs.subrange(0, k + 1) },
                        ixv.songs,
                    ));
                }
                k = k + 1;
            }
            proof {
                assert(alv.songs.subrange(0, alv.songs.len() as int) =~= alv.songs);
                assert(arv.albums.subrange(0, j + 1).drop_last() =~= arv.albums.subrange(
                    0,
                    j as int,
                ));
                assert(arv.albums.subrange(0, j + 1).last() == alv);
                assert(AlbumView { name: alv.name, songs: alv.songs } =~= alv);
                assert(r@.map_values(|t: Transfer| t@) =~= spec_artists_plan(
                    out@,
                    ixv.artists.subrange(0, i as int),
                    ixv.songs,
                ) + spec_albums_plan(out@, arv.name, arv.albums.subrange(0, j + 1), ixv.songs));
            }
            j = j + 1;
        }
        proof {
            assert(arv.albums.subrange(0, arv.albums.len() as int) =~= arv.albums);
            assert(ixv.artists.subrange(0, i + 1).drop_last() =~= ixv.artists.subrange(0, i as int));
            assert(ixv.artists.subrange(0, i + 1).last() == arv);
            assert(r@.map_values(|t: Transfer| t@) =~= spec_artists_plan(
                out@,
                ixv.artists.subrange(0, i + 1),
                ixv.songs,
            ));
        }
        i = i + 1;
    }
    proof {
        assert(ixv.artists.subrange(0, ixv.artists.len() as int) =~= ixv.artists);
    }
    let ghost hbase = spec_artists_plan(out@, ixv.artists, ixv.songs);
    let mut u: usize = 0;
    while u < ix.unknown.len()
        invariant
            partitioned(ixv),
            ixv == ix@,
            u <= ixv.unknown.len(),
            hbase == spec_artists_plan(out@, ixv.artists, ixv.songs),
            r@.map_values(|t: Transfer| t@) == hbase + spec_unknown_plan(
                out@,
                ixv.unknown.subrange(0, u as int),
                ixv.songs,
            ),
        decreases ixv.unknown.len() - u,
    {
        proof {
            assert(r@.map_values(|t: Transfer| t@) == hbase + spec_unknown_plan(
                out@,
                ixv.unknown.subrange(0, u as int),
                ixv.songs,
            ));
        }
        let si = ix.unknown[u];
        proof {
            crate::index::lemma_partitioned_unknown_in_range(ixv, u as int);
        }
        let song = &ix.songs[si];
        let dest = unknown_dest(out, song);
        let ghost uprev = r@;
        r.push(Transfer { source: song.current_file.clone(), dest });
        proof {
            assert(song@ == ixv.songs[si as int]);
            assert(ixv.unknown.subrange(0, u + 1) =~= ixv.unknown.subrange(0, u as int).push(
                ixv.unknown[u as int],
            ));
            assert(dest@ == spec_unknown_dest(out@, ixv.songs[si as int]));
            assert(ixv.unknown.subrange(0, u + 1) =~= ixv.unknown.subrange(0, u as int).push(
                ixv.unknown[u as int],
            ));
            let ghost tv = TransferView {
                source: ixv.songs[si as int].current_file,
                dest: spec_unknown_dest(out@, ixv.songs[si as int]),
            };
            assert(r@.map_values(|t: Transfer| t@) =~~= uprev.map_values(|t: Transfer| t@).push(
                tv,
            ));
            assert(spec_unknown_plan(out@, ixv.unknown.subrange(0, u + 1), ixv.songs)
                =~~= spec_unknown_plan(out@, ixv.unknown.subrange(0, u as int), ixv.songs).push(tv));
            assert(hbase + spec_unknown_plan(out@, ixv.unknown.subrange(0, u as int), ixv.songs).push(
                tv,
            ) =~= (hbase + spec_unknown_plan(out@, ixv.unknown.subrange(0, u as int), ixv.songs)).push(
                tv,
            ));
            assert(r@.map_values(|t: Transfer| t@) == hbase + spec_unknown_plan(
                out@,
                ixv.unknown.subrange(0, u + 1),
                ixv.songs,
            ));
        }
        u = u + 1;
    }
    proof {
        assert(ixv.unknown.subrange(0, ixv.unknown.len() as int) =~= ixv.unknown);
        assert(r@.map_values(|t: Transfer| t@) =~= spec_plan(out@, ixv));
    }
    r
}

/// What the relocator does with one planned transfer.
#[derive(Clone, Copy, Debug, PartialEq, Eq, Structural)]
pub enum TransferAction {
    Skip,
    CopyFile,
    MoveFile,
}

/// The relocation decision: an already-placed file is skipped, everything
/// else is copied or moved per the operating mode.
pub open spec fn spec_action(source: Seq<char>, dest: Seq<char>, copy: bool) -> TransferAction {
    if source == dest {
        TransferAction::Skip
    } else if copy {
        TransferAction::CopyFile
    } else {
        TransferAction::MoveFile
    }
}

/// Executable relocation decision for one transfer.
pub fn transfer_action(t: &Transfer, copy: bool) -> (a: TransferAction)
    ensures
        a == spec_action(t.source@, t.dest@, copy),
{
    if t.source == t.dest {
        TransferAction::Skip
    } else if copy {
        TransferAction::CopyFile
    } else {
        TransferAction::MoveFile
    }
}

/// Law: a plan whose destinations already equal their sources causes no
/// filesystem work — every transfer is decided as a skip, so a second run
/// over an already-organized tree changes nothing.
pub proof fn lemma_settled_plan_skips(plan: Seq<TransferView>, copy: bool)
    requires
        forall|k: int| 0 <= k < plan.len() ==> (#[trigger] plan[k]).dest == plan[k].source,
    ensures
        forall|k: int|
            0 <= k < plan.len() ==> spec_action(
                (#[trigger] plan[k]).source,
                plan[k].dest,
                copy,
            ) == TransferAction::Skip,
{
}

/// The suffix after the last separator never holds the separator itself.
pub proof fn lemma_after_last_no_sep(p: Seq<char>, c: char)
    ensures
        forall|i: int| 0 <= i < after_last(p, c).len() ==> #[trigger] after_last(p, c)[i] != c,
    decreases p.len(),
{
    if p.len() > 0 && p.last() != c {
        lemma_after_last_no_sep(p.drop_last(), c);
        let t = after_last(p.drop_last(), c);
        assert forall|i: int| 0 <= i < after_last(p, c).len() implies after_last(p, c)[i] != c by {
            if i < t.len() {
                assert(after_last(p, c)[i] == t[i]);
            } else {
                assert(after_last(p, c)[i] == p.last());
            }
        }
    }
}

/// A character absent from the text is absent from any suffix after a
/// separator.
proof fn lemma_after_last_keeps(p: Seq<char>, c: char, d: char)
    requires
        forall|i: int| 0 <= i < p.len() ==> p[i] != d,
    ensures
        forall|i: int| 0 <= i < after_last(p, c).len() ==> #[trigger] after_last(p, c)[i] != d,
    decreases p.len(),
{
    if p.len() > 0 && p.last() != c {
        assert(forall|i: int| 0 <= i < p.drop_last().len() ==> p.drop_last()[i] != d);
        lemma_after_last_keeps(p.drop_last(), c, d);
        let t = after_last(p.drop_last(), c);
        assert forall|i: int| 0 <= i < after_last(p, c).len() implies after_last(p, c)[i] != d by {
            if i < t.len() {
                assert(after_last(p, c)[i] == t[i]);
            } else {
                assert(after_last(p, c)[i] == p.last());
            }
        }
    }
}

/// The suffix after the last separator of `a + [c] + b` is `b` itself when
/// `b` holds no separator.
proof fn lemma_after_last_append(a: Seq<char>, b: Seq<char>, c: char)
    requires
        forall|i: int| 0 <= i < b.len() ==> b[i] != c,
    ensures
        after_last(a + seq![c] + b, c) == b,
{
    let p = a + seq![c] + b;
    assert(p[a.len() as int] == c);
    assert forall|k: int| a.len() < k < p.len() implies p[k] != c by {
        assert(p[k] == b[k - a.len() - 1]);
    }
    lemma_after_last_at(p, c, a.len() as int);
    assert(p.subrange(a.len() + 1int, p.len() as int) =~= b);
}

/// Law: relocation is idempotent at the planning level — once a song lies
/// at its planned destination, re-planning derives the same destination, so
/// every later run decides a skip for it.
pub proof fn lemma_song_dest_stable(
    out: Seq<char>,
    ar_name: Seq<char>,
    al_name: Seq<char>,
    s: SongView,
)
    ensures
        spec_song_dest(
            out,
            ar_name,
            al_name,
            SongView {
                track: s.track,
                artist: s.artist,
                title: s.title,
                current_file: spec_song_dest(out, ar_name, al_name, s),
            },
        ) == spec_song_dest(out, ar_name, al_name, s),
{
    reveal_strlit("/");
    reveal_strlit(".");
    reveal_strlit(" - ");
    let d = spec_song_dest(out, ar_name, al_name, s);
    let ext = ext_or_empty(s.current_file);
    // The renaming extension holds neither a dot nor a slash.
    assert(forall|i: int| 0 <= i < ext.len() ==> ext[i] != '.' && ext[i] != '/') by {
        let f0 = file_name_of(s.current_file);
        lemma_after_last_no_sep(s.current_file, '/');
        lemma_after_last_no_sep(f0, '.');
        lemma_after_last_keeps(f0, '.', '/');
    }
    crate::sanitize::lemma_sanitize_safe(s.artist);
    crate::sanitize::lemma_sanitize_safe(s.title);
    crate::sanitize::lemma_sanitize_safe(ar_name);
    crate::sanitize::lemma_sanitize_safe(al_name);
    crate::text::lemma_pad2_digits(s.track as nat);
    if spec_is_single(al_name, s.title) {
        let fname = spec_single_name(s, ext);
        let prefix = out + "/"@ + spec_sanitize(ar_name);
        assert(d =~= prefix + seq!['/'] + fname);
        let head = spec_sanitize(s.artist) + " - "@ + spec_sanitize(s.title);
        assert(fname =~= head + seq!['.'] + ext);
        assert(forall|i: int| 0 <= i < head.len() ==> head[i] != '/');
        assert(forall|i: int| 0 <= i < fname.len() ==> fname[i] != '/');
        lemma_after_last_append(prefix, fname, '/');
        assert(file_name_of(d) == fname);
        lemma_after_last_append(head, ext, '.');
        assert(after_last(fname, '.') == ext);
        assert(fname[head.len() as int] == '.');
        assert(fname.contains('.'));
        assert(fname.len() - after_last(fname, '.').len() - 1 == head.len());
        assert(head.len() >= 3);
        assert(ext_or_empty(d) == ext);
        let s2 = SongView { track: s.track, artist: s.artist, title: s.title, current_file: d };
        assert(spec_song_dest(out, ar_name, al_name, s2) == d);
    } else {
        let fname = spec_track_name(s, ext);
        let prefix = out + "/"@ + spec_sanitize(ar_name) + "/"@ + spec_sanitize(al_name);
        assert(d =~= prefix + seq!['/'] + fname);
        let head = pad2(s.track as nat) + " - "@ + spec_sanitize(s.artist) + " - "@
            + spec_sanitize(s.title);
        assert(fname =~= head + seq!['.'] + ext);
        assert(forall|i: int| 0 <= i < head.len() ==> head[i] != '/');
        assert(forall|i: int| 0 <= i < fname.len() ==> fname[i] != '/');
        lemma_after_last_append(prefix, fname, '/');
        assert(file_name_of(d) == fname);
        lemma_after_last_append(head, ext, '.');
        assert(after_last(fname, '.') == ext);
        assert(fname[head.len() as int] == '.');
        assert(fname.contains('.'));
        assert(fname.len() - after_last(fname, '.').len() - 1 == head.len());
        assert(head.len() >= 2);
        assert(ext_or_empty(d) == ext);
        let s2 = SongView { track: s.track, artist: s.artist, title: s.title, current_file: d };
        assert(spec_song_dest(out, ar_name, al_name, s2) == d);
    }
}

/// Law: the same stability holds for unknown-bucket songs — the file name
/// under the `unknown` directory re-derives to itself.
pub proof fn lemma_unknown_dest_stable(out: Seq<char>, s: SongView)
    ensures
        spec_unknown_dest(
            out,
            SongView {
                track: s.track,
                artist: s.artist,
                title: s.title,
                current_file: spec_unknown_dest(out, s),
            },
        ) == spec_unknown_dest(out, s),
{
    reveal_strlit("/unknown/");
    let fname = file_name_of(s.current_file);
    let d = spec_unknown_dest(out, s);
    lemma_after_last_no_sep(s.current_file, '/');
    let prefix = out + "/unknown"@;
    assert(d =~= prefix + seq!['/'] + fname) by {
        reveal_strlit("/unknown");
    }
    lemma_after_last_append(prefix, fname, '/');
    assert(file_name_of(d) == fname);
}

} // verus!
