//! Detection and resolution of near-duplicate artist names: two artists
//! whose names are equal under ASCII case folding are a conflicting pair,
//! and the operator may keep both, merge them under either name, or merge
//! them under a freshly entered name.

use vstd::prelude::*;

use crate::index::{
    Album, AlbumView, Artist, ArtistView, IndexView, MetadataView, MusicIndex, count_albums,
    count_artists, count_seq, find_album, lemma_count_albums_push, lemma_count_albums_update,
    lemma_count_artists_update, lemma_find_album_at, lemma_push_contains, partitioned, song_count,
    spec_add_song,
};
use crate::text::{eq_ignore_case, lower};

verus! {

/// Two names conflict when they are equal under ASCII case folding.
pub open spec fn similar_names(a: Seq<char>, b: Seq<char>) -> bool {
    lower(a) == lower(b)
}

/// Positions `i < j` form a conflicting pair when the artists' names are
/// equal under case folding but not exactly equal.
pub open spec fn conflicting_pair(ars: Seq<ArtistView>, i: int, j: int) -> bool {
    0 <= i < j < ars.len() && similar_names(ars[i].name, ars[j].name) && ars[i].name
        != ars[j].name
}

/// Strict position order on index pairs.
pub open spec fn pair_lt(a: (usize, usize), b: (usize, usize)) -> bool {
    a.0 < b.0 || (a.0 == b.0 && a.1 < b.1)
}

/// Whether a pair lies before the scan position `(i, j)`.
pub open spec fn pair_before(p: (usize, usize), i: int, j: int) -> bool {
    (p.0 as int) < i || (p.0 as int == i && (p.1 as int) < j)
}

/// Executable similarity test on two artists.
pub fn artists_similar(a: &Artist, b: &Artist) -> (r: bool)
    ensures
        r == similar_names(a.name@, b.name@),
{
    eq_ignore_case(a.name.as_str(), b.name.as_str())
}

/// All conflicting pairs `(i, j)` with `i < j`, in scan order.
pub fn find_conflicts(artists: &Vec<Artist>) -> (r: Vec<(usize, usize)>)
    ensures
        forall|p: (usize, usize)| #[trigger]
            r@.contains(p) <==> conflicting_pair(
                artists@.map_values(|a: Artist| a@),
                p.0 as int,
                p.1 as int,
            ),
        forall|k1: int, k2: int| 0 <= k1 < k2 < r@.len() ==> pair_lt(r@[k1], r@[k2]),
{
    let ghost ars = artists@.map_values(|a: Artist| a@);
    let n = artists.len();
    let mut r: Vec<(usize, usize)> = Vec::new();
    let mut i: usize = 0;
    while i < n
        invariant
            i <= n,
            n == artists@.len(),
            ars == artists@.map_values(|a: Artist| a@),
            forall|p: (usize, usize)| #[trigger]
                r@.contains(p) <==> (conflicting_pair(ars, p.0 as int, p.1 as int) && pair_before(
                    p,
                    i as int,
                    i + 1,
                )),
            forall|k1: int, k2: int| 0 <= k1 < k2 < r@.len() ==> pair_lt(r@[k1], r@[k2]),
            forall|k: int| 0 <= k < r@.len() ==> pair_before(#[trigger] r@[k], i as int, i + 1),
        decreases n - i,
    {
        let mut j: usize = i + 1;
        while j < n
            invariant
                i < j <= n,
                n == artists@.len(),
                ars == artists@.map_values(|a: Artist| a@),
                forall|p: (usize, usize)| #[trigger]
                    r@.contains(p) <==> (conflicting_pair(ars, p.0 as int, p.1 as int)
                        && pair_before(p, i as int, j as int)),
                forall|k1: int, k2: int| 0 <= k1 < k2 < r@.len() ==> pair_lt(r@[k1], r@[k2]),
                forall|k: int| 0 <= k < r@.len() ==> pair_before(#[trigger] r@[k], i as int, j as int),
            decreases n - j,
        {
            if artists_similar(&artists[i], &artists[j]) && !(artists[i].name
                == artists[j].name) {
                let ghost prev = r@;
                r.push((i, j));
                proof {
                    assert forall|p: (usize, usize)| #[trigger]
                        r@.contains(p) <==> (conflicting_pair(ars, p.0 as int, p.1 as int)
                            && pair_before(p, i as int, j + 1)) by {
                        lemma_push_contains(prev, (i, j), p);
                    }
                    assert(forall|k: int|
                        0 <= k < prev.len() ==> pair_before(#[trigger] prev[k], i as int, j as int));
                    assert forall|k1: int, k2: int| 0 <= k1 < k2 < r@.len() implies pair_lt(
                        r@[k1],
                        r@[k2],
                    ) by {
                        if k2 == r@.len() - 1 {
                            assert(pair_before(prev[k1], i as int, j as int));
                        }
                    }
                }
            } else {
                proof {
                    assert forall|p: (usize, usize)| #[trigger]
                        r@.contains(p) <==> (conflicting_pair(ars, p.0 as int, p.1 as int)
                            && pair_before(p, i as int, j + 1)) by {}
                }
            }
            j = j + 1;
        }
        proof {
            assert forall|p: (usize, usize)| (conflicting_pair(ars, p.0 as int, p.1 as int)
                && pair_before(p, i as int, n as int)) implies (conflicting_pair(
                ars,
                p.0 as int,
                p.1 as int,
            ) && pair_before(p, i + 1, i + 2)) by {}
            assert forall|p: (usize, usize)| (conflicting_pair(ars, p.0 as int, p.1 as int)
                && pair_before(p, i + 1, i + 2)) implies pair_before(p, i as int, n as int) by {}
        }
        i = i + 1;
    }
    r
}

/// Merging one album list into another: each incoming album joins the first
/// album of the same name, whose song list it extends, or is appended when
/// its name is new.
pub open spec fn spec_merge_albums(dst: Seq<AlbumView>, src: Seq<AlbumView>) -> Seq<AlbumView>
    decreases src.len(),
{
    if src.len() == 0 {
        dst
    } else {
        let al = src[0];
        let j = find_album(dst, al.name) as int;
        let dst2 = if j < dst.len() {
            dst.update(j, AlbumView { name: dst[j].name, songs: dst[j].songs + al.songs })
        } else {
            dst.push(al)
        };
        spec_merge_albums(dst2, src.drop_first())
    }
}

/// Executable merge of the album list `src` into `dst`.
pub fn merge_albums(dst: &mut Vec<Album>, src: Vec<Album>)
    ensures
        final(dst)@.map_values(|a: Album| a@) == spec_merge_albums(
            old(dst)@.map_values(|a: Album| a@),
            src@.map_values(|a: Album| a@),
        ),
{
    let ghost dst0 = dst@.map_values(|a: Album| a@);
    let ghost src0 = src@.map_values(|a: Album| a@);
    let mut rest = src;
    while rest.len() > 0
        invariant
            spec_merge_albums(dst0, src0) == spec_merge_albums(
                dst@.map_values(|a: Album| a@),
                rest@.map_values(|a: Album| a@),
            ),
        decreases rest@.len(),
    {
        let ghost dv = dst@.map_values(|a: Album| a@);
        let ghost rv = rest@.map_values(|a: Album| a@);
        let al = rest.remove(0);
        proof {
            assert(al@ == rv[0]);
            assert(rest@.map_values(|a: Album| a@) =~= rv.drop_first());
        }
        // Scan dst for an album with this name.
        let n = dst.len();
        let mut j: usize = 0;
        let mut found = false;
        while !found && j < n
            invariant
                j <= n,
                n == dst@.len(),
                dv == dst@.map_values(|a: Album| a@),
                found ==> j < n && dv[j as int].name == al.name@,
                forall|k: int| 0 <= k < j ==> #[trigger] dv[k].name != al.name@,
            decreases n - j + if found {
                0int
            } else {
                1int
            },
        {
            if dst[j].name == al.name {
                found = true;
            } else {
                j = j + 1;
            }
        }
        proof {
            lemma_find_album_at(dv, al.name@, j as int);
        }
        if found {
            let mut cur = dst.remove(j);
            let mut incoming = al;
            cur.songs.append(&mut incoming.songs);
            dst.insert(j, cur);
            proof {
                assert(dst@.map_values(|a: Album| a@) =~~= dv.update(
                    j as int,
                    AlbumView { name: dv[j as int].name, songs: dv[j as int].songs + rv[0].songs },
                ));
            }
        } else {
            dst.push(al);
            proof {
                assert(dst@.map_values(|a: Album| a@) =~~= dv.push(rv[0]));
            }
        }
    }
    proof {
        assert(rest@.map_values(|a: Album| a@) =~= Seq::<AlbumView>::empty());
    }
}

/// Merging song lists never loses or duplicates a song: the merged album
/// list holds each song index exactly as often as the two lists together.
pub proof fn lemma_merge_albums_count(dst: Seq<AlbumView>, src: Seq<AlbumView>, x: usize)
    ensures
        count_albums(spec_merge_albums(dst, src), x) == count_albums(dst, x) + count_albums(
            src,
            x,
        ),
    decreases src.len(),
{
    if src.len() > 0 {
        let al = src[0];
        let j = find_album(dst, al.name) as int;
        let dst2 = if j < dst.len() {
            dst.update(j, AlbumView { name: dst[j].name, songs: dst[j].songs + al.songs })
        } else {
            dst.push(al)
        };
        lemma_merge_albums_count(dst2, src.drop_first(), x);
        lemma_count_albums_front(src, x);
        if j < dst.len() {
            lemma_count_seq_concat(dst[j].songs, al.songs, x);
            lemma_count_albums_update(
                dst,
                j,
                AlbumView { name: dst[j].name, songs: dst[j].songs + al.songs },
                x,
            );
        } else {
            lemma_count_albums_push(dst, al, x);
        }
    }
}

/// Counting distributes over concatenation of song lists.
pub proof fn lemma_count_seq_concat(a: Seq<usize>, b: Seq<usize>, x: usize)
    ensures
        count_seq(a + b, x) == count_seq(a, x) + count_seq(b, x),
    decreases b.len(),
{
    if b.len() == 0 {
        assert(a + b =~= a);
    } else {
        lemma_count_seq_concat(a, b.drop_last(), x);
        assert((a + b).drop_last() =~= a + b.drop_last());
        assert((a + b).last() == b.last());
    }
}

/// Counting an album list from the front.
proof fn lemma_count_albums_front(als: Seq<AlbumView>, x: usize)
    requires
        als.len() > 0,
    ensures
        count_albums(als, x) == count_seq(als[0].songs, x) + count_albums(als.drop_first(), x),
    decreases als.len(),
{
    if als.len() == 1 {
        assert(als.drop_last() =~= Seq::<AlbumView>::empty());
        assert(als.drop_first() =~= Seq::<AlbumView>::empty());
        assert(als.last() == als[0]);
    } else {
        lemma_count_albums_front(als.drop_last(), x);
        assert(als.drop_last()[0] == als[0]);
        assert(als.drop_first().drop_last() =~= als.drop_last().drop_first());
        assert(als.drop_first().last() == als.last());
    }
}

/// Counting artists from one removal.
pub proof fn lemma_count_artists_remove(ars: Seq<ArtistView>, i: int, x: usize)
    requires
        0 <= i < ars.len(),
    ensures
        count_artists(ars.remove(i), x) == count_artists(ars, x) - count_albums(ars[i].albums, x),
    decreases ars.len(),
{
    if i == ars.len() - 1 {
        assert(ars.remove(i) =~= ars.drop_last());
    } else {
        lemma_count_artists_remove(ars.drop_last(), i, x);
        assert(ars.remove(i).drop_last() =~= ars.drop_last().remove(i));
        assert(ars.remove(i).last() == ars.last());
        assert(ars.drop_last()[i] == ars[i]);
    }
}

/// What merging two artists does to the artist list: the kept position gets
/// the chosen name and the merged album lists, the other entry disappears.
pub open spec fn spec_merge_artists(
    ars: Seq<ArtistView>,
    keep: int,
    rem: int,
    name: Seq<char>,
) -> Seq<ArtistView> {
    ars.update(
        keep,
        ArtistView { name: name, albums: spec_merge_albums(ars[keep].albums, ars[rem].albums) },
    ).remove(rem)
}

impl MusicIndex {
    /// Resolve a conflicting pair by combining both artists' album lists
    /// under the given name, keeping the first position and dropping the
    /// second. Songs and the unknown bucket are untouched, and the partition
    /// invariant is preserved.
    pub fn merge_artists(&mut self, keep: usize, rem: usize, name: String)
        requires
            keep < old(self)@.artists.len(),
            rem < old(self)@.artists.len(),
            keep != rem,
            partitioned(old(self)@),
        ensures
            final(self)@.artists == spec_merge_artists(
                old(self)@.artists,
                keep as int,
                rem as int,
                name@,
            ),
            final(self)@.songs == old(self)@.songs,
            final(self)@.unknown == old(self)@.unknown,
            partitioned(final(self)@),
    {
        let ghost ars = self@.artists;
        let removed = self.artists.remove(rem);
        proof {
            assert(self@.artists =~= ars.remove(rem as int));
            assert(removed@ == ars[rem as int]);
        }
        let k2 = if keep > rem {
            keep - 1
        } else {
            keep
        };
        proof {
            assert(ars.remove(rem as int)[k2 as int] == ars[keep as int]);
        }
        let mut ar = self.artists.remove(k2);
        proof {
            assert(ar@ == ars[keep as int]);
        }
        ar.name = name;
        merge_albums(&mut ar.albums, removed.albums);
        proof {
            assert(ar@ =~~= ArtistView {
                name: name@,
                albums: spec_merge_albums(ars[keep as int].albums, ars[rem as int].albums),
            });
        }
        self.artists.insert(k2, ar);
        proof {
            let m = ArtistView {
                name: name@,
                albums: spec_merge_albums(ars[keep as int].albums, ars[rem as int].albums),
            };
            assert(self@.artists =~~= ars.remove(rem as int).remove(k2 as int).insert(k2 as int, m));
            assert forall|t: int|
                0 <= t < ars.remove(rem as int).update(k2 as int, m).len() implies ars.remove(
                rem as int,
            ).update(k2 as int, m)[t] == spec_merge_artists(ars, keep as int, rem as int, name@)[t] by {
                assert(spec_merge_artists(ars, keep as int, rem as int, name@) == ars.update(
                    keep as int,
                    m,
                ).remove(rem as int));
            }
            assert(ars.remove(rem as int).remove(k2 as int).insert(k2 as int, m) =~~= ars.remove(
                rem as int,
            ).update(k2 as int, m));
            assert(ars.remove(rem as int).update(k2 as int, m) =~~= spec_merge_artists(
                ars,
                keep as int,
                rem as int,
                name@,
            ));
            // Counting: the merged entry holds exactly the songs of both.
            assert forall|x: usize|
                #[trigger] song_count(self@, x) == song_count(old(self)@, x) by {
                lemma_count_artists_update(ars, keep as int, m, x);
                lemma_count_artists_remove(
                    ars.update(keep as int, m),
                    rem as int,
                    x,
                );
                lemma_merge_albums_count(ars[keep as int].albums, ars[rem as int].albums, x);
                assert(ars.update(keep as int, m)[rem as int] == ars[rem as int]);
            }
        }
    }
}

/// The concatenated song lists of every album of the given name, in order.
pub open spec fn songs_of_name(als: Seq<AlbumView>, name: Seq<char>) -> Seq<usize>
    decreases als.len(),
{
    if als.len() == 0 {
        Seq::empty()
    } else {
        songs_of_name(als.drop_last(), name) + if als.last().name == name {
            als.last().songs
        } else {
            Seq::empty()
        }
    }
}

/// No two albums of the list share a name.
pub open spec fn unique_album_names(als: Seq<AlbumView>) -> bool {
    forall|j1: int, j2: int| 0 <= j1 < j2 < als.len() ==> als[j1].name != als[j2].name
}

proof fn lemma_songs_of_name_absent(als: Seq<AlbumView>, name: Seq<char>)
    requires
        forall|k: int| 0 <= k < als.len() ==> (#[trigger] als[k]).name != name,
    ensures
        songs_of_name(als, name) == Seq::<usize>::empty(),
    decreases als.len(),
{
    if als.len() > 0 {
        lemma_songs_of_name_absent(als.drop_last(), name);
        assert(songs_of_name(als, name) =~= Seq::<usize>::empty());
    }
}

/// With unique names, the songs of a name are exactly the one matching
/// album's songs.
proof fn lemma_songs_of_name_unique_at(als: Seq<AlbumView>, j: int, name: Seq<char>)
    requires
        unique_album_names(als),
        0 <= j < als.len(),
        als[j].name == name,
    ensures
        songs_of_name(als, name) == als[j].songs,
    decreases als.len(),
{
    if j == als.len() - 1 {
        assert(forall|k: int|
            0 <= k < als.drop_last().len() ==> (#[trigger] als.drop_last()[k]).name != name);
        lemma_songs_of_name_absent(als.drop_last(), name);
        assert(songs_of_name(als, name) =~= als[j].songs);
    } else {
        assert(als.last().name != name);
        lemma_songs_of_name_unique_at(als.drop_last(), j, name);
        assert(songs_of_name(als, name) =~= als[j].songs);
    }
}

proof fn lemma_songs_of_name_update_other(
    als: Seq<AlbumView>,
    j: int,
    al2: AlbumView,
    name: Seq<char>,
)
    requires
        0 <= j < als.len(),
        als[j].name != name,
        al2.name != name,
    ensures
        songs_of_name(als.update(j, al2), name) == songs_of_name(als, name),
    decreases als.len(),
{
    if j == als.len() - 1 {
        assert(als.update(j, al2).drop_last() =~= als.drop_last());
    } else {
        lemma_songs_of_name_update_other(als.drop_last(), j, al2, name);
        assert(als.update(j, al2).drop_last() =~= als.drop_last().update(j, al2));
        assert(als.update(j, al2).last() == als.last());
        assert(als.drop_last()[j] == als[j]);
    }
}

proof fn lemma_songs_of_name_front(als: Seq<AlbumView>, name: Seq<char>)
    requires
        als.len() > 0,
    ensures
        songs_of_name(als, name) == (if als[0].name == name {
            als[0].songs
        } else {
            Seq::<usize>::empty()
        }) + songs_of_name(als.drop_first(), name),
    decreases als.len(),
{
    let head: Seq<usize> = if als[0].name == name {
        als[0].songs
    } else {
        Seq::<usize>::empty()
    };
    if als.len() == 1 {
        assert(als.drop_last() =~= Seq::<AlbumView>::empty());
        assert(als.drop_first() =~= Seq::<AlbumView>::empty());
        assert(als.last() == als[0]);
        assert(songs_of_name(als, name) =~= head + songs_of_name(als.drop_first(), name));
    } else {
        lemma_songs_of_name_front(als.drop_last(), name);
        assert(als.drop_last()[0] == als[0]);
        assert(als.drop_first().drop_last() =~= als.drop_last().drop_first());
        assert(als.drop_first().last() == als.last());
        assert(songs_of_name(als, name) =~= head + songs_of_name(als.drop_first(), name));
    }
}

/// Law: merging album lists is correct — for every album name, the merged
/// list carries the songs of that name from both lists, the first list's
/// first and in order; albums of other names are untouched by each step.
pub proof fn lemma_merge_songs_of_name(dst: Seq<AlbumView>, src: Seq<AlbumView>, name: Seq<char>)
    requires
        unique_album_names(dst),
    ensures
        songs_of_name(spec_merge_albums(dst, src), name) == songs_of_name(dst, name)
            + songs_of_name(src, name),
    decreases src.len(),
{
    if src.len() == 0 {
        assert(songs_of_name(dst, name) + songs_of_name(src, name) =~= songs_of_name(dst, name));
    } else {
        let al = src[0];
        let j = find_album(dst, al.name) as int;
        crate::index::lemma_find_album(dst, al.name);
        let dst2 = if j < dst.len() {
            dst.update(j, AlbumView { name: dst[j].name, songs: dst[j].songs + al.songs })
        } else {
            dst.push(al)
        };
        assert(unique_album_names(dst2)) by {
            if j < dst.len() {
                assert(forall|t: int| 0 <= t < dst.len() ==> dst2[t].name == dst[t].name);
            } else {
                assert(forall|k: int| 0 <= k < dst.len() ==> dst[k].name != al.name);
                assert(forall|t: int| 0 <= t < dst.len() ==> dst2[t] == dst[t]);
            }
        }
        lemma_merge_songs_of_name(dst2, src.drop_first(), name);
        lemma_songs_of_name_front(src, name);
        let head: Seq<usize> = if al.name == name {
            al.songs
        } else {
            Seq::<usize>::empty()
        };
        assert(songs_of_name(dst2, name) == songs_of_name(dst, name) + head) by {
            if j < dst.len() {
                if al.name == name {
                    lemma_songs_of_name_unique_at(dst, j, name);
                    lemma_songs_of_name_unique_at(dst2, j, name);
                } else {
                    assert(dst[j].name != name);
                    lemma_songs_of_name_update_other(
                        dst,
                        j,
                        AlbumView { name: dst[j].name, songs: dst[j].songs + al.songs },
                        name,
                    );
                    assert(songs_of_name(dst2, name) =~= songs_of_name(dst, name) + head);
                }
            } else {
                assert(dst2.drop_last() =~= dst);
                assert(dst2.last() == al);
                assert(songs_of_name(dst2, name) =~= songs_of_name(dst, name) + head);
            }
        }
        assert(songs_of_name(dst, name) + head + songs_of_name(src.drop_first(), name)
            =~= songs_of_name(dst, name) + (head + songs_of_name(src.drop_first(), name)));
    }
}

/// Merging preserves album-name uniqueness: an incoming album either joins
/// the album that already bears its name or brings a name not seen before.
pub proof fn lemma_merge_albums_unique(dst: Seq<AlbumView>, src: Seq<AlbumView>)
    requires
        unique_album_names(dst),
    ensures
        unique_album_names(spec_merge_albums(dst, src)),
    decreases src.len(),
{
    if src.len() > 0 {
        let al = src[0];
        let j = find_album(dst, al.name) as int;
        crate::index::lemma_find_album(dst, al.name);
        let dst2 = if j < dst.len() {
            dst.update(j, AlbumView { name: dst[j].name, songs: dst[j].songs + al.songs })
        } else {
            dst.push(al)
        };
        assert(unique_album_names(dst2)) by {
            if j < dst.len() {
                assert(forall|t: int| 0 <= t < dst.len() ==> dst2[t].name == dst[t].name);
            } else {
                assert(forall|k: int| 0 <= k < dst.len() ==> dst[k].name != al.name);
                assert(forall|t: int| 0 <= t < dst.len() ==> dst2[t] == dst[t]);
            }
        }
        lemma_merge_albums_unique(dst2, src.drop_first());
    }
}

/// No two artists of the list share an exact name.
pub open spec fn artist_names_unique(ars: Seq<ArtistView>) -> bool {
    forall|i1: int, i2: int| 0 <= i1 < i2 < ars.len() ==> ars[i1].name != ars[i2].name
}

/// The indexer's naming invariant: artist names are pairwise distinct and
/// album names are unique within each artist.
pub open spec fn wf_names(ars: Seq<ArtistView>) -> bool {
    artist_names_unique(ars) && forall|i: int|
        0 <= i < ars.len() ==> unique_album_names((#[trigger] ars[i]).albums)
}

/// Law: one grouping step keeps the naming invariant — an artist or album
/// is created only when no exact name match exists.
pub proof fn lemma_add_song_wf_names(ix: IndexView, m: MetadataView, path: Seq<char>)
    requires
        wf_names(ix.artists),
    ensures
        wf_names(spec_add_song(ix, m, path).artists),
{
    let name = crate::index::effective_artist(m);
    let ix2 = spec_add_song(ix, m, path);
    let ars = ix.artists;
    let ars2 = ix2.artists;
    if name.len() == 0 {
        assert(ars2 == ars);
    } else {
        let ai = crate::index::find_artist(ars, name) as int;
        crate::index::lemma_find_artist(ars, name);
        if ai < ars.len() {
            let ar = ars[ai];
            let aj = find_album(ar.albums, m.album) as int;
            crate::index::lemma_find_album(ar.albums, m.album);
            assert(forall|t: int| 0 <= t < ars2.len() ==> ars2[t].name == ars[t].name);
            assert(artist_names_unique(ars2));
            if aj < ar.albums.len() {
                let als2 = ars2[ai].albums;
                assert(als2.len() == ar.albums.len());
                assert(forall|t: int| 0 <= t < als2.len() ==> als2[t].name == ar.albums[t].name);
                assert(unique_album_names(als2));
                assert forall|i: int| 0 <= i < ars2.len() implies unique_album_names(
                    (#[trigger] ars2[i]).albums,
                ) by {
                    if i != ai {
                        assert(ars2[i] == ars[i]);
                    }
                }
            } else {
                let als2 = ars2[ai].albums;
                assert(als2 == ar.albums.push(
                    AlbumView { name: m.album, songs: seq![ix.songs.len() as usize] },
                ));
                assert forall|j1: int, j2: int| 0 <= j1 < j2 < als2.len() implies als2[j1].name
                    != als2[j2].name by {
                    if j2 == als2.len() - 1 {
                        assert(als2[j1] == ar.albums[j1]);
                        assert(ar.albums[j1].name != m.album);
                    } else {
                        assert(als2[j1] == ar.albums[j1]);
                        assert(als2[j2] == ar.albums[j2]);
                    }
                }
                assert forall|i: int| 0 <= i < ars2.len() implies unique_album_names(
                    (#[trigger] ars2[i]).albums,
                ) by {
                    if i != ai {
                        assert(ars2[i] == ars[i]);
                    }
                }
            }
        } else {
            assert(forall|k: int| 0 <= k < ars.len() ==> ars[k].name != name);
            assert forall|i1: int, i2: int| 0 <= i1 < i2 < ars2.len() implies ars2[i1].name
                != ars2[i2].name by {
                if i2 == ars2.len() - 1 {
                    assert(ars2[i1] == ars[i1]);
                } else {
                    assert(ars2[i1] == ars[i1]);
                    assert(ars2[i2] == ars[i2]);
                }
            }
            assert forall|i: int| 0 <= i < ars2.len() implies unique_album_names(
                (#[trigger] ars2[i]).albums,
            ) by {
                if i < ars2.len() - 1 {
                    assert(ars2[i] == ars[i]);
                }
            }
        }
    }
}

/// Law: every built index satisfies the naming invariant.
pub proof fn lemma_index_wf_names(entries: Seq<(crate::index::MetadataView, Seq<char>)>)
    ensures
        wf_names(crate::index::spec_index(entries).artists),
    decreases entries.len(),
{
    if entries.len() > 0 {
        lemma_index_wf_names(entries.drop_last());
        lemma_add_song_wf_names(
            crate::index::spec_index(entries.drop_last()),
            entries.last().0,
            entries.last().1,
        );
    }
}

} // verus!
