use music_organizer::meta::{zero_none, Metadata, Release, ReleaseArtists, Song};

fn sample_song() -> Song {
    Song {
        path: "/m/a.mp3".to_string(),
        track_number: Some(1),
        total_tracks: Some(10),
        disc_number: None,
        total_discs: None,
        release_artists: vec!["R1".to_string(), "R2".to_string()],
        artists: vec!["A1".to_string(), "A2".to_string(), "A3".to_string()],
        release: "Rel".to_string(),
        title: "T".to_string(),
        has_artwork: false,
    }
}

#[test]
fn artist_lines_are_comma_separated() {
    let s = sample_song();
    assert_eq!(s.artists_str(), "A1, A2, A3");
    assert_eq!(s.release_artists_str(), "R1, R2");
}

#[test]
fn zero_track_numbers_mean_absent() {
    assert_eq!(zero_none(Some(0)), None);
    assert_eq!(zero_none(Some(3)), Some(3));
    assert_eq!(zero_none(None), None);
}

#[test]
fn release_artist_selection_prefers_release_artists() {
    let mut m = Metadata::default();
    m.release_artists = vec!["R".to_string()];
    m.artists = vec!["A".to_string()];
    assert_eq!(m.release_artists(), Some(&vec!["R".to_string()]));
    assert_eq!(m.song_artists(), Some(&vec!["A".to_string()]));
    m.release_artists.clear();
    assert_eq!(m.release_artists(), Some(&vec!["A".to_string()]));
    m.artists.clear();
    assert_eq!(m.release_artists(), None);
    assert_eq!(m.song_artists(), None);
}

#[test]
fn song_artist_selection_falls_back_to_release_artists() {
    let mut m = Metadata::default();
    m.release_artists = vec!["R".to_string()];
    assert_eq!(m.song_artists(), Some(&vec!["R".to_string()]));
}

#[test]
fn unsupported_extension_reads_empty_metadata() {
    let m = Metadata::read_from("/nowhere/file.ogg");
    assert_eq!(m, Metadata::default());
    let m = Metadata::read_from("noextension");
    assert_eq!(m, Metadata::default());
}

#[test]
fn unreadable_file_reads_empty_metadata() {
    let m = Metadata::read_from("/nowhere/missing.mp3");
    assert_eq!(m, Metadata::default());
    let m = Metadata::read_from("/nowhere/missing.m4a");
    assert_eq!(m, Metadata::default());
}

#[test]
fn simple_metadata_reader_degrades_the_same_way() {
    let m = music_organizer::index::Metadata::read_from("/nowhere/file.ogg");
    assert_eq!(m.track, 0);
    assert_eq!(m.artist, "");
    assert_eq!(m.album_artist, "");
    assert_eq!(m.album, "");
    assert_eq!(m.title, "");
    let m = music_organizer::index::Metadata::read_from("/nowhere/missing.mp3");
    assert_eq!(m.artist, "");
}

#[test]
fn release_structs_hold_indexed_songs() {
    let rel = Release { name: "R".to_string(), songs: vec![0, 2] };
    let ra = ReleaseArtists { names: vec!["A".to_string()], releases: vec![rel.clone()] };
    assert_eq!(ra.releases[0].songs, vec![0, 2]);
    assert_eq!(ra.names[0], "A");
    assert_eq!(rel, ra.releases[0]);
}
