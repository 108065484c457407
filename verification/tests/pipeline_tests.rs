use music_organizer::conflict::find_conflicts;
use music_organizer::index::{index_songs, Metadata, MusicIndex};
use music_organizer::plan::{
    ext_str, file_name_str, is_music_extension, is_music_path, is_single, plan_transfers,
    song_dest, transfer_action, Transfer, TransferAction,
};
use music_organizer::resolve::{resolve_step, Outcome, ResolveState};

fn meta(track: u16, artist: &str, album_artist: &str, album: &str, title: &str) -> Metadata {
    Metadata {
        track,
        artist: artist.to_string(),
        album_artist: album_artist.to_string(),
        album: album.to_string(),
        title: title.to_string(),
    }
}

fn sample_entries() -> Vec<(Metadata, String)> {
    vec![
        (meta(1, "X", "", "Greatest Hits", "One"), "/m/one.mp3".to_string()),
        (meta(2, "X", "", "Greatest Hits", "Two"), "/m/two.mp3".to_string()),
        (meta(0, "X", "", "", "Alone"), "/m/alone.m4a".to_string()),
        (meta(0, "", "", "Lost", "NoArtist"), "/m/lost.mp3".to_string()),
        (meta(5, "Y", "Z", "Covers", "Five"), "/m/five.mp3".to_string()),
    ]
}

#[test]
fn grouping_builds_expected_hierarchy() {
    let ix = index_songs(&sample_entries());
    assert_eq!(ix.songs.len(), 5);
    assert_eq!(ix.artists.len(), 2);
    assert_eq!(ix.artists[0].name, "X");
    assert_eq!(ix.artists[0].albums.len(), 2);
    assert_eq!(ix.artists[0].albums[0].name, "Greatest Hits");
    assert_eq!(ix.artists[0].albums[0].songs, vec![0, 1]);
    assert_eq!(ix.artists[0].albums[1].name, "");
    assert_eq!(ix.artists[0].albums[1].songs, vec![2]);
    // The release artist wins over the song artist for grouping.
    assert_eq!(ix.artists[1].name, "Z");
    assert_eq!(ix.artists[1].albums[0].name, "Covers");
    assert_eq!(ix.unknown, vec![3]);
}

#[test]
fn grouping_is_deterministic_across_runs() {
    let entries = sample_entries();
    let a = index_songs(&entries);
    let b = index_songs(&entries);
    assert_eq!(a.songs, b.songs);
    assert_eq!(a.artists, b.artists);
    assert_eq!(a.unknown, b.unknown);
}

#[test]
fn grouping_ignores_file_locations() {
    let mut moved = sample_entries();
    for (i, e) in moved.iter_mut().enumerate() {
        e.1 = format!("/elsewhere/{}/file{}.mp3", i, i);
    }
    let a = index_songs(&sample_entries());
    let b = index_songs(&moved);
    assert_eq!(a.artists, b.artists);
    assert_eq!(a.unknown, b.unknown);
    assert_eq!(a.songs.len(), b.songs.len());
}

#[test]
fn every_song_stands_in_exactly_one_place() {
    let ix = index_songs(&sample_entries());
    for si in 0..ix.songs.len() {
        let mut occurrences = 0;
        for ar in &ix.artists {
            for al in &ar.albums {
                occurrences += al.songs.iter().filter(|&&x| x == si).count();
            }
        }
        occurrences += ix.unknown.iter().filter(|&&x| x == si).count();
        assert_eq!(occurrences, 1, "song {} must appear exactly once", si);
    }
}

#[test]
fn similar_artists_are_flagged() {
    let entries = vec![
        (meta(1, "Prince", "", "A", "t1"), "/m/a.mp3".to_string()),
        (meta(1, "PRINCE", "", "B", "t2"), "/m/b.mp3".to_string()),
        (meta(1, "Princess", "", "C", "t3"), "/m/c.mp3".to_string()),
    ];
    let ix = index_songs(&entries);
    let pairs = find_conflicts(&ix.artists);
    assert_eq!(pairs, vec![(0, 1)]);
}

#[test]
fn identically_named_artists_are_not_flagged() {
    // The indexer never creates two artists with the same exact name, but
    // the detector is defined for any list: an exact duplicate is no
    // conflict, only a case difference is.
    let artists = vec![
        music_organizer::index::Artist { name: "Prince".to_string(), albums: vec![] },
        music_organizer::index::Artist { name: "Prince".to_string(), albums: vec![] },
    ];
    assert_eq!(find_conflicts(&artists), vec![]);
}

#[test]
fn distinct_artists_are_not_flagged() {
    let entries = vec![
        (meta(1, "Prince", "", "A", "t1"), "/m/a.mp3".to_string()),
        (meta(1, "Princess", "", "B", "t2"), "/m/b.mp3".to_string()),
    ];
    let ix = index_songs(&entries);
    assert_eq!(find_conflicts(&ix.artists), vec![]);
}

#[test]
fn merge_using_first_combines_album_lists() {
    let entries = vec![
        (meta(1, "Prince", "", "Purple", "t1"), "/m/a.mp3".to_string()),
        (meta(2, "PRINCE", "", "Purple", "t2"), "/m/b.mp3".to_string()),
        (meta(3, "PRINCE", "", "Other", "t3"), "/m/c.mp3".to_string()),
    ];
    let mut ix = index_songs(&entries);
    assert_eq!(ix.artists.len(), 2);
    ix.apply_resolution(0, 1, Outcome::MergeFirst);
    assert_eq!(ix.artists.len(), 1);
    assert_eq!(ix.artists[0].name, "Prince");
    assert_eq!(ix.artists[0].albums.len(), 2);
    assert_eq!(ix.artists[0].albums[0].name, "Purple");
    assert_eq!(ix.artists[0].albums[0].songs, vec![0, 1]);
    assert_eq!(ix.artists[0].albums[1].name, "Other");
    assert_eq!(ix.artists[0].albums[1].songs, vec![2]);
}

#[test]
fn merge_using_second_takes_the_second_name() {
    let entries = vec![
        (meta(1, "Prince", "", "A", "t1"), "/m/a.mp3".to_string()),
        (meta(2, "PRINCE", "", "B", "t2"), "/m/b.mp3".to_string()),
    ];
    let mut ix = index_songs(&entries);
    ix.apply_resolution(0, 1, Outcome::MergeSecond);
    assert_eq!(ix.artists.len(), 1);
    assert_eq!(ix.artists[0].name, "PRINCE");
    assert_eq!(ix.artists[0].albums.len(), 2);
}

#[test]
fn merge_under_a_new_name() {
    let entries = vec![
        (meta(1, "prince", "", "A", "t1"), "/m/a.mp3".to_string()),
        (meta(2, "PRINCE", "", "A", "t2"), "/m/b.mp3".to_string()),
    ];
    let mut ix = index_songs(&entries);
    ix.apply_resolution(0, 1, Outcome::Renamed { name: "Prince".to_string() });
    assert_eq!(ix.artists.len(), 1);
    assert_eq!(ix.artists[0].name, "Prince");
    assert_eq!(ix.artists[0].albums.len(), 1);
    assert_eq!(ix.artists[0].albums[0].songs, vec![0, 1]);
}

#[test]
fn resolution_protocol_transitions() {
    // Invalid input re-prompts.
    let s = resolve_step(ResolveState::Prompt, "zz\n");
    assert_eq!(s, ResolveState::Prompt);
    let s = resolve_step(ResolveState::Prompt, "9\n");
    assert_eq!(s, ResolveState::Prompt);
    // Do nothing.
    let s = resolve_step(ResolveState::Prompt, "0\n");
    assert_eq!(s, ResolveState::Done { outcome: Outcome::Unchanged });
    // Merge choices settle immediately.
    assert_eq!(
        resolve_step(ResolveState::Prompt, "1\n"),
        ResolveState::Done { outcome: Outcome::MergeFirst }
    );
    assert_eq!(
        resolve_step(ResolveState::Prompt, "2\n"),
        ResolveState::Done { outcome: Outcome::MergeSecond }
    );
    // Entering a new name: name entry, then confirmation.
    let s = resolve_step(ResolveState::Prompt, "3\n");
    assert_eq!(s, ResolveState::AskName);
    let s = resolve_step(s, "New Name");
    assert_eq!(s, ResolveState::ConfirmName { name: "New Name".to_string() });
    // Re-enter loops back to name entry.
    let again = resolve_step(s.clone(), "1\n");
    assert_eq!(again, ResolveState::AskName);
    // Accept applies the name; dismiss settles without change.
    let accepted = resolve_step(s.clone(), "0\n");
    assert_eq!(accepted, ResolveState::Done { outcome: Outcome::Renamed { name: "New Name".to_string() } });
    let dismissed = resolve_step(s, "2\n");
    assert_eq!(dismissed, ResolveState::Done { outcome: Outcome::Unchanged });
}

#[test]
fn single_release_rule() {
    assert!(is_single("", "Alone"));
    assert!(is_single("Alone - Single", "Alone"));
    assert!(is_single("ALONE - SINGLE", "Alone"));
    assert!(!is_single("Greatest Hits", "Alone"));
    assert!(!is_single("Alone", "Alone"));
}

#[test]
fn planned_paths_for_singles_and_albums() {
    let empty_album = music_organizer::index::Song {
        track: 0,
        artist: "X".to_string(),
        title: "Alone".to_string(),
        current_file: "/src/alone.m4a".to_string(),
    };
    assert_eq!(song_dest("output", "X", "", &empty_album), "output/X/X - Alone.m4a");
    assert_eq!(
        song_dest("output", "X", "Alone - Single", &empty_album),
        "output/X/X - Alone.m4a"
    );
    let track3 = music_organizer::index::Song {
        track: 3,
        artist: "X".to_string(),
        title: "Alone".to_string(),
        current_file: "/src/alone.m4a".to_string(),
    };
    assert_eq!(
        song_dest("output", "X", "Greatest Hits", &track3),
        "output/X/Greatest Hits/03 - X - Alone.m4a"
    );
}

#[test]
fn unknown_songs_route_to_the_unknown_directory() {
    let entries = vec![(meta(0, "", "", "", "ghost"), "/library/deep/ghost.mp3".to_string())];
    let ix = index_songs(&entries);
    assert_eq!(ix.unknown, vec![0]);
    let plan = plan_transfers(&ix, "output");
    assert_eq!(plan.len(), 1);
    assert_eq!(plan[0].source, "/library/deep/ghost.mp3");
    assert_eq!(plan[0].dest, "output/unknown/ghost.mp3");
}

#[test]
fn whole_plan_covers_hierarchy_then_unknown() {
    let ix = index_songs(&sample_entries());
    let plan = plan_transfers(&ix, "out");
    assert_eq!(plan.len(), 5);
    assert_eq!(plan[0].dest, "out/X/Greatest Hits/01 - X - One.mp3");
    assert_eq!(plan[1].dest, "out/X/Greatest Hits/02 - X - Two.mp3");
    assert_eq!(plan[2].dest, "out/X/X - Alone.m4a");
    assert_eq!(plan[3].dest, "out/Z/Covers/05 - Y - Five.mp3");
    assert_eq!(plan[4].dest, "out/unknown/lost.mp3");
}

#[test]
fn already_placed_files_are_skipped() {
    let entries = vec![
        (
            meta(1, "X", "", "Hits", "One"),
            "out/X/Hits/01 - X - One.mp3".to_string(),
        ),
        (meta(0, "", "", "", "g"), "out/unknown/g.mp3".to_string()),
    ];
    let ix = index_songs(&entries);
    let plan = plan_transfers(&ix, "out");
    for t in &plan {
        assert_eq!(t.source, t.dest);
        assert_eq!(transfer_action(t, false), TransferAction::Skip);
        assert_eq!(transfer_action(t, true), TransferAction::Skip);
    }
}

#[test]
fn transfer_decisions_follow_the_mode() {
    let t = Transfer { source: "a.mp3".to_string(), dest: "b/a.mp3".to_string() };
    assert_eq!(transfer_action(&t, true), TransferAction::CopyFile);
    assert_eq!(transfer_action(&t, false), TransferAction::MoveFile);
    let same = Transfer { source: "a.mp3".to_string(), dest: "a.mp3".to_string() };
    assert_eq!(transfer_action(&same, false), TransferAction::Skip);
}

#[test]
fn extension_and_file_name_extraction() {
    assert_eq!(ext_str("/a/b/song.mp3"), "mp3");
    assert_eq!(ext_str("/a/b/archive.tar.gz"), "gz");
    assert_eq!(ext_str("/a/b/noext"), "");
    assert_eq!(ext_str("/a/b/.hidden"), "");
    assert_eq!(ext_str("/a/b/.hidden.m4a"), "m4a");
    assert_eq!(file_name_str("/a/b/song.mp3"), "song.mp3");
    assert_eq!(file_name_str("song.mp3"), "song.mp3");
}

#[test]
fn supported_extensions() {
    assert!(is_music_extension("mp3"));
    assert!(is_music_extension("m4a"));
    assert!(is_music_extension("m4b"));
    assert!(is_music_extension("m4p"));
    assert!(is_music_extension("m4v"));
    assert!(!is_music_extension("ogg"));
    assert!(!is_music_extension("MP3"));
}

#[test]
fn music_path_filter() {
    assert!(is_music_path("/x/song.mp3"));
    assert!(!is_music_path("/x/.song.mp3"));
    assert!(!is_music_path("/x/readme.txt"));
    assert!(!is_music_path("/x/noext"));
}

#[test]
fn empty_index_plans_nothing() {
    let ix = MusicIndex::new();
    let plan = plan_transfers(&ix, "out");
    assert!(plan.is_empty());
}
