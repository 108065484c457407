//! The trusted boundary around the two tag-reading crates. Each wrapper
//! makes exactly one call into `id3` or `mp4ameta` and converts the result
//! to plain values; nothing is promised of what a file on disk yields, so
//! none of these carries an `ensures` — the verified callers state what
//! holds of every outcome.

use vstd::prelude::*;

use id3::TagLike;

verus! {

#[verifier::external_type_specification]
#[verifier::external_body]
pub struct ExId3Tag(id3::Tag);

#[verifier::external_type_specification]
#[verifier::external_body]
pub struct ExMp4Tag(mp4ameta::Tag);

/// Relies on `id3::Tag::read_from_path`: reads the ID3 tag of the file, or
/// nothing when the file cannot be opened or holds no readable tag.
#[verifier::external_body]
pub(crate) fn id3_read(path: &str) -> Option<id3::Tag> {
    id3::Tag::read_from_path(path).ok()
}

/// Relies on `id3::TagLike::track`.
#[verifier::external_body]
pub(crate) fn id3_track(tag: &id3::Tag) -> Option<u32> {
    tag.track()
}

/// Relies on `id3::TagLike::total_tracks`.
#[verifier::external_body]
pub(crate) fn id3_total_tracks(tag: &id3::Tag) -> Option<u32> {
    tag.total_tracks()
}

/// Relies on `id3::TagLike::disc`.
#[verifier::external_body]
pub(crate) fn id3_disc(tag: &id3::Tag) -> Option<u32> {
    tag.disc()
}

/// Relies on `id3::TagLike::total_discs`.
#[verifier::external_body]
pub(crate) fn id3_total_discs(tag: &id3::Tag) -> Option<u32> {
    tag.total_discs()
}

/// Relies on `id3::TagLike::artist`.
#[verifier::external_body]
pub(crate) fn id3_artist(tag: &id3::Tag) -> Option<String> {
    tag.artist().map(|s| s.to_string())
}

/// Relies on `id3::TagLike::album_artist`.
#[verifier::external_body]
pub(crate) fn id3_album_artist(tag: &id3::Tag) -> Option<String> {
    tag.album_artist().map(|s| s.to_string())
}

/// Relies on `id3::TagLike::album`.
#[verifier::external_body]
pub(crate) fn id3_album(tag: &id3::Tag) -> Option<String> {
    tag.album().map(|s| s.to_string())
}

/// Relies on `id3::TagLike::title`.
#[verifier::external_body]
pub(crate) fn id3_title(tag: &id3::Tag) -> Option<String> {
    tag.title().map(|s| s.to_string())
}

/// Relies on `id3::Tag::pictures`: whether the tag embeds any artwork.
#[verifier::external_body]
pub(crate) fn id3_has_pictures(tag: &id3::Tag) -> bool {
    tag.pictures().next().is_some()
}

/// Relies on `mp4ameta::Tag::read_from_path`: reads the MPEG-4 metadata of
/// the file, or nothing when it cannot be read.
#[verifier::external_body]
pub(crate) fn mp4_read(path: &str) -> Option<mp4ameta::Tag> {
    mp4ameta::Tag::read_from_path(path).ok()
}

/// Relies on `mp4ameta::Userdata::track_number`.
#[verifier::external_body]
pub(crate) fn mp4_track_number(tag: &mp4ameta::Tag) -> Option<u16> {
    tag.track_number()
}

/// Relies on `mp4ameta::Userdata::total_tracks`.
#[verifier::external_body]
pub(crate) fn mp4_total_tracks(tag: &mp4ameta::Tag) -> Option<u16> {
    tag.total_tracks()
}

/// Relies on `mp4ameta::Userdata::disc_number`.
#[verifier::external_body]
pub(crate) fn mp4_disc_number(tag: &mp4ameta::Tag) -> Option<u16> {
    tag.disc_number()
}

/// Relies on `mp4ameta::Userdata::total_discs`.
#[verifier::external_body]
pub(crate) fn mp4_total_discs(tag: &mp4ameta::Tag) -> Option<u16> {
    tag.total_discs()
}

/// Relies on `mp4ameta::Userdata::take_artists`.
#[verifier::external_body]
pub(crate) fn mp4_take_artists(tag: &mut mp4ameta::Tag) -> Vec<String> {
    tag.take_artists().collect()
}

/// Relies on `mp4ameta::Userdata::take_album_artists`.
#[verifier::external_body]
pub(crate) fn mp4_take_album_artists(tag: &mut mp4ameta::Tag) -> Vec<String> {
    tag.take_album_artists().collect()
}

/// Relies on `mp4ameta::Userdata::take_album`.
#[verifier::external_body]
pub(crate) fn mp4_take_album(tag: &mut mp4ameta::Tag) -> Option<String> {
    tag.take_album()
}

/// Relies on `mp4ameta::Userdata::take_title`.
#[verifier::external_body]
pub(crate) fn mp4_take_title(tag: &mut mp4ameta::Tag) -> Option<String> {
    tag.take_title()
}

/// Relies on `mp4ameta::Userdata::artist`.
#[verifier::external_body]
pub(crate) fn mp4_artist(tag: &mp4ameta::Tag) -> Option<String> {
    tag.artist().map(|s| s.to_string())
}

/// Relies on `mp4ameta::Userdata::album_artist`.
#[verifier::external_body]
pub(crate) fn mp4_album_artist(tag: &mp4ameta::Tag) -> Option<String> {
    tag.album_artist().map(|s| s.to_string())
}

/// Relies on `mp4ameta::Userdata::album`.
#[verifier::external_body]
pub(crate) fn mp4_album(tag: &mp4ameta::Tag) -> Option<String> {
    tag.album().map(|s| s.to_string())
}

/// Relies on `mp4ameta::Userdata::title`.
#[verifier::external_body]
pub(crate) fn mp4_title(tag: &mp4ameta::Tag) -> Option<String> {
    tag.title().map(|s| s.to_string())
}

/// Relies on `mp4ameta::Userdata::artwork`: whether the tag embeds artwork.
#[verifier::external_body]
pub(crate) fn mp4_has_artwork(tag: &mp4ameta::Tag) -> bool {
    tag.artwork().is_some()
}

} // verus!
