//! The metadata extraction adapter and the richer song model: per-file tag
//! fields with optional track and disc numbers and multi-valued artist
//! lists. The raw decoding is done by the `id3` and `mp4ameta` crates
//! behind the trusted boundary in `tags`; everything that interprets the
//! decoded values is verified here.

use vstd::prelude::*;

use crate::tags;
use crate::text::{join_comma, join_sep, split_nul};
use crate::plan::{ext_or_empty, ext_str};

verus! {

/// A group of artists credited with one or more releases; songs are
/// referenced by index into a shared song list.
#[derive(Clone, Debug, Default, PartialEq)]
pub struct ReleaseArtists {
    pub names: Vec<String>,
    pub releases: Vec<Release>,
}

/// One release: a name and the indices of its songs.
#[derive(Clone, Debug, Default, PartialEq)]
pub struct Release {
    pub name: String,
    pub songs: Vec<usize>,
}

/// One audio file with its decoded tag fields.
#[derive(Clone, Debug, Default, PartialEq)]
pub struct Song {
    pub path: String,
    pub track_number: Option<u16>,
    pub total_tracks: Option<u16>,
    pub disc_number: Option<u16>,
    pub total_discs: Option<u16>,
    pub release_artists: Vec<String>,
    pub artists: Vec<String>,
    pub release: String,
    pub title: String,
    pub has_artwork: bool,
}

impl Song {
    /// The song's artists as one comma-separated line.
    pub fn artists_str(&self) -> (r: String)
        ensures
            r@ == join_sep(self.artists@.map_values(|p: String| p@), ", "@),
    {
        join_comma(&self.artists)
    }

    /// The song's release artists as one comma-separated line.
    pub fn release_artists_str(&self) -> (r: String)
        ensures
            r@ == join_sep(self.release_artists@.map_values(|p: String| p@), ", "@),
    {
        join_comma(&self.release_artists)
    }
}

/// The raw extraction result for one file, consumed when the hierarchy is
/// built.
#[derive(Clone, Debug, Default, PartialEq)]
pub struct Metadata {
    pub track_number: Option<u16>,
    pub total_tracks: Option<u16>,
    pub disc_number: Option<u16>,
    pub total_discs: Option<u16>,
    pub artists: Vec<String>,
    pub release_artists: Vec<String>,
    pub release: Option<String>,
    pub title: Option<String>,
    pub has_artwork: bool,
}

/// The all-empty metadata record that stands in for an unreadable or
/// unsupported tag.
pub open spec fn spec_meta_empty(m: Metadata) -> bool {
    m.track_number == None::<u16> && m.total_tracks == None::<u16> && m.disc_number == None::<u16>
        && m.total_discs == None::<u16> && m.artists@.len() == 0 && m.release_artists@.len() == 0
        && m.release == None::<String> && m.title == None::<String> && !m.has_artwork
}

/// A track or disc number of zero stands for an absent one.
pub open spec fn spec_zero_none(n: Option<u16>) -> Option<u16> {
    match n {
        Some(v) => if v == 0 {
            None
        } else {
            Some(v)
        },
        None => None,
    }
}

/// Map a zero track or disc number to an absent one.
pub fn zero_none(n: Option<u16>) -> (r: Option<u16>)
    ensures
        r == spec_zero_none(n),
{
    match n {
        Some(0) => None,
        Some(v) => Some(v),
        None => None,
    }
}

/// Truncate an optional 32-bit count to the 16 bits the model stores.
pub fn u32_opt_to_u16(n: Option<u32>) -> (r: Option<u16>)
    ensures
        r == match n {
            Some(v) => Some(v as u16),
            None => None::<u16>,
        },
{
    match n {
        Some(v) => Some(#[verifier::truncate] (v as u16)),
        None => None,
    }
}

impl Metadata {
    /// Read the tag of the file at `path`, dispatching on the path's
    /// extension. A file that is neither MP3 nor M4A, and any file whose
    /// tag cannot be read, yields the all-empty record — extraction never
    /// fails.
    pub fn read_from(path: &str) -> (r: Metadata)
        ensures
            ext_or_empty(path@) != "mp3"@ && ext_or_empty(path@) != "m4a"@ ==> spec_meta_empty(r),
            r.track_number != Some(0u16) && r.total_tracks != Some(0u16) && r.disc_number != Some(
                0u16,
            ) && r.total_discs != Some(0u16),
    {
        let ext = ext_str(path);
        if ext == String::from_str("mp3") {
            if let Some(m) = Self::read_mp3(path) {
                return m;
            }
        } else if ext == String::from_str("m4a") {
            if let Some(m) = Self::read_mp4(path) {
                return m;
            }
        }
        Metadata {
            track_number: None,
            total_tracks: None,
            disc_number: None,
            total_discs: None,
            artists: Vec::new(),
            release_artists: Vec::new(),
            release: None,
            title: None,
            has_artwork: false,
        }
    }

    /// Decode an ID3 tag: counts are zero-filtered and the artist frames
    /// are split at NUL separators into name lists.
    fn read_mp3(path: &str) -> (r: Option<Metadata>)
        ensures
            r matches Some(m) ==> m.track_number != Some(0u16) && m.total_tracks != Some(0u16)
                && m.disc_number != Some(0u16) && m.total_discs != Some(0u16),
    {
        let tag = match tags::id3_read(path) {
            Some(t) => t,
            None => {
                return None;
            },
        };
        let artists: Vec<String> = match tags::id3_artist(&tag) {
            Some(s) => split_nul(s.as_str()),
            None => Vec::new(),
        };
        let release_artists: Vec<String> = match tags::id3_album_artist(&tag) {
            Some(s) => split_nul(s.as_str()),
            None => Vec::new(),
        };
        Some(
            Metadata {
                track_number: zero_none(u32_opt_to_u16(tags::id3_track(&tag))),
                total_tracks: zero_none(u32_opt_to_u16(tags::id3_total_tracks(&tag))),
                disc_number: zero_none(u32_opt_to_u16(tags::id3_disc(&tag))),
                total_discs: zero_none(u32_opt_to_u16(tags::id3_total_discs(&tag))),
                artists,
                release_artists,
                release: tags::id3_album(&tag),
                title: tags::id3_title(&tag),
                has_artwork: tags::id3_has_pictures(&tag),
            },
        )
    }

    /// Decode an MPEG-4 tag: counts are zero-filtered here as well — the
    /// crate already hands zero counts out as absent, so the filter only
    /// makes that guarantee the library's own — and the name lists come
    /// through directly.
    fn read_mp4(path: &str) -> (r: Option<Metadata>)
        ensures
            r matches Some(m) ==> m.track_number != Some(0u16) && m.total_tracks != Some(0u16)
                && m.disc_number != Some(0u16) && m.total_discs != Some(0u16),
    {
        let mut tag = match tags::mp4_read(path) {
            Some(t) => t,
            None => {
                return None;
            },
        };
        let track_number = zero_none(tags::mp4_track_number(&tag));
        let total_tracks = zero_none(tags::mp4_total_tracks(&tag));
        let disc_number = zero_none(tags::mp4_disc_number(&tag));
        let total_discs = zero_none(tags::mp4_total_discs(&tag));
        let has_artwork = tags::mp4_has_artwork(&tag);
        let artists = tags::mp4_take_artists(&mut tag);
        let release_artists = tags::mp4_take_album_artists(&mut tag);
        let release = tags::mp4_take_album(&mut tag);
        let title = tags::mp4_take_title(&mut tag);
        Some(
            Metadata {
                track_number,
                total_tracks,
                disc_number,
                total_discs,
                artists,
                release_artists,
                release,
                title,
                has_artwork,
            },
        )
    }

    /// The artists a release is grouped under: the release-artist list when
    /// non-empty, else the per-song artist list, else nothing.
    pub fn release_artists(&self) -> (r: Option<&Vec<String>>)
        ensures
            r == if self.release_artists@.len() > 0 {
                Some(&self.release_artists)
            } else if self.artists@.len() > 0 {
                Some(&self.artists)
            } else {
                None::<&Vec<String>>
            },
    {
        if !self.release_artists.is_empty() {
            Some(&self.release_artists)
        } else if !self.artists.is_empty() {
            Some(&self.artists)
        } else {
            None
        }
    }

    /// The artists a song is credited to: the per-song artist list when
    /// non-empty, else the release-artist list, else nothing.
    pub fn song_artists(&self) -> (r: Option<&Vec<String>>)
        ensures
            r == if self.artists@.len() > 0 {
                Some(&self.artists)
            } else if self.release_artists@.len() > 0 {
                Some(&self.release_artists)
            } else {
                None::<&Vec<String>>
            },
    {
        if !self.artists.is_empty() {
            Some(&self.artists)
        } else if !self.release_artists.is_empty() {
            Some(&self.release_artists)
        } else {
            None
        }
    }
}

} // verus!
