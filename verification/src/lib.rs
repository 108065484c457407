//! A verified core for a music collection organizer.
//!
//! The library indexes tagged audio files into an Artist -> Album -> Song
//! hierarchy, detects artists whose names differ only by ASCII case, merges
//! them on request, derives sanitized destination paths for every song, and
//! decides for each file whether it must be moved, copied or left in place.
//! Reading the embedded tags is delegated to the `id3` and `mp4ameta` crates
//! behind a small trusted boundary; everything else is proved.

pub mod conflict;
pub mod index;
pub mod meta;
pub mod plan;
pub mod resolve;
pub mod sanitize;
pub mod tags;
pub mod text;
