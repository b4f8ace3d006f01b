//! The normalized records that an importer persists once a track has been
//! resolved: plain values ready for storage.

use vstd::prelude::*;

verus! {

/// A persisted artist row.
pub struct Artist {
    pub mbid: String,
    pub name: String,
    pub image_url: Option<String>,
}

/// A persisted album row.
pub struct Album {
    pub mbid: String,
    pub name: String,
    pub image_url: Option<String>,
}

/// A persisted track row.
pub struct Track {
    pub mbid: String,
    pub position: u16,
    pub title: String,
    pub bitrate: i64,
    pub duration: i64,
    pub file_location: String,
}

} // verus!
