//! The catalog entity model: recordings, releases, media, artist credits
//! and their companions, as plain in-memory values. All entities are
//! immutable, ephemeral values built from one catalog query response and
//! consumed within one resolution call.
//!
//! The `wf` predicates bound the lengths of the text fields that enter the
//! similarity metric, so that every score fits machine arithmetic; they
//! demand nothing else.

use vstd::prelude::*;

verus! {

/// A text field short enough that any sum of a handful of edit distances
/// over such fields fits in `usize`. Far above any real tag or title.
pub open spec fn text_fits(s: Seq<char>) -> bool {
    s.len() <= usize::MAX / 64
}

/// A catalog alias of an artist name.
pub struct Alias {
    pub locale: Option<String>,
    pub sort_name: String,
    pub ty: Option<String>,
    pub type_id: Option<String>,
    pub name: String,
}

/// A catalog artist.
pub struct Artist {
    pub id: String,
    pub name: String,
    pub sort_name: String,
    pub aliases: Option<Vec<Alias>>,
}

/// An attribution of a recording or release to an artist, with an optional
/// display-name override.
pub struct ArtistCredit {
    pub name: Option<String>,
    pub artist: Artist,
}

impl ArtistCredit {
    pub open spec fn wf(self) -> bool {
        match self.name {
            Some(n) => text_fits(n@),
            None => true,
        }
    }
}

/// A record label.
pub struct Label {
    pub id: String,
    pub name: String,
    pub lc: String,
    pub ty: String,
    pub aliases: Vec<String>,
    pub country: String,
}

/// The publication status of a release.
pub enum ReleaseStatus {
    Official,
    Promotional,
    Bootleg,
    PseudoRelease,
    Unknown(String),
}

/// One track of a medium; its position label is kept as raw text.
pub struct Track {
    pub id: String,
    pub number: String,
    pub title: String,
    pub length: Option<u32>,
}

/// One disc or volume of a release: an ordered track list, an optional
/// free-text format label, and the 0-based offset of its first track within
/// the release numbering.
pub struct Medium {
    pub position: u16,
    pub format: Option<String>,
    pub track: Vec<Track>,
    pub track_count: Option<u16>,
    pub track_offset: Option<u16>,
}

/// A specific physical or digital publication (album) holding one or more
/// media.
pub struct Release {
    pub id: String,
    pub title: String,
    pub disambiguation: Option<String>,
    pub artist_credit: Option<Vec<ArtistCredit>>,
    pub date: Option<String>,
    pub country: Option<String>,
    pub status: Option<ReleaseStatus>,
    pub track_count: Option<u16>,
    pub media: Vec<Medium>,
}

impl Release {
    pub open spec fn wf(self) -> bool {
        &&& text_fits(self.title@)
        &&& match self.artist_credit {
            Some(cs) => forall|k: int| 0 <= k < cs@.len() ==> #[trigger] cs@[k].wf(),
            None => true,
        }
    }
}

/// An abstract performance of a piece of music: the unit that catalog
/// search returns, carrying the releases it appears on.
pub struct Recording {
    pub id: Option<String>,
    pub disambiguation: Option<String>,
    pub title: Option<String>,
    pub artist_credit: Vec<ArtistCredit>,
    pub length: Option<u32>,
    pub releases: Option<Vec<Release>>,
}

impl Recording {
    pub open spec fn wf(self) -> bool {
        &&& match self.title {
            Some(t) => text_fits(t@),
            None => true,
        }
        &&& forall|k: int| 0 <= k < self.artist_credit@.len() ==> #[trigger] self.artist_credit@[k].wf()
        &&& match self.releases {
            Some(rs) => forall|k: int| 0 <= k < rs@.len() ==> #[trigger] rs@[k].wf(),
            None => true,
        }
    }
}

/// The group a release belongs to.
pub struct ReleaseGroup {
    pub id: String,
    pub title: String,
    pub type_id: String,
}

/// A URL resource that a relation points at.
pub struct RelationURLResource {
    pub id: String,
    pub resource: String,
}

/// A typed relation of an artist to an outside resource.
pub struct Relation {
    pub target_type: String,
    pub url: Option<RelationURLResource>,
}

/// One image of a release in the cover-art index.
pub struct CoverArtImage {
    pub image: String,
    pub thumbnails: Vec<(String, String)>,
    pub types: Vec<String>,
    pub front: bool,
    pub back: bool,
    pub comment: String,
    pub approved: bool,
}

} // verus!
