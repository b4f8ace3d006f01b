use doplr::metadata::{MetadataValue, TrackMetadata};
use doplr::query::{build_query_from_track, escape_query};

fn bare_metadata() -> TrackMetadata {
    TrackMetadata {
        album: None,
        artist: None,
        disc: None,
        disc_count: None,
        track_title: None,
        track_number: None,
        track_count: None,
        track_length: None,
    }
}

#[test]
fn full_query_in_slot_order() {
    let mut md = bare_metadata();
    md.album = Some(MetadataValue::Album("Album".to_string()));
    md.artist = Some(MetadataValue::Artist("The Band".to_string()));
    md.track_title = Some(MetadataValue::TrackTitle("Song".to_string()));
    md.track_number = Some(MetadataValue::TrackNumber(3));
    md.track_count = Some(MetadataValue::TrackCount(10));
    md.track_length = Some(MetadataValue::TrackLength(200));
    let q = build_query_from_track(&md);
    assert_eq!(
        q,
        "release:Album AND \
         (artist:The Band OR artistname:The Band OR creditname:The Band) AND \
         (recording:Song OR recordingaccent:Song) AND \
         tnum:3 AND \
         (tracks:10 OR tracksrelease:10) AND \
         dur:200000"
    );
}

#[test]
fn absent_tags_contribute_no_terms() {
    let mut md = bare_metadata();
    md.track_number = Some(MetadataValue::TrackNumber(7));
    assert_eq!(build_query_from_track(&md), "tnum:7");
    assert_eq!(build_query_from_track(&bare_metadata()), "");
}

#[test]
fn album_terms_drop_deluxe_tags() {
    let mut md = bare_metadata();
    md.album = Some(MetadataValue::Album("Great [Deluxe Edition]".to_string()));
    assert_eq!(build_query_from_track(&md), "release:Great ");
}

#[test]
fn artist_terms_drop_feat_annotations() {
    let mut md = bare_metadata();
    md.artist = Some(MetadataValue::Artist("A (feat. B)".to_string()));
    assert_eq!(
        build_query_from_track(&md),
        "(artist:A  OR artistname:A  OR creditname:A )"
    );
}

#[test]
fn blank_titles_are_left_out() {
    let mut md = bare_metadata();
    md.track_title = Some(MetadataValue::TrackTitle("!!!".to_string()));
    md.track_number = Some(MetadataValue::TrackNumber(2));
    assert_eq!(build_query_from_track(&md), "tnum:2");
}

#[test]
fn escaping_blanks_punctuation_and_keeps_letters() {
    assert_eq!(escape_query("a!b9 ç"), "a b9 ç");
    assert_eq!(escape_query("香-x"), "香 x");
    assert_eq!(escape_query(""), "");
}

#[test]
fn disc_tags_never_reach_the_query() {
    let mut md = bare_metadata();
    md.disc = Some(MetadataValue::Disc(1));
    md.disc_count = Some(MetadataValue::DiscCount(2));
    assert_eq!(build_query_from_track(&md), "");
}
