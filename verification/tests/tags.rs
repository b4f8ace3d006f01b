use doplr::metadata::{
    guess_track_count, MediaFormat, MetadataKey, MetadataValue, TrackFormat, TrackMetadata, FLAC,
    MP3,
};

fn pairs(raw: &[(&str, &str)]) -> Vec<(String, String)> {
    raw.iter().map(|(k, v)| (k.to_string(), v.to_string())).collect()
}

#[test]
fn flac_keys_are_case_insensitive() {
    let md = pairs(&[
        ("ALBUM", "The Album"),
        ("Artist", "The Band"),
        ("TrackNumber", "3"),
        ("disctotal", "2"),
        ("TOTALTRACKS", "12"),
        ("Title", "The Song"),
    ]);
    let t = TrackMetadata::from_raw_metadata(&md, &FLAC);
    assert!(matches!(t.album, Some(MetadataValue::Album(ref a)) if a == "The Album"));
    assert!(matches!(t.artist, Some(MetadataValue::Artist(ref a)) if a == "The Band"));
    assert!(matches!(t.track_title, Some(MetadataValue::TrackTitle(ref s)) if s == "The Song"));
    assert!(matches!(t.track_number, Some(MetadataValue::TrackNumber(3))));
    assert!(matches!(t.track_count, Some(MetadataValue::TrackCount(12))));
    assert!(matches!(t.disc_count, Some(MetadataValue::DiscCount(2))));
    assert!(t.disc.is_none());
    assert!(t.track_length.is_none());
}

#[test]
fn flac_first_matching_pair_wins() {
    let md = pairs(&[("tracktotal", "9"), ("totaltracks", "11")]);
    let t = TrackMetadata::from_raw_metadata(&md, &FLAC);
    assert!(matches!(t.track_count, Some(MetadataValue::TrackCount(9))));
}

#[test]
fn mp3_keys_are_matched_exactly() {
    let md = pairs(&[
        ("album", "A"),
        ("ARTIST", "B"),
        ("TRACK", "4"),
        ("DISCNUMBER", "1"),
        ("Title", "ignored"),
        ("TITLE", "T"),
    ]);
    let t = TrackMetadata::from_raw_metadata(&md, &MP3);
    assert!(matches!(t.album, Some(MetadataValue::Album(ref a)) if a == "A"));
    assert!(matches!(t.artist, Some(MetadataValue::Artist(ref a)) if a == "B"));
    assert!(matches!(t.track_number, Some(MetadataValue::TrackNumber(4))));
    assert!(matches!(t.disc, Some(MetadataValue::Disc(1))));
    assert!(matches!(t.track_title, Some(MetadataValue::TrackTitle(ref s)) if s == "T"));
}

#[test]
fn mp3_mixed_case_keys_are_refused() {
    let md = pairs(&[("Album", "A"), ("track", "4")]);
    let t = TrackMetadata::from_raw_metadata(&md, &MP3);
    assert!(t.album.is_none());
    assert!(t.track_number.is_none());
}

#[test]
fn numeric_tags_that_cannot_parse_are_dropped() {
    let md = pairs(&[("TRACK", "12a"), ("DISCNUMBER", "999"), ("DISCTOTAL", "+2")]);
    let t = TrackMetadata::from_raw_metadata(&md, &MP3);
    assert!(t.track_number.is_none());
    assert!(t.disc.is_none());
    assert!(matches!(t.disc_count, Some(MetadataValue::DiscCount(2))));
    let raw = FLAC.try_get_metadata(&pairs(&[("track", "70000")]), MetadataKey::TrackNumber);
    assert!(raw.is_none());
}

fn bare_metadata() -> TrackMetadata {
    TrackMetadata {
        album: None,
        artist: None,
        disc: None,
        disc_count: None,
        track_title: None,
        track_number: None,
        track_count: None,
        track_length: None,
    }
}

#[test]
fn media_format_reads_bracketed_path_tags() {
    let md = bare_metadata();
    assert_eq!(md.guess_media_format("/music/Band - Album [CD FLAC]"), Some(MediaFormat::CD));
    assert_eq!(md.guess_media_format("/music/Band - Album (WEB 2020)"), Some(MediaFormat::Digital));
    assert_eq!(md.guess_media_format("/music/Band - Album [WEB]"), Some(MediaFormat::Digital));
    assert_eq!(md.guess_media_format("/music/Band - Album [Vinyl]"), None);
    assert_eq!(md.guess_media_format("/music/Band [WEB] x [CD]"), Some(MediaFormat::Digital));
    // the keyword literals are case-sensitive
    assert_eq!(md.guess_media_format("/music/Band - Album [cd]"), None);
}

#[test]
fn media_format_falls_back_to_disc_tags() {
    let mut md = bare_metadata();
    md.disc = Some(MetadataValue::Disc(1));
    assert!(md.guess_is_cd());
    assert_eq!(md.guess_media_format("/music/plain"), Some(MediaFormat::CD));
    let bare = bare_metadata();
    assert!(!bare.guess_is_cd());
    assert_eq!(bare.guess_media_format("/music/plain"), None);
}

#[test]
fn sibling_audio_files_are_counted() {
    let names: Vec<String> = ["01.flac", "02.mp3", "cover.jpg", ".flac", "notes.", "03.FLAC"]
        .iter()
        .map(|s| s.to_string())
        .collect();
    // hidden ".flac" has no extension, and extensions are case-sensitive
    assert_eq!(guess_track_count(&names), Some(2));
    assert_eq!(guess_track_count(&Vec::new()), Some(0));
}
