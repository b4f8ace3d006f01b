use doplr::entities::{Artist, ArtistCredit, Medium, Recording, Relation, RelationURLResource, Release};
use doplr::entities::Track;
use doplr::matching::{
    closest_match_index, find_artist_spotify_id, parse_track_position, widest_image_index,
    ResolveError, TrackImporter,
};
use doplr::metadata::{MediaFormat, MetadataValue, TrackMetadata};
use doplr::text::{extract_title, normalize_album_title, normalize_track_title};

fn empty_metadata() -> TrackMetadata {
    TrackMetadata {
        album: None,
        artist: None,
        disc: None,
        disc_count: None,
        track_title: None,
        track_number: None,
        track_count: None,
        track_length: None,
    }
}

fn credit(name: &str) -> ArtistCredit {
    ArtistCredit {
        name: Some(name.to_string()),
        artist: Artist {
            id: format!("artist-{}", name),
            name: name.to_string(),
            sort_name: name.to_string(),
            aliases: None,
        },
    }
}

fn medium(format: Option<&str>, track_count: Option<u16>, track_offset: Option<u16>) -> Medium {
    Medium {
        position: 1,
        format: format.map(|f| f.to_string()),
        track: Vec::new(),
        track_count,
        track_offset,
    }
}

fn release(id: &str, title: &str) -> Release {
    Release {
        id: id.to_string(),
        title: title.to_string(),
        disambiguation: None,
        artist_credit: None,
        date: None,
        country: None,
        status: None,
        track_count: None,
        media: Vec::new(),
    }
}

fn recording(id: &str, title: &str, artist: &str) -> Recording {
    Recording {
        id: Some(id.to_string()),
        disambiguation: None,
        title: Some(title.to_string()),
        artist_credit: vec![credit(artist)],
        length: None,
        releases: None,
    }
}

#[test]
fn empty_recording_list_yields_no_candidate() {
    let imp = TrackImporter::new(empty_metadata(), None);
    assert!(imp.match_to_recording(Vec::new()).is_none());
    assert!(matches!(imp.find_match(Vec::new()), Err(ResolveError::NoCandidate)));
}

#[test]
fn empty_release_list_yields_none() {
    let imp = TrackImporter::new(empty_metadata(), None);
    assert!(imp.match_release(Vec::new()).is_none());
}

#[test]
fn singleton_release_auto_selected() {
    // A dreadful match on every signal is still returned unconditionally.
    let mut md = empty_metadata();
    md.album = Some(MetadataValue::Album("Totally Different".to_string()));
    let imp = TrackImporter::new(md, Some(MediaFormat::CD));
    let r = release("only", "zzzzzzzz");
    let picked = imp.match_release(vec![r]).unwrap();
    assert_eq!(picked.id, "only");
}

#[test]
fn singleton_recording_auto_selected() {
    let mut md = empty_metadata();
    md.track_title = Some(MetadataValue::TrackTitle("Song".to_string()));
    let imp = TrackImporter::new(md, None);
    let rec = recording("only", "completely unrelated", "nobody");
    let picked = imp.match_to_recording(vec![rec]).unwrap();
    assert_eq!(picked.id.as_deref(), Some("only"));
}

#[test]
fn earlier_of_two_equal_releases_wins() {
    let mut md = empty_metadata();
    md.album = Some(MetadataValue::Album("Album".to_string()));
    let imp = TrackImporter::new(md, None);
    let a = release("first", "Album");
    let b = release("second", "Album");
    let picked = imp.match_release(vec![a, b]).unwrap();
    assert_eq!(picked.id, "first");
}

#[test]
fn earlier_of_two_equal_recordings_wins() {
    let mut md = empty_metadata();
    md.track_title = Some(MetadataValue::TrackTitle("Song".to_string()));
    let imp = TrackImporter::new(md, None);
    let a = recording("first", "Song", "Band");
    let b = recording("second", "Song", "Band");
    let picked = imp.match_to_recording(vec![a, b]).unwrap();
    assert_eq!(picked.id.as_deref(), Some("first"));
}

#[test]
fn feat_annotation_is_stripped_before_title_comparison() {
    // Local title "Song (feat. X)" against "Song" must be a perfect title
    // match, beating the near-miss spelling.
    let mut md = empty_metadata();
    md.track_title = Some(MetadataValue::TrackTitle("Song (feat. X)".to_string()));
    md.artist = Some(MetadataValue::Artist("Band".to_string()));
    let imp = TrackImporter::new(md, None);
    let a = recording("good", "Song", "Band");
    let b = recording("bad", "Songg", "Bnad");
    let picked = imp.match_to_recording(vec![a, b]).unwrap();
    assert_eq!(picked.id.as_deref(), Some("good"));
}

#[test]
fn clean_disambiguation_is_penalized() {
    let mut md = empty_metadata();
    md.album = Some(MetadataValue::Album("Album".to_string()));
    let imp = TrackImporter::new(md, None);
    let mut a = release("clean", "Album");
    a.disambiguation = Some("CLEAN version".to_string());
    let b = release("plain", "Album");
    let picked = imp.match_release(vec![a, b]).unwrap();
    assert_eq!(picked.id, "plain");
}

#[test]
fn format_hint_filters_releases() {
    // The digital-only release matches the album tag perfectly, but a CD
    // hint rules it out in favour of the CD release.
    let mut md = empty_metadata();
    md.album = Some(MetadataValue::Album("Album".to_string()));
    let imp = TrackImporter::new(md, Some(MediaFormat::CD));
    let mut a = release("digital", "Album");
    a.media = vec![medium(Some("Digital Media"), None, None)];
    let mut b = release("cd", "Albun");
    b.media = vec![medium(Some("CD"), None, None)];
    let picked = imp.match_release(vec![a, b]).unwrap();
    assert_eq!(picked.id, "cd");
}

#[test]
fn format_filter_falls_back_to_unfiltered_list() {
    // No candidate matches the CD hint: the unfiltered list is retained
    // and the better title match wins.
    let mut md = empty_metadata();
    md.album = Some(MetadataValue::Album("Album".to_string()));
    let imp = TrackImporter::new(md, Some(MediaFormat::CD));
    let mut a = release("better", "Album");
    a.media = vec![medium(Some("Digital Media"), None, None)];
    let mut b = release("worse", "Albun");
    b.media = vec![medium(Some("Vinyl"), None, None)];
    let picked = imp.match_release(vec![a, b]).unwrap();
    assert_eq!(picked.id, "better");
}

#[test]
fn track_count_agreement_beats_disagreement() {
    let mut md = empty_metadata();
    md.track_count = Some(MetadataValue::TrackCount(10));
    let imp = TrackImporter::new(md, None);
    let a = release("off", "X");
    let mut b = release("agreeing", "X");
    b.track_count = Some(10);
    b.media = vec![medium(None, Some(10), None)];
    let picked = imp.match_release(vec![a, b]).unwrap();
    assert_eq!(picked.id, "agreeing");
}

#[test]
fn track_number_offset_agreement_counts() {
    let mut md = empty_metadata();
    md.track_number = Some(MetadataValue::TrackNumber(3));
    let imp = TrackImporter::new(md, None);
    let a = release("off", "X");
    let mut b = release("agreeing", "X");
    b.media = vec![medium(None, None, Some(2))];
    let picked = imp.match_release(vec![a, b]).unwrap();
    assert_eq!(picked.id, "agreeing");
}

#[test]
fn non_us_country_is_penalized() {
    let imp = TrackImporter::new(empty_metadata(), None);
    let mut a = release("abroad", "X");
    a.country = Some("GB".to_string());
    let mut b = release("home", "X");
    b.country = Some("US".to_string());
    let picked = imp.match_release(vec![a, b]).unwrap();
    assert_eq!(picked.id, "home");
}

#[test]
fn recording_without_releases_is_incomplete() {
    let imp = TrackImporter::new(empty_metadata(), None);
    let rec = recording("r", "Song", "Band");
    assert!(matches!(imp.find_match(vec![rec]), Err(ResolveError::IncompleteMatch)));
    let mut rec2 = recording("r", "Song", "Band");
    rec2.releases = Some(Vec::new());
    assert!(matches!(imp.find_match(vec![rec2]), Err(ResolveError::IncompleteMatch)));
}

#[test]
fn release_without_credits_is_incomplete() {
    let imp = TrackImporter::new(empty_metadata(), None);
    let mut rec = recording("r", "Song", "Band");
    rec.releases = Some(vec![release("rel", "Album")]);
    assert!(matches!(imp.find_match(vec![rec]), Err(ResolveError::IncompleteMatch)));
}

#[test]
fn find_match_yields_recording_release_and_credit() {
    let mut md = empty_metadata();
    md.album = Some(MetadataValue::Album("Album".to_string()));
    md.track_title = Some(MetadataValue::TrackTitle("Song".to_string()));
    md.artist = Some(MetadataValue::Artist("Band".to_string()));
    let imp = TrackImporter::new(md, None);
    let mut rel = release("rel-good", "Album");
    rel.artist_credit = Some(vec![credit("Band")]);
    let mut rec = recording("rec-good", "Song", "Band");
    rec.releases = Some(vec![release("rel-other", "Another"), rel]);
    let mut rel2 = release("rel2", "Elsewhere");
    rel2.artist_credit = Some(vec![credit("Band")]);
    let mut rec2 = recording("rec-bad", "Songg", "Bnad");
    rec2.releases = Some(vec![rel2]);

    // rel-other has no credits, so the resolved release must be rel-good.
    let rt = imp.find_match(vec![rec, rec2]).unwrap();
    assert_eq!(rt.recording.id.as_deref(), Some("rec-good"));
    assert_eq!(rt.release.id, "rel-good");
    assert_eq!(rt.artist_credit().name.as_deref(), Some("Band"));
}

#[test]
fn track_position_is_parsed_after_stripping() {
    assert_eq!(parse_track_position("A12"), Ok(12));
    assert_eq!(parse_track_position("7"), Ok(7));
    assert_eq!(parse_track_position("3/12"), Ok(312));
    assert_eq!(parse_track_position(""), Err(ResolveError::MetadataParseError));
    assert_eq!(parse_track_position("x/y"), Err(ResolveError::MetadataParseError));
    assert_eq!(parse_track_position("99999"), Err(ResolveError::MetadataParseError));
}

#[test]
fn spotify_artist_relation_is_found() {
    let rels = vec![
        Relation { target_type: "other".to_string(), url: None },
        Relation {
            target_type: "streaming".to_string(),
            url: Some(RelationURLResource {
                id: "u1".to_string(),
                resource: "https://example.com/artist/abc".to_string(),
            }),
        },
        Relation {
            target_type: "streaming".to_string(),
            url: Some(RelationURLResource {
                id: "u2".to_string(),
                resource: "https://open.spotify.com/artist/4aB_c-9".to_string(),
            }),
        },
    ];
    assert_eq!(find_artist_spotify_id(&rels).as_deref(), Some("4aB_c-9"));
    assert!(find_artist_spotify_id(&Vec::new()).is_none());
    let bad = vec![Relation {
        target_type: "streaming".to_string(),
        url: Some(RelationURLResource {
            id: "u3".to_string(),
            resource: "https://open.spotify.com/artist/with space".to_string(),
        }),
    }];
    assert!(find_artist_spotify_id(&bad).is_none());
}

#[test]
fn feat_suffix_extraction() {
    assert_eq!(extract_title("Song (feat. X)").as_deref(), Some("Song"));
    assert_eq!(extract_title("A B (feat. C & D)").as_deref(), Some("A B"));
    // the longest base wins: only the trailing annotation is cut
    assert_eq!(extract_title("A (feat. B) (feat. C)").as_deref(), Some("A (feat. B)"));
    assert!(extract_title("Song").is_none());
    assert!(extract_title("(feat. X)").is_none());
    assert!(extract_title("Song (featuring X)").is_none());
}

#[test]
fn title_normalization_removes_annotations() {
    assert_eq!(normalize_track_title("A (feat. B) C"), "A  C");
    assert_eq!(normalize_track_title("A (Feat B)"), "A ");
    assert_eq!(normalize_track_title("Plain"), "Plain");
    assert_eq!(normalize_album_title("Great [Deluxe Edition]"), "Great ");
    assert_eq!(normalize_album_title("Great (deluxe edition) x"), "Great  x");
    assert_eq!(normalize_album_title("Great"), "Great");
}

#[test]
fn track_row_is_built_from_the_first_medium() {
    let imp = TrackImporter::new(empty_metadata(), None);
    let mut rel = release("rel", "Album");
    rel.media = vec![Medium {
        position: 1,
        format: None,
        track: vec![Track {
            id: "t1".to_string(),
            number: "A7".to_string(),
            title: "Song".to_string(),
            length: None,
        }],
        track_count: None,
        track_offset: None,
    }];
    let rec = recording("rec", "Song", "Band");
    let row = imp
        .build_track(&rec, &rel, 320, 215, "/music/a.flac".to_string())
        .unwrap();
    assert_eq!(row.mbid, "rec");
    assert_eq!(row.title, "Song");
    assert_eq!(row.position, 7);
    assert_eq!(row.bitrate, 320);
    assert_eq!(row.duration, 215);
    assert_eq!(row.file_location, "/music/a.flac");

    let mut unnumbered = rel;
    unnumbered.media[0].track[0].number = "x".to_string();
    assert!(matches!(
        imp.build_track(&rec, &unnumbered, 0, 0, String::new()),
        Err(ResolveError::MetadataParseError)
    ));
    let bare = release("rel", "Album");
    assert!(matches!(
        imp.build_track(&rec, &bare, 0, 0, String::new()),
        Err(ResolveError::IncompleteMatch)
    ));
    let mut nameless = recording("rec", "Song", "Band");
    nameless.id = None;
    assert!(matches!(
        imp.build_track(&nameless, &bare, 0, 0, String::new()),
        Err(ResolveError::IncompleteMatch)
    ));
}

#[test]
fn closest_name_is_the_first_minimal_one() {
    let names: Vec<String> = ["Bnad", "Band", "Band"].iter().map(|s| s.to_string()).collect();
    assert_eq!(closest_match_index(&names, "Band"), Some(1));
    assert_eq!(closest_match_index(&Vec::new(), "Band"), None);
}

#[test]
fn widest_image_is_the_last_maximal_one() {
    assert_eq!(widest_image_index(&vec![Some(100), None, Some(100)]), Some(2));
    assert_eq!(widest_image_index(&vec![None]), Some(0));
    assert_eq!(widest_image_index(&Vec::new()), None);
}
