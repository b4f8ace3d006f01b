//! The entity-resolution engine: a multi-signal scoring model over
//! candidate releases and recordings, with deterministic first-wins
//! tie-breaking.
//!
//! A candidate's score is the sum of independent non-negative penalty
//! terms; lower is better, and 0 is a perfect match on all evaluated
//! signals. The release resolver filters by media-format hint first (and
//! falls back to the unfiltered list when the filter would leave nothing),
//! then picks the first candidate reaching the minimum score. The
//! recording resolver augments the title and artist penalties with the
//! best achievable nested release score.

use vstd::prelude::*;
use vstd::pervasive::unreached;
use crate::entities::{ArtistCredit, Medium, Recording, Release, text_fits};
use crate::lev::{damlev, dl_dist, lemma_dl_dist_le, min_nat};
use crate::metadata::{MediaFormat, MetadataValue, TrackMetadata};
use crate::text::{
    ci_contains, dec_val, digits_of, effective_title, extract_title, lemma_effective_title_len,
    parse_digits_capped, str_contains_ci, str_eq,
};

verus! {

/// Why one track's resolution failed. Every failure is local to that
/// track: the caller skips it and goes on with the batch.
#[derive(Clone, Copy, PartialEq, Eq, Structural, Debug)]
pub enum ResolveError {
    /// An input candidate list was empty.
    NoCandidate,
    /// A recording was selected but no usable release or artist credit
    /// could be extracted from it.
    IncompleteMatch,
    /// A numeric tag could not be parsed even after stripping non-digit
    /// code points.
    MetadataParseError,
}

/// The local album tag, when present.
pub open spec fn md_album(md: TrackMetadata) -> Option<Seq<char>> {
    match md.album {
        Some(MetadataValue::Album(s)) => Some(s@),
        _ => None,
    }
}

/// The local artist tag, when present.
pub open spec fn md_artist(md: TrackMetadata) -> Option<Seq<char>> {
    match md.artist {
        Some(MetadataValue::Artist(s)) => Some(s@),
        _ => None,
    }
}

/// The local track-title tag, when present.
pub open spec fn md_track_title(md: TrackMetadata) -> Option<Seq<char>> {
    match md.track_title {
        Some(MetadataValue::TrackTitle(s)) => Some(s@),
        _ => None,
    }
}

/// The local track-number tag, when present.
pub open spec fn md_track_number(md: TrackMetadata) -> Option<u16> {
    match md.track_number {
        Some(MetadataValue::TrackNumber(n)) => Some(n),
        _ => None,
    }
}

/// The local track-count tag, when present.
pub open spec fn md_track_count(md: TrackMetadata) -> Option<u16> {
    match md.track_count {
        Some(MetadataValue::TrackCount(c)) => Some(c),
        _ => None,
    }
}

/// One credit's distance to the local artist tag: the metric on its
/// display name, or 0 when the credit carries no name.
pub open spec fn credit_name_dist(c: ArtistCredit, artist: Seq<char>) -> nat {
    match c.name {
        Some(n) => dl_dist(n@, artist),
        None => 0,
    }
}

/// The smallest credit distance to the local artist tag; 0 for an empty
/// credit list.
pub open spec fn min_credit_dist(cs: Seq<ArtistCredit>, artist: Seq<char>) -> nat
    decreases cs.len(),
{
    if cs.len() == 0 {
        0
    } else if cs.len() == 1 {
        credit_name_dist(cs[0], artist)
    } else {
        min_nat(min_credit_dist(cs.drop_last(), artist), credit_name_dist(cs.last(), artist))
    }
}

/// Fixed penalty when the release's disambiguation text holds the word
/// `clean`, case-insensitively.
pub open spec fn disambig_penalty(r: Release) -> nat {
    match r.disambiguation {
        Some(d) => if ci_contains(d@, "clean"@) {
            3
        } else {
            0
        },
        None => 0,
    }
}

/// The metric between the release title and the local album tag, when the
/// tag is present.
pub open spec fn album_term(r: Release, md: TrackMetadata) -> nat {
    match md_album(md) {
        Some(a) => dl_dist(r.title@, a),
        None => 0,
    }
}

/// The smallest credit distance of the release to the local artist tag.
pub open spec fn release_artist_term(r: Release, md: TrackMetadata) -> nat {
    match (r.artist_credit, md_artist(md)) {
        (Some(cs), Some(a)) => min_credit_dist(cs@, a),
        _ => 0,
    }
}

/// The medium carries the given free-text format label.
pub open spec fn medium_matches(m: Medium, label: Seq<char>) -> bool {
    match m.format {
        Some(f) => f@ == label,
        None => false,
    }
}

/// Some medium of the list carries the given format label.
pub open spec fn any_medium_matches(ms: Seq<Medium>, label: Seq<char>) -> bool {
    exists|k: int| 0 <= k < ms.len() && #[trigger] medium_matches(ms[k], label)
}

/// The medium format label that a hint demands.
pub open spec fn hint_label(h: MediaFormat) -> Seq<char> {
    match h {
        MediaFormat::CD => "CD"@,
        MediaFormat::Digital => "Digital Media"@,
    }
}

/// The release has a medium whose format matches the hint; a missing hint
/// matches everything.
pub open spec fn release_matches_hint(r: Release, hint: Option<MediaFormat>) -> bool {
    match hint {
        Some(h) => any_medium_matches(r.media@, hint_label(h)),
        None => true,
    }
}

/// Fixed penalty, in the nested scoring path, when a hint is set and no
/// medium of the release matches it.
pub open spec fn format_mismatch_penalty(r: Release, hint: Option<MediaFormat>) -> nat {
    if hint is Some && !release_matches_hint(r, hint) {
        6
    } else {
        0
    }
}

/// Some medium of the list declares the given per-medium track count.
pub open spec fn any_medium_count(ms: Seq<Medium>, c: u16) -> bool {
    exists|k: int| 0 <= k < ms.len() && #[trigger] ms[k].track_count == Some(c)
}

/// Fixed penalties when the local track-count tag is present: one when the
/// release's own track count disagrees, one when no medium agrees.
pub open spec fn count_penalty(r: Release, md: TrackMetadata) -> nat {
    match md_track_count(md) {
        Some(c) => (if any_medium_count(r.media@, c) {
            0nat
        } else {
            5nat
        }) + (if r.track_count == Some(c) {
            0nat
        } else {
            5nat
        }),
        None => 0,
    }
}

/// Some medium's track offset places the local track number at its first
/// track.
pub open spec fn any_medium_offset(ms: Seq<Medium>, n: u16) -> bool {
    exists|k: int|
        0 <= k < ms.len() && (#[trigger] ms[k].track_offset matches Some(o) && o + 1 == n)
}

/// Fixed penalty when the local track-number tag is present and no
/// medium's track offset accounts for it.
pub open spec fn number_penalty(r: Release, md: TrackMetadata) -> nat {
    match md_track_number(md) {
        Some(n) => if any_medium_offset(r.media@, n) {
            0
        } else {
            5
        },
        None => 0,
    }
}

/// Small fixed penalty when the release names a country other than `US`.
pub open spec fn country_penalty(r: Release) -> nat {
    match r.country {
        Some(c) => if c@ == "US"@ {
            0
        } else {
            2
        },
        None => 0,
    }
}

/// The release score used inside recording scoring: disambiguation, album
/// title, format mismatch, artist, and track-count and track-number
/// consistency.
pub open spec fn release_score_nested(r: Release, md: TrackMetadata, hint: Option<
    MediaFormat,
>) -> nat {
    disambig_penalty(r) + album_term(r, md) + format_mismatch_penalty(r, hint)
        + release_artist_term(r, md) + count_penalty(r, md) + number_penalty(r, md)
}

/// The release score used by the top-level release resolver: as the nested
/// score, but format mismatches are handled by filtering instead of a
/// penalty, and a non-US country costs a little. The two call sites of the
/// scoring model deliberately differ this way.
pub open spec fn release_score_top(r: Release, md: TrackMetadata) -> nat {
    disambig_penalty(r) + album_term(r, md) + release_artist_term(r, md) + count_penalty(r, md)
        + number_penalty(r, md) + country_penalty(r)
}

/// The best achievable nested release score; 0 for an empty list.
pub open spec fn min_release_score(rs: Seq<Release>, md: TrackMetadata, hint: Option<
    MediaFormat,
>) -> nat
    decreases rs.len(),
{
    if rs.len() == 0 {
        0
    } else if rs.len() == 1 {
        release_score_nested(rs[0], md, hint)
    } else {
        min_nat(
            min_release_score(rs.drop_last(), md, hint),
            release_score_nested(rs.last(), md, hint),
        )
    }
}

/// The metric between the recording title and the (feat-stripped) local
/// track title, when both are present.
pub open spec fn title_term(rec: Recording, md: TrackMetadata) -> nat {
    match (rec.title, md_track_title(md)) {
        (Some(t1), Some(t2)) => dl_dist(t1@, effective_title(t2)),
        _ => 0,
    }
}

/// The smallest credit distance of the recording to the local artist tag,
/// counted only when an artist tag is present and the recording has
/// credits.
pub open spec fn recording_artist_term(rec: Recording, md: TrackMetadata) -> nat {
    if md.artist is Some && rec.artist_credit@.len() > 0 {
        match md_artist(md) {
            Some(a) => min_credit_dist(rec.artist_credit@, a),
            None => 0,
        }
    } else {
        0
    }
}

/// The best achievable nested release score of the recording; 0 when it
/// carries no release list.
pub open spec fn release_term(rec: Recording, md: TrackMetadata, hint: Option<
    MediaFormat,
>) -> nat {
    match rec.releases {
        Some(rs) => min_release_score(rs@, md, hint),
        None => 0,
    }
}

/// A recording's total score: title distance, artist distance, and the
/// best nested release score.
pub open spec fn recording_score(rec: Recording, md: TrackMetadata, hint: Option<
    MediaFormat,
>) -> nat {
    title_term(rec, md) + recording_artist_term(rec, md) + release_term(rec, md, hint)
}

// --- arithmetic bounds: every score fits usize ---

proof fn lemma_min_credit_dist_bound(cs: Seq<ArtistCredit>, artist: Seq<char>)
    requires
        forall|k: int| 0 <= k < cs.len() ==> #[trigger] cs[k].wf(),
        text_fits(artist),
    ensures
        min_credit_dist(cs, artist) * 32 <= usize::MAX,
    decreases cs.len(),
{
    if cs.len() == 0 {
    } else if cs.len() == 1 {
        assert(cs[0].wf());
        match cs[0].name {
            Some(n) => lemma_dl_dist_le(n@, artist),
            None => {},
        }
    } else {
        assert forall|k: int| 0 <= k < cs.drop_last().len() implies (#[trigger] cs.drop_last()[k]).wf() by {
            assert(cs.drop_last()[k] == cs[k]);
        }
        lemma_min_credit_dist_bound(cs.drop_last(), artist);
        assert(cs[cs.len() - 1].wf());
        match cs.last().name {
            Some(n) => lemma_dl_dist_le(n@, artist),
            None => {},
        }
    }
}

proof fn lemma_release_score_nested_bound(r: Release, md: TrackMetadata, hint: Option<MediaFormat>)
    requires
        r.wf(),
        md.wf(),
    ensures
        release_score_nested(r, md, hint) * 4 <= usize::MAX,
{
    match md_album(md) {
        Some(a) => lemma_dl_dist_le(r.title@, a),
        None => {},
    }
    match (r.artist_credit, md_artist(md)) {
        (Some(cs), Some(a)) => lemma_min_credit_dist_bound(cs@, a),
        _ => {},
    }
}

proof fn lemma_release_score_top_bound(r: Release, md: TrackMetadata)
    requires
        r.wf(),
        md.wf(),
    ensures
        release_score_top(r, md) * 4 <= usize::MAX,
{
    match md_album(md) {
        Some(a) => lemma_dl_dist_le(r.title@, a),
        None => {},
    }
    match (r.artist_credit, md_artist(md)) {
        (Some(cs), Some(a)) => lemma_min_credit_dist_bound(cs@, a),
        _ => {},
    }
}

proof fn lemma_min_release_score_bound(rs: Seq<Release>, md: TrackMetadata, hint: Option<
    MediaFormat,
>)
    requires
        forall|k: int| 0 <= k < rs.len() ==> (#[trigger] rs[k]).wf(),
        md.wf(),
    ensures
        min_release_score(rs, md, hint) * 4 <= usize::MAX,
    decreases rs.len(),
{
    if rs.len() == 0 {
    } else if rs.len() == 1 {
        lemma_release_score_nested_bound(rs[0], md, hint);
    } else {
        lemma_min_release_score_bound(rs.drop_last(), md, hint);
        lemma_release_score_nested_bound(rs.last(), md, hint);
    }
}

proof fn lemma_title_term_bound(rec: Recording, md: TrackMetadata)
    requires
        rec.wf(),
        md.wf(),
    ensures
        title_term(rec, md) * 32 <= usize::MAX,
{
    match (rec.title, md_track_title(md)) {
        (Some(t1), Some(t2)) => {
            lemma_effective_title_len(t2);
            lemma_dl_dist_le(t1@, effective_title(t2));
        },
        _ => {},
    }
}

proof fn lemma_recording_artist_term_bound(rec: Recording, md: TrackMetadata)
    requires
        rec.wf(),
        md.wf(),
    ensures
        recording_artist_term(rec, md) * 32 <= usize::MAX,
{
    match md_artist(md) {
        Some(a) => lemma_min_credit_dist_bound(rec.artist_credit@, a),
        None => {},
    }
}

proof fn lemma_release_term_bound(rec: Recording, md: TrackMetadata, hint: Option<MediaFormat>)
    requires
        rec.wf(),
        md.wf(),
    ensures
        release_term(rec, md, hint) * 4 <= usize::MAX,
{
    match rec.releases {
        Some(rs) => lemma_min_release_score_bound(rs@, md, hint),
        None => {},
    }
}

proof fn lemma_recording_score_bound(rec: Recording, md: TrackMetadata, hint: Option<MediaFormat>)
    requires
        rec.wf(),
        md.wf(),
    ensures
        recording_score(rec, md, hint) * 2 <= usize::MAX,
{
    lemma_title_term_bound(rec, md);
    lemma_recording_artist_term_bound(rec, md);
    lemma_release_term_bound(rec, md, hint);
}

// --- executable scoring, proved equal to the model ---

fn credit_dist_exec(c: &ArtistCredit, artist: &str) -> (r: usize)
    requires
        c.wf(),
        text_fits(artist@),
    ensures
        r == credit_name_dist(*c, artist@),
{
    match &c.name {
        Some(n) => damlev(n.as_str(), artist),
        None => 0,
    }
}

fn min_credit_dist_exec(cs: &Vec<ArtistCredit>, artist: &str) -> (r: usize)
    requires
        forall|k: int| 0 <= k < cs@.len() ==> (#[trigger] cs@[k]).wf(),
        text_fits(artist@),
    ensures
        r == min_credit_dist(cs@, artist@),
{
    let n = cs.len();
    if n == 0 {
        return 0;
    }
    let mut best = credit_dist_exec(&cs[0], artist);
    proof {
        assert(cs@.subrange(0, 1)[0] == cs@[0]);
        assert(cs@.subrange(0, 1).len() == 1);
    }
    let mut i: usize = 1;
    while i < n
        invariant
            n == cs@.len(),
            1 <= i <= n,
            forall|k: int| 0 <= k < cs@.len() ==> (#[trigger] cs@[k]).wf(),
            text_fits(artist@),
            best == min_credit_dist(cs@.subrange(0, i as int), artist@),
        decreases n - i,
    {
        let d = credit_dist_exec(&cs[i], artist);
        proof {
            assert(cs@.subrange(0, i + 1).drop_last() =~= cs@.subrange(0, i as int));
            assert(cs@.subrange(0, i + 1).last() == cs@[i as int]);
        }
        if d < best {
            best = d;
        }
        i = i + 1;
    }
    proof {
        assert(cs@.subrange(0, n as int) =~= cs@);
    }
    best
}

fn any_medium_matches_exec(ms: &Vec<Medium>, label: &str) -> (r: bool)
    ensures
        r == any_medium_matches(ms@, label@),
{
    let n = ms.len();
    let mut i: usize = 0;
    while i < n
        invariant
            n == ms@.len(),
            i <= n,
            forall|k: int| 0 <= k < i ==> !(#[trigger] medium_matches(ms@[k], label@)),
        decreases n - i,
    {
        let hit = match &ms[i].format {
            Some(f) => str_eq(f.as_str(), label),
            None => false,
        };
        if hit {
            assert(medium_matches(ms@[i as int], label@));
            return true;
        }
        assert(!medium_matches(ms@[i as int], label@));
        i = i + 1;
    }
    false
}

fn release_matches_hint_exec(r: &Release, hint: Option<MediaFormat>) -> (b: bool)
    ensures
        b == release_matches_hint(*r, hint),
{
    match hint {
        Some(MediaFormat::CD) => any_medium_matches_exec(&r.media, "CD"),
        Some(MediaFormat::Digital) => any_medium_matches_exec(&r.media, "Digital Media"),
        None => true,
    }
}

fn any_medium_count_exec(ms: &Vec<Medium>, c: u16) -> (r: bool)
    ensures
        r == any_medium_count(ms@, c),
{
    let n = ms.len();
    let mut i: usize = 0;
    while i < n
        invariant
            n == ms@.len(),
            i <= n,
            forall|k: int| 0 <= k < i ==> !(#[trigger] ms@[k].track_count == Some(c)),
        decreases n - i,
    {
        let hit = match ms[i].track_count {
            Some(mc) => mc == c,
            None => false,
        };
        if hit {
            assert(ms@[i as int].track_count == Some(c));
            return true;
        }
        i = i + 1;
    }
    false
}

fn any_medium_offset_exec(ms: &Vec<Medium>, n_: u16) -> (r: bool)
    ensures
        r == any_medium_offset(ms@, n_),
{
    let n = ms.len();
    let mut i: usize = 0;
    while i < n
        invariant
            n == ms@.len(),
            i <= n,
            forall|k: int|
                0 <= k < i ==> !(#[trigger] ms@[k].track_offset matches Some(o) && o + 1 == n_),
        decreases n - i,
    {
        let hit = match ms[i].track_offset {
            Some(o) => (o as u32) + 1 == (n_ as u32),
            None => false,
        };
        if hit {
            return true;
        }
        i = i + 1;
    }
    false
}

fn count_penalty_exec(r: &Release, md: &TrackMetadata) -> (s: usize)
    ensures
        s == count_penalty(*r, *md),
{
    match &md.track_count {
        Some(MetadataValue::TrackCount(c)) => {
            let medium_hit = any_medium_count_exec(&r.media, *c);
            let rel_hit = match r.track_count {
                Some(rc) => rc == *c,
                None => false,
            };
            let mut s: usize = 0;
            if !medium_hit {
                s = s + 5;
            }
            if !rel_hit {
                s = s + 5;
            }
            s
        },
        _ => 0,
    }
}

fn number_penalty_exec(r: &Release, md: &TrackMetadata) -> (s: usize)
    ensures
        s == number_penalty(*r, *md),
{
    match &md.track_number {
        Some(MetadataValue::TrackNumber(n)) => {
            if any_medium_offset_exec(&r.media, *n) {
                0
            } else {
                5
            }
        },
        _ => 0,
    }
}

fn disambig_penalty_exec(r: &Release) -> (s: usize)
    ensures
        s == disambig_penalty(*r),
{
    match &r.disambiguation {
        Some(d) => {
            if str_contains_ci(d.as_str(), "clean") {
                3
            } else {
                0
            }
        },
        None => 0,
    }
}

fn album_term_exec(r: &Release, md: &TrackMetadata) -> (s: usize)
    requires
        r.wf(),
        md.wf(),
    ensures
        s == album_term(*r, *md),
{
    match &md.album {
        Some(MetadataValue::Album(a)) => damlev(r.title.as_str(), a.as_str()),
        _ => 0,
    }
}

fn release_artist_term_exec(r: &Release, md: &TrackMetadata) -> (s: usize)
    requires
        r.wf(),
        md.wf(),
    ensures
        s == release_artist_term(*r, *md),
{
    match (&r.artist_credit, &md.artist) {
        (Some(cs), Some(MetadataValue::Artist(a))) => min_credit_dist_exec(cs, a.as_str()),
        _ => 0,
    }
}

/// Scores one release as the recording resolver's nested path does.
pub fn score_release_nested(r: &Release, md: &TrackMetadata, hint: Option<MediaFormat>) -> (s:
    usize)
    requires
        r.wf(),
        md.wf(),
    ensures
        s == release_score_nested(*r, *md, hint),
{
    proof {
        lemma_release_score_nested_bound(*r, *md, hint);
    }
    let t_dis = disambig_penalty_exec(r);
    let t_alb = album_term_exec(r, md);
    let t_fmt: usize = if hint.is_some() && !release_matches_hint_exec(r, hint) {
        6
    } else {
        0
    };
    let t_art = release_artist_term_exec(r, md);
    let t_cnt = count_penalty_exec(r, md);
    let t_num = number_penalty_exec(r, md);
    t_dis + t_alb + t_fmt + t_art + t_cnt + t_num
}

/// Scores one release as the top-level release resolver does.
pub fn score_release_top(r: &Release, md: &TrackMetadata) -> (s: usize)
    requires
        r.wf(),
        md.wf(),
    ensures
        s == release_score_top(*r, *md),
{
    proof {
        lemma_release_score_top_bound(*r, *md);
    }
    let t_dis = disambig_penalty_exec(r);
    let t_alb = album_term_exec(r, md);
    let t_art = release_artist_term_exec(r, md);
    let t_cnt = count_penalty_exec(r, md);
    let t_num = number_penalty_exec(r, md);
    let t_cty: usize = match &r.country {
        Some(c) => {
            if str_eq(c.as_str(), "US") {
                0
            } else {
                2
            }
        },
        None => 0,
    };
    t_dis + t_alb + t_art + t_cnt + t_num + t_cty
}

fn min_release_score_exec(rs: &Vec<Release>, md: &TrackMetadata, hint: Option<MediaFormat>) -> (s:
    usize)
    requires
        forall|k: int| 0 <= k < rs@.len() ==> (#[trigger] rs@[k]).wf(),
        md.wf(),
    ensures
        s == min_release_score(rs@, *md, hint),
{
    let n = rs.len();
    if n == 0 {
        return 0;
    }
    let mut best = score_release_nested(&rs[0], md, hint);
    proof {
        assert(rs@.subrange(0, 1)[0] == rs@[0]);
        assert(rs@.subrange(0, 1).len() == 1);
    }
    let mut i: usize = 1;
    while i < n
        invariant
            n == rs@.len(),
            1 <= i <= n,
            forall|k: int| 0 <= k < rs@.len() ==> (#[trigger] rs@[k]).wf(),
            md.wf(),
            best == min_release_score(rs@.subrange(0, i as int), *md, hint),
        decreases n - i,
    {
        let d = score_release_nested(&rs[i], md, hint);
        proof {
            assert(rs@.subrange(0, i + 1).drop_last() =~= rs@.subrange(0, i as int));
            assert(rs@.subrange(0, i + 1).last() == rs@[i as int]);
        }
        if d < best {
            best = d;
        }
        i = i + 1;
    }
    proof {
        assert(rs@.subrange(0, n as int) =~= rs@);
    }
    best
}

fn title_term_exec(rec: &Recording, md: &TrackMetadata) -> (s: usize)
    requires
        rec.wf(),
        md.wf(),
    ensures
        s == title_term(*rec, *md),
{
    match (&rec.title, &md.track_title) {
        (Some(t1), Some(MetadataValue::TrackTitle(t2))) => {
            let stripped = extract_title(t2.as_str());
            proof {
                lemma_effective_title_len(t2@);
            }
            match &stripped {
                Some(b) => damlev(t1.as_str(), b.as_str()),
                None => damlev(t1.as_str(), t2.as_str()),
            }
        },
        _ => 0,
    }
}

fn recording_artist_term_exec(rec: &Recording, md: &TrackMetadata) -> (s: usize)
    requires
        rec.wf(),
        md.wf(),
    ensures
        s == recording_artist_term(*rec, *md),
{
    if md.artist.is_some() && rec.artist_credit.len() > 0 {
        match &md.artist {
            Some(MetadataValue::Artist(a)) => min_credit_dist_exec(&rec.artist_credit, a.as_str()),
            _ => 0,
        }
    } else {
        0
    }
}

/// Scores one recording: title distance (after feat-stripping of the local
/// title), artist distance, and the best nested release score.
pub fn score_recording(rec: &Recording, md: &TrackMetadata, hint: Option<MediaFormat>) -> (s:
    usize)
    requires
        rec.wf(),
        md.wf(),
    ensures
        s == recording_score(*rec, *md, hint),
{
    proof {
        lemma_title_term_bound(*rec, *md);
        lemma_recording_artist_term_bound(*rec, *md);
        lemma_release_term_bound(*rec, *md, hint);
    }
    let t_title = title_term_exec(rec, md);
    let t_artist = recording_artist_term_exec(rec, md);
    let t_rel: usize = match &rec.releases {
        Some(rs) => min_release_score_exec(rs, md, hint),
        None => 0,
    };
    t_title + t_artist + t_rel
}

/// Reads a track-position label as a number: non-digit code points are
/// stripped first, and what remains must be a non-empty numeral in range.
/// Failure is a per-track condition, never fatal to a batch.
pub fn parse_track_position(number: &str) -> (r: Result<u16, ResolveError>)
    ensures
        r matches Ok(p) ==> digits_of(number@).len() >= 1 && dec_val(digits_of(number@)) == p,
        r is Err ==> r == Err::<u16, ResolveError>(ResolveError::MetadataParseError) && (digits_of(
            number@,
        ).len() == 0 || dec_val(digits_of(number@)) > 0xFFFF),
{
    let ds = crate::text::strip_non_digits(number);
    proof {
        assert(forall|k: int| 0 <= k < ds@.len() ==> crate::text::is_digit(#[trigger] ds@[k])) by {
            lemma_digits_of_digits(number@);
        }
    }
    match parse_digits_capped(&ds, 0xFFFF) {
        Some(v) => Ok(v as u16),
        None => Err(ResolveError::MetadataParseError),
    }
}

proof fn lemma_digits_of_digits(s: Seq<char>)
    ensures
        forall|k: int| 0 <= k < digits_of(s).len() ==> crate::text::is_digit(
            #[trigger] digits_of(s)[k],
        ),
    decreases s.len(),
{
    if s.len() > 0 {
        lemma_digits_of_digits(s.drop_last());
        assert forall|k: int| 0 <= k < digits_of(s).len() implies crate::text::is_digit(
            digits_of(s)[k],
        ) by {
            if k < digits_of(s.drop_last()).len() {
                assert(digits_of(s)[k] == digits_of(s.drop_last())[k]);
            } else {
                assert(digits_of(s)[k] == s.last());
            }
        }
    }
}

// --- selection ---

/// The release at `k` survives the format filter: it matches the hint, or
/// nothing in the list does and the whole unfiltered list is retained.
pub open spec fn rel_eligible(rs: Seq<Release>, hint: Option<MediaFormat>, k: int) -> bool {
    release_matches_hint(rs[k], hint) || !(exists|p: int|
        0 <= p < rs.len() && #[trigger] release_matches_hint(rs[p], hint))
}

/// `i` is the index the release resolver picks: eligible, of minimal score
/// among the eligible, and the first eligible index reaching that score.
pub open spec fn is_selected_release(
    rs: Seq<Release>,
    md: TrackMetadata,
    hint: Option<MediaFormat>,
    i: int,
) -> bool {
    &&& 0 <= i < rs.len()
    &&& rel_eligible(rs, hint, i)
    &&& forall|j: int|
        0 <= j < rs.len() && #[trigger] rel_eligible(rs, hint, j) ==> release_score_top(rs[i], md)
            <= release_score_top(rs[j], md)
    &&& forall|j: int|
        0 <= j < i && #[trigger] rel_eligible(rs, hint, j) ==> release_score_top(rs[j], md)
            > release_score_top(rs[i], md)
}

/// `i` is the index the recording resolver picks: of minimal score, and
/// the first index reaching that score.
pub open spec fn is_selected_recording(
    recs: Seq<Recording>,
    md: TrackMetadata,
    hint: Option<MediaFormat>,
    i: int,
) -> bool {
    &&& 0 <= i < recs.len()
    &&& forall|j: int|
        0 <= j < recs.len() ==> recording_score(recs[i], md, hint) <= #[trigger] recording_score(
            recs[j],
            md,
            hint,
        )
    &&& forall|j: int|
        0 <= j < i ==> #[trigger] recording_score(recs[j], md, hint) > recording_score(
            recs[i],
            md,
            hint,
        )
}

/// At most one index can be the selected one.
pub proof fn lemma_selected_release_unique(
    rs: Seq<Release>,
    md: TrackMetadata,
    hint: Option<MediaFormat>,
    i: int,
    j: int,
)
    requires
        is_selected_release(rs, md, hint, i),
        is_selected_release(rs, md, hint, j),
    ensures
        i == j,
{
}

/// At most one index can be the selected one.
pub proof fn lemma_selected_recording_unique(
    recs: Seq<Recording>,
    md: TrackMetadata,
    hint: Option<MediaFormat>,
    i: int,
    j: int,
)
    requires
        is_selected_recording(recs, md, hint, i),
        is_selected_recording(recs, md, hint, j),
    ensures
        i == j,
{
    if i < j {
        assert(recording_score(recs[i], md, hint) > recording_score(recs[j], md, hint));
        assert(recording_score(recs[i], md, hint) <= recording_score(recs[j], md, hint));
    }
    if j < i {
        assert(recording_score(recs[j], md, hint) > recording_score(recs[i], md, hint));
        assert(recording_score(recs[j], md, hint) <= recording_score(recs[i], md, hint));
    }
}

/// What the release resolver returns: nothing for an empty list, the sole
/// candidate unconditionally for a singleton, else the selected candidate.
pub open spec fn match_release_post(
    rs: Seq<Release>,
    md: TrackMetadata,
    hint: Option<MediaFormat>,
    r: Option<Release>,
) -> bool {
    if rs.len() == 0 {
        r is None
    } else if rs.len() == 1 {
        r == Some(rs[0])
    } else {
        exists|i: int| #[trigger] is_selected_release(rs, md, hint, i) && r == Some(rs[i])
    }
}

/// What the recording resolver returns: nothing for an empty list, the
/// sole candidate unconditionally for a singleton, else the selected
/// candidate.
pub open spec fn match_to_recording_post(
    recs: Seq<Recording>,
    md: TrackMetadata,
    hint: Option<MediaFormat>,
    r: Option<Recording>,
) -> bool {
    if recs.len() == 0 {
        r is None
    } else if recs.len() == 1 {
        r == Some(recs[0])
    } else {
        exists|i: int| #[trigger] is_selected_recording(recs, md, hint, i) && r == Some(recs[i])
    }
}

/// The resolution engine for one track: the local tag metadata and the
/// media-format hint that every candidate is scored against.
pub struct TrackImporter {
    pub metadata: TrackMetadata,
    pub media_format: Option<MediaFormat>,
}

/// A resolved track: the chosen recording (its release list consumed by
/// the resolution) and the chosen release, whose first artist credit is
/// the resolved artist.
pub struct ResolvedTrack {
    pub recording: Recording,
    pub release: Release,
}

impl ResolvedTrack {
    /// The chosen release carries at least one artist credit.
    pub open spec fn wf(self) -> bool {
        self.release.artist_credit matches Some(cs) && cs@.len() >= 1
    }

    /// The resolved artist: the first artist credit of the chosen release.
    pub fn artist_credit(&self) -> (c: &ArtistCredit)
        requires
            self.wf(),
        ensures
            *c == self.release.artist_credit->0@[0],
    {
        match &self.release.artist_credit {
            Some(cs) => &cs[0],
            None => unreached(),
        }
    }
}

impl TrackImporter {
    pub open spec fn wf(self) -> bool {
        self.metadata.wf()
    }

    /// An engine over the given local metadata and media-format hint.
    pub fn new(metadata: TrackMetadata, media_format: Option<MediaFormat>) -> (t: TrackImporter)
        ensures
            t.metadata == metadata,
            t.media_format == media_format,
    {
        TrackImporter { metadata, media_format }
    }

    /// Picks the best release: none from an empty list, the sole element
    /// of a singleton unconditionally, else the first candidate reaching
    /// the minimal top-level score among those surviving the format
    /// filter (or among all, when the filter would leave nothing).
    pub fn match_release(&self, releases: Vec<Release>) -> (r: Option<Release>)
        requires
            self.wf(),
            forall|k: int| 0 <= k < releases@.len() ==> (#[trigger] releases@[k]).wf(),
        ensures
            match_release_post(releases@, self.metadata, self.media_format, r),
            releases@.len() > 0 ==> r is Some,
    {
        let ghost rs = releases@;
        let mut releases = releases;
        let n = releases.len();
        if n == 0 {
            return None;
        }
        if n == 1 {
            let rel = releases.remove(0);
            return Some(rel);
        }
        let hint = self.media_format;
        let md = &self.metadata;

        let mut any_hit = false;
        let mut p: usize = 0;
        while p < n
            invariant
                n == rs.len(),
                releases@ == rs,
                p <= n,
                any_hit == exists|q: int|
                    0 <= q < p && #[trigger] release_matches_hint(rs[q], hint),
            decreases n - p,
        {
            if release_matches_hint_exec(&releases[p], hint) {
                assert(release_matches_hint(rs[p as int], hint));
                any_hit = true;
                proof {
                    assert(exists|q: int|
                        0 <= q < p + 1 && #[trigger] release_matches_hint(rs[q], hint));
                }
            }
            proof {
                if !any_hit {
                    assert forall|q: int|
                        0 <= q < p + 1 implies !(#[trigger] release_matches_hint(
                        rs[q],
                        hint,
                    )) by {}
                }
            }
            p = p + 1;
        }
        proof {
            assert(any_hit == exists|q: int|
                0 <= q < rs.len() && #[trigger] release_matches_hint(rs[q], hint));
        }

        let mut found = false;
        let mut best_i: usize = 0;
        let mut best_s: usize = 0;
        let mut i: usize = 0;
        while i < n
            invariant
                n == rs.len(),
                releases@ == rs,
                self.wf(),
                forall|k: int| 0 <= k < rs.len() ==> (#[trigger] rs[k]).wf(),
                md == &self.metadata,
                hint == self.media_format,
                i <= n,
                any_hit == exists|q: int|
                    0 <= q < rs.len() && #[trigger] release_matches_hint(rs[q], hint),
                found ==> best_i < i && rel_eligible(rs, hint, best_i as int) && best_s
                    == release_score_top(rs[best_i as int], self.metadata),
                found ==> forall|j: int|
                    0 <= j < i && #[trigger] rel_eligible(rs, hint, j) ==> best_s
                        <= release_score_top(rs[j], self.metadata),
                found ==> forall|j: int|
                    0 <= j < best_i && #[trigger] rel_eligible(rs, hint, j) ==> best_s
                        < release_score_top(rs[j], self.metadata),
                !found ==> forall|j: int| 0 <= j < i ==> !(#[trigger] rel_eligible(rs, hint, j)),
            decreases n - i,
        {
            let elig = if any_hit {
                release_matches_hint_exec(&releases[i], hint)
            } else {
                true
            };
            assert(elig == rel_eligible(rs, hint, i as int));
            if elig {
                let s = score_release_top(&releases[i], md);
                if !found || s < best_s {
                    found = true;
                    best_i = i;
                    best_s = s;
                }
            }
            i = i + 1;
        }
        proof {
            if !found {
                if any_hit {
                    let q = choose|q: int|
                        0 <= q < rs.len() && #[trigger] release_matches_hint(rs[q], hint);
                    assert(rel_eligible(rs, hint, q));
                    assert(false);
                } else {
                    assert(rel_eligible(rs, hint, 0));
                    assert(false);
                }
            }
            assert(is_selected_release(rs, self.metadata, hint, best_i as int));
        }
        let rel = releases.remove(best_i);
        Some(rel)
    }

    /// Picks the best recording: none from an empty list, the sole element
    /// of a singleton unconditionally, else the first candidate reaching
    /// the minimal score.
    pub fn match_to_recording(&self, recordings: Vec<Recording>) -> (r: Option<Recording>)
        requires
            self.wf(),
            forall|k: int| 0 <= k < recordings@.len() ==> (#[trigger] recordings@[k]).wf(),
        ensures
            match_to_recording_post(recordings@, self.metadata, self.media_format, r),
            recordings@.len() > 0 ==> r is Some,
    {
        let ghost rs = recordings@;
        let mut recordings = recordings;
        let n = recordings.len();
        if n == 0 {
            return None;
        }
        if n == 1 {
            let rec = recordings.remove(0);
            return Some(rec);
        }
        let hint = self.media_format;
        let md = &self.metadata;

        let mut best_i: usize = 0;
        let mut best_s = score_recording(&recordings[0], md, hint);
        let mut i: usize = 1;
        while i < n
            invariant
                n == rs.len(),
                recordings@ == rs,
                self.wf(),
                forall|k: int| 0 <= k < rs.len() ==> (#[trigger] rs[k]).wf(),
                md == &self.metadata,
                hint == self.media_format,
                1 <= i <= n,
                best_i < i,
                best_s == recording_score(rs[best_i as int], self.metadata, hint),
                forall|j: int|
                    0 <= j < i ==> best_s <= #[trigger] recording_score(
                        rs[j],
                        self.metadata,
                        hint,
                    ),
                forall|j: int|
                    0 <= j < best_i ==> best_s < #[trigger] recording_score(
                        rs[j],
                        self.metadata,
                        hint,
                    ),
            decreases n - i,
        {
            let s = score_recording(&recordings[i], md, hint);
            if s < best_s {
                best_i = i;
                best_s = s;
            }
            i = i + 1;
        }
        proof {
            assert(is_selected_recording(rs, self.metadata, hint, best_i as int));
        }
        let rec = recordings.remove(best_i);
        Some(rec)
    }
}

/// `sel` is the recording the resolver settles on: the sole element of a
/// singleton list, else the element at the selected index.
pub open spec fn selected_recording_of(
    recs: Seq<Recording>,
    md: TrackMetadata,
    hint: Option<MediaFormat>,
    sel: Recording,
) -> bool {
    if recs.len() == 1 {
        sel == recs[0]
    } else {
        exists|i: int| #[trigger] is_selected_recording(recs, md, hint, i) && sel == recs[i]
    }
}

/// `rel` is the release the resolver settles on: the sole element of a
/// singleton list, else the element at the selected index.
pub open spec fn selected_release_of(
    rs: Seq<Release>,
    md: TrackMetadata,
    hint: Option<MediaFormat>,
    rel: Release,
) -> bool {
    if rs.len() == 1 {
        rel == rs[0]
    } else {
        exists|i: int| #[trigger] is_selected_release(rs, md, hint, i) && rel == rs[i]
    }
}

/// What resolving one track yields once the recording `sel` is chosen: an
/// incomplete match when `sel` carries no releases, none survive
/// selection with a first artist credit, or the chosen release has no
/// credits; otherwise the resolved triple, with the chosen recording's
/// release list consumed.
pub open spec fn resolved_from(
    sel: Recording,
    md: TrackMetadata,
    hint: Option<MediaFormat>,
    res: Result<ResolvedTrack, ResolveError>,
) -> bool {
    match sel.releases {
        None => res == Err::<ResolvedTrack, ResolveError>(ResolveError::IncompleteMatch),
        Some(rels) => if rels@.len() == 0 {
            res == Err::<ResolvedTrack, ResolveError>(ResolveError::IncompleteMatch)
        } else {
            exists|rel: Release| #[trigger] selected_release_of(rels@, md, hint, rel) && (match rel
                .artist_credit {
                None => res == Err::<ResolvedTrack, ResolveError>(ResolveError::IncompleteMatch),
                Some(cs) => if cs@.len() == 0 {
                    res == Err::<ResolvedTrack, ResolveError>(ResolveError::IncompleteMatch)
                } else {
                    &&& res matches Ok(rt)
                    &&& rt.release == rel
                    &&& rt.recording.id == sel.id
                    &&& rt.recording.disambiguation == sel.disambiguation
                    &&& rt.recording.title == sel.title
                    &&& rt.recording.artist_credit == sel.artist_credit
                    &&& rt.recording.length == sel.length
                    &&& rt.recording.releases is None
                },
            })
        },
    }
}

/// What resolving one track yields: no candidate from an empty list, else
/// the outcome of resolving from the selected recording.
pub open spec fn resolve_post(
    recs: Seq<Recording>,
    md: TrackMetadata,
    hint: Option<MediaFormat>,
    res: Result<ResolvedTrack, ResolveError>,
) -> bool {
    if recs.len() == 0 {
        res == Err::<ResolvedTrack, ResolveError>(ResolveError::NoCandidate)
    } else {
        exists|sel: Recording| #[trigger] selected_recording_of(recs, md, hint, sel)
            && resolved_from(sel, md, hint, res)
    }
}

impl TrackImporter {
    /// Resolves one track: picks the best recording, re-resolves its
    /// releases to pick the concrete release, and takes that release's
    /// first artist credit as the resolved artist. Every failure is local
    /// to this track.
    pub fn find_match(&self, recordings: Vec<Recording>) -> (res: Result<
        ResolvedTrack,
        ResolveError,
    >)
        requires
            self.wf(),
            forall|k: int| 0 <= k < recordings@.len() ==> (#[trigger] recordings@[k]).wf(),
        ensures
            resolve_post(recordings@, self.metadata, self.media_format, res),
            res matches Ok(rt) ==> rt.wf(),
    {
        let ghost recs = recordings@;
        let ghost md = self.metadata;
        let ghost hint = self.media_format;
        let n = recordings.len();
        if n == 0 {
            return Err(ResolveError::NoCandidate);
        }
        let rec_opt = self.match_to_recording(recordings);
        let mut rec = match rec_opt {
            Some(r) => r,
            None => unreached(),
        };
        let ghost sel = rec;
        proof {
            if recs.len() >= 2 {
                let i = choose|i: int|
                    #[trigger] is_selected_recording(recs, md, hint, i) && rec_opt == Some(
                        recs[i],
                    );
                assert(is_selected_recording(recs, md, hint, i) && sel == recs[i]);
                assert(recs[i].wf());
            }
            assert(selected_recording_of(recs, md, hint, sel));
            assert(sel.wf());
        }
        let rels_opt = rec.releases.take();
        let rels = match rels_opt {
            Some(rs) => rs,
            None => {
                return Err(ResolveError::IncompleteMatch);
            },
        };
        let ghost rels_seq = rels@;
        if rels.len() == 0 {
            return Err(ResolveError::IncompleteMatch);
        }
        proof {
            assert(forall|k: int| 0 <= k < rels_seq.len() ==> (#[trigger] rels_seq[k]).wf());
        }
        let rel_opt = self.match_release(rels);
        let rel = match rel_opt {
            Some(r) => r,
            None => unreached(),
        };
        proof {
            if rels_seq.len() >= 2 {
                let i = choose|i: int|
                    #[trigger] is_selected_release(rels_seq, md, hint, i) && rel_opt == Some(
                        rels_seq[i],
                    );
                assert(is_selected_release(rels_seq, md, hint, i) && rel == rels_seq[i]);
            }
            assert(selected_release_of(rels_seq, md, hint, rel));
        }
        let has_credit = match &rel.artist_credit {
            Some(cs) => cs.len() > 0,
            None => false,
        };
        if !has_credit {
            return Err(ResolveError::IncompleteMatch);
        }
        Ok(ResolvedTrack { recording: rec, release: rel })
    }
}

/// Whether a persistable track row can be built: the recording must carry
/// an identifier and a title, and the release a first medium with a first
/// track whose position label reads as a number.
pub open spec fn track_row_post(
    rec: Recording,
    release: Release,
    bitrate: i64,
    duration: i64,
    file_location: Seq<char>,
    r: Result<crate::models::Track, ResolveError>,
) -> bool {
    if rec.id is None || rec.title is None || release.media@.len() == 0
        || release.media@[0].track@.len() == 0 {
        r == Err::<crate::models::Track, ResolveError>(ResolveError::IncompleteMatch)
    } else {
        let number = release.media@[0].track@[0].number@;
        if digits_of(number).len() >= 1 && dec_val(digits_of(number)) <= 0xFFFF {
            &&& r matches Ok(t)
            &&& t.mbid == rec.id->0
            &&& t.title == rec.title->0
            &&& t.position == dec_val(digits_of(number))
            &&& t.bitrate == bitrate
            &&& t.duration == duration
            &&& t.file_location@ == file_location
        } else {
            r == Err::<crate::models::Track, ResolveError>(ResolveError::MetadataParseError)
        }
    }
}

impl TrackImporter {
    /// Builds the persistable track row from a resolved recording and
    /// release, together with the plain values the scanner supplies. The
    /// position comes from the first track of the release's first medium.
    pub fn build_track(
        &self,
        rec: &Recording,
        release: &Release,
        bitrate: i64,
        duration: i64,
        file_location: String,
    ) -> (r: Result<crate::models::Track, ResolveError>)
        ensures
            track_row_post(*rec, *release, bitrate, duration, file_location@, r),
    {
        let mbid = match &rec.id {
            Some(id) => id.clone(),
            None => {
                return Err(ResolveError::IncompleteMatch);
            },
        };
        let title = match &rec.title {
            Some(t) => t.clone(),
            None => {
                return Err(ResolveError::IncompleteMatch);
            },
        };
        if release.media.len() == 0 {
            return Err(ResolveError::IncompleteMatch);
        }
        if release.media[0].track.len() == 0 {
            return Err(ResolveError::IncompleteMatch);
        }
        let position = match parse_track_position(release.media[0].track[0].number.as_str()) {
            Ok(p) => p,
            Err(e) => {
                return Err(e);
            },
        };
        Ok(
            crate::models::Track {
                mbid,
                position,
                title,
                bitrate,
                duration,
                file_location,
            },
        )
    }
}

/// `i` is the index that a minimum-distance search over names picks: its
/// name has minimal distance to the target, and no earlier one reaches
/// that distance.
pub open spec fn is_closest_name(names: Seq<String>, target: Seq<char>, i: int) -> bool {
    &&& 0 <= i < names.len()
    &&& forall|j: int|
        0 <= j < names.len() ==> dl_dist(names[i]@, target) <= #[trigger] dl_dist(
            names[j]@,
            target,
        )
    &&& forall|j: int| 0 <= j < i ==> #[trigger] dl_dist(names[j]@, target) > dl_dist(
        names[i]@,
        target,
    )
}

/// Picks the name closest to the target under the metric: none from an
/// empty list, else the first name reaching the minimal distance. Used to
/// choose among artist or album candidates of an image provider.
pub fn closest_match_index(names: &Vec<String>, target: &str) -> (r: Option<usize>)
    requires
        forall|k: int| 0 <= k < names@.len() ==> text_fits((#[trigger] names@[k])@),
        text_fits(target@),
    ensures
        r is Some <==> names@.len() > 0,
        r matches Some(i) ==> is_closest_name(names@, target@, i as int),
{
    let n = names.len();
    if n == 0 {
        return None;
    }
    let mut best_i: usize = 0;
    let mut best_d = damlev(names[0].as_str(), target);
    let mut i: usize = 1;
    while i < n
        invariant
            n == names@.len(),
            forall|k: int| 0 <= k < names@.len() ==> text_fits((#[trigger] names@[k])@),
            text_fits(target@),
            1 <= i <= n,
            best_i < i,
            best_d == dl_dist(names@[best_i as int]@, target@),
            forall|j: int| 0 <= j < i ==> best_d <= #[trigger] dl_dist(names@[j]@, target@),
            forall|j: int| 0 <= j < best_i ==> #[trigger] dl_dist(names@[j]@, target@) > best_d,
        decreases n - i,
    {
        let d = damlev(names[i].as_str(), target);
        if d < best_d {
            best_i = i;
            best_d = d;
        }
        i = i + 1;
    }
    Some(best_i)
}

/// `i` is the index that a widest-image search picks: its width (absent
/// widths count as 0) is maximal, and no later one reaches it.
pub open spec fn is_widest_image(widths: Seq<Option<u32>>, i: int) -> bool {
    &&& 0 <= i < widths.len()
    &&& forall|j: int|
        0 <= j < widths.len() ==> width_or_zero(widths[i]) >= #[trigger] width_or_zero(widths[j])
    &&& forall|j: int| i < j < widths.len() ==> #[trigger] width_or_zero(widths[j]) < width_or_zero(
        widths[i],
    )
}

/// An image's width, with a missing width counting as 0.
pub open spec fn width_or_zero(w: Option<u32>) -> u32 {
    match w {
        Some(x) => x,
        None => 0,
    }
}

/// Picks the widest image of a candidate's image list: none from an empty
/// list, else the last image reaching the maximal width.
pub fn widest_image_index(widths: &Vec<Option<u32>>) -> (r: Option<usize>)
    ensures
        r is Some <==> widths@.len() > 0,
        r matches Some(i) ==> is_widest_image(widths@, i as int),
{
    let n = widths.len();
    if n == 0 {
        return None;
    }
    let mut best_i: usize = 0;
    let mut best_w: u32 = match widths[0] {
        Some(x) => x,
        None => 0,
    };
    let mut i: usize = 1;
    while i < n
        invariant
            n == widths@.len(),
            1 <= i <= n,
            best_i < i,
            best_w == width_or_zero(widths@[best_i as int]),
            forall|j: int| 0 <= j < i ==> #[trigger] width_or_zero(widths@[j]) <= best_w,
            forall|j: int|
                best_i < j < i ==> #[trigger] width_or_zero(widths@[j]) < best_w,
        decreases n - i,
    {
        let w = match widths[i] {
            Some(x) => x,
            None => 0,
        };
        if w >= best_w {
            best_i = i;
            best_w = w;
        }
        i = i + 1;
    }
    Some(best_i)
}

/// A code point allowed in an artist identifier of an open.spotify.com
/// URL: an ASCII letter, digit, hyphen or underscore.
pub open spec fn artist_id_char(c: char) -> bool {
    ||| 97 <= c as u32 <= 122
    ||| 65 <= c as u32 <= 90
    ||| 48 <= c as u32 <= 57
    ||| c == '-'
    ||| c == '_'
}

fn artist_id_char_exec(c: char) -> (r: bool)
    ensures
        r == artist_id_char(c),
{
    let cu = c as u32;
    (97 <= cu && cu <= 122) || (65 <= cu && cu <= 90) || (48 <= cu && cu <= 57) || c == '-' || c
        == '_'
}

/// The artist identifier of a resource that is exactly an
/// open.spotify.com artist URL: the non-empty identifier tail after the
/// fixed prefix, all of whose code points are allowed.
pub open spec fn spotify_artist_id(res: Seq<char>) -> Option<Seq<char>> {
    let p = "https://open.spotify.com/artist/"@;
    if res.len() > p.len() && res.subrange(0, p.len() as int) == p && (forall|k: int|
        p.len() <= k < res.len() ==> artist_id_char(res[k])) {
        Some(res.subrange(p.len() as int, res.len() as int))
    } else {
        None
    }
}

#[verifier::loop_isolation(false)]
fn spotify_artist_id_exec(res: &str) -> (r: Option<String>)
    ensures
        r is Some <==> spotify_artist_id(res@) is Some,
        r matches Some(id) ==> spotify_artist_id(res@) == Some(id@),
{
    let cs = crate::text::chars_vec(res);
    let pv = crate::text::chars_vec("https://open.spotify.com/artist/");
    let n = cs.len();
    let pn = pv.len();
    if n <= pn {
        return None;
    }
    let mut i: usize = 0;
    while i < pn
        invariant
            forall|k: int| 0 <= k < i ==> res@[k] == pv@[k],
            i <= pn,
        decreases pn - i,
    {
        if cs[i] != pv[i] {
            assert(res@.subrange(0, pn as int) != pv@) by {
                assert(res@.subrange(0, pn as int)[i as int] == res@[i as int]);
            }
            return None;
        }
        i = i + 1;
    }
    proof {
        assert(res@.subrange(0, pn as int) =~= pv@);
    }
    let mut k = pn;
    while k < n
        invariant
            forall|q: int| pn <= q < k ==> artist_id_char(res@[q]),
            pn <= k <= n,
        decreases n - k,
    {
        if !artist_id_char_exec(cs[k]) {
            return None;
        }
        k = k + 1;
    }
    let mut id = String::new();
    let mut j = pn;
    while j < n
        invariant
            pn <= j <= n,
            id@ == res@.subrange(pn as int, j as int),
        decreases n - j,
    {
        crate::text::push_char(&mut id, cs[j]);
        proof {
            assert(id@ =~= res@.subrange(pn as int, j + 1));
        }
        j = j + 1;
    }
    Some(id)
}

/// The artist identifier in the first relation whose URL resource is an
/// open.spotify.com artist URL, scanning the relations in order.
pub open spec fn first_spotify_id(rels: Seq<crate::entities::Relation>) -> Option<Seq<char>>
    decreases rels.len(),
{
    if rels.len() == 0 {
        None
    } else {
        match rels[0].url {
            Some(u) => match spotify_artist_id(u.resource@) {
                Some(id) => Some(id),
                None => first_spotify_id(rels.drop_first()),
            },
            None => first_spotify_id(rels.drop_first()),
        }
    }
}

/// Finds the artist's own identifier on the digital streaming service,
/// when one of the catalog relations links to it.
pub fn find_artist_spotify_id(relations: &Vec<crate::entities::Relation>) -> (r: Option<String>)
    ensures
        r is Some <==> first_spotify_id(relations@) is Some,
        r matches Some(id) ==> first_spotify_id(relations@) == Some(id@),
{
    let n = relations.len();
    let mut i: usize = 0;
    proof {
        assert(relations@.skip(0) =~= relations@);
    }
    while i < n
        invariant
            n == relations@.len(),
            i <= n,
            first_spotify_id(relations@) == first_spotify_id(relations@.skip(i as int)),
        decreases n - i,
    {
        proof {
            assert(relations@.skip(i as int)[0] == relations@[i as int]);
            assert(relations@.skip(i as int).drop_first() =~= relations@.skip(i + 1));
        }
        match &relations[i].url {
            Some(u) => {
                match spotify_artist_id_exec(u.resource.as_str()) {
                    Some(id) => {
                        return Some(id);
                    },
                    None => {},
                }
            },
            None => {},
        }
        i = i + 1;
    }
    None
}

// --- laws of the resolution ---

/// Resolution is a pure function of its inputs: any two outcomes that the
/// release resolver's contract admits for the same candidate list, local
/// metadata and hint are the same outcome.
pub proof fn lemma_release_resolution_pure(
    rs: Seq<Release>,
    md: TrackMetadata,
    hint: Option<MediaFormat>,
    r1: Option<Release>,
    r2: Option<Release>,
)
    requires
        match_release_post(rs, md, hint, r1),
        match_release_post(rs, md, hint, r2),
    ensures
        r1 == r2,
{
    if rs.len() >= 2 {
        let i1 = choose|i: int| #[trigger] is_selected_release(rs, md, hint, i) && r1 == Some(
            rs[i],
        );
        let i2 = choose|i: int| #[trigger] is_selected_release(rs, md, hint, i) && r2 == Some(
            rs[i],
        );
        lemma_selected_release_unique(rs, md, hint, i1, i2);
    }
}

/// Resolution is a pure function of its inputs: any two outcomes that the
/// recording resolver's contract admits for the same candidate list,
/// local metadata and hint are the same outcome.
pub proof fn lemma_recording_resolution_pure(
    recs: Seq<Recording>,
    md: TrackMetadata,
    hint: Option<MediaFormat>,
    r1: Option<Recording>,
    r2: Option<Recording>,
)
    requires
        match_to_recording_post(recs, md, hint, r1),
        match_to_recording_post(recs, md, hint, r2),
    ensures
        r1 == r2,
{
    if recs.len() >= 2 {
        let i1 = choose|i: int| #[trigger] is_selected_recording(recs, md, hint, i) && r1 == Some(
            recs[i],
        );
        let i2 = choose|i: int| #[trigger] is_selected_recording(recs, md, hint, i) && r2 == Some(
            recs[i],
        );
        lemma_selected_recording_unique(recs, md, hint, i1, i2);
    }
}

/// Resolution is a pure function of its inputs: any two outcomes that the
/// track resolver's contract admits for the same candidate list, local
/// metadata and hint are the same outcome.
pub proof fn lemma_resolution_pure(
    recs: Seq<Recording>,
    md: TrackMetadata,
    hint: Option<MediaFormat>,
    res1: Result<ResolvedTrack, ResolveError>,
    res2: Result<ResolvedTrack, ResolveError>,
)
    requires
        resolve_post(recs, md, hint, res1),
        resolve_post(recs, md, hint, res2),
    ensures
        res1 == res2,
{
    if recs.len() == 0 {
        return ;
    }
    let sel1 = choose|sel: Recording|
        #[trigger] selected_recording_of(recs, md, hint, sel) && resolved_from(
            sel,
            md,
            hint,
            res1,
        );
    let sel2 = choose|sel: Recording|
        #[trigger] selected_recording_of(recs, md, hint, sel) && resolved_from(
            sel,
            md,
            hint,
            res2,
        );
    if recs.len() >= 2 {
        let i1 = choose|i: int| #[trigger] is_selected_recording(recs, md, hint, i) && sel1
            == recs[i];
        let i2 = choose|i: int| #[trigger] is_selected_recording(recs, md, hint, i) && sel2
            == recs[i];
        lemma_selected_recording_unique(recs, md, hint, i1, i2);
    }
    assert(sel1 == sel2);
    match sel1.releases {
        None => {},
        Some(rels) => {
            if rels@.len() > 0 {
                let rel1 = choose|rel: Release|
                    #[trigger] selected_release_of(rels@, md, hint, rel) && (match rel
                        .artist_credit {
                        None => res1 == Err::<ResolvedTrack, ResolveError>(
                            ResolveError::IncompleteMatch,
                        ),
                        Some(cs) => if cs@.len() == 0 {
                            res1 == Err::<ResolvedTrack, ResolveError>(
                                ResolveError::IncompleteMatch,
                            )
                        } else {
                            &&& res1 matches Ok(rt)
                            &&& rt.release == rel
                            &&& rt.recording.id == sel1.id
                            &&& rt.recording.disambiguation == sel1.disambiguation
                            &&& rt.recording.title == sel1.title
                            &&& rt.recording.artist_credit == sel1.artist_credit
                            &&& rt.recording.length == sel1.length
                            &&& rt.recording.releases is None
                        },
                    });
                let rel2 = choose|rel: Release|
                    #[trigger] selected_release_of(rels@, md, hint, rel) && (match rel
                        .artist_credit {
                        None => res2 == Err::<ResolvedTrack, ResolveError>(
                            ResolveError::IncompleteMatch,
                        ),
                        Some(cs) => if cs@.len() == 0 {
                            res2 == Err::<ResolvedTrack, ResolveError>(
                                ResolveError::IncompleteMatch,
                            )
                        } else {
                            &&& res2 matches Ok(rt)
                            &&& rt.release == rel
                            &&& rt.recording.id == sel2.id
                            &&& rt.recording.disambiguation == sel2.disambiguation
                            &&& rt.recording.title == sel2.title
                            &&& rt.recording.artist_credit == sel2.artist_credit
                            &&& rt.recording.length == sel2.length
                            &&& rt.recording.releases is None
                        },
                    });
                if rels@.len() >= 2 {
                    let j1 = choose|i: int| #[trigger] is_selected_release(rels@, md, hint, i)
                        && rel1 == rels@[i];
                    let j2 = choose|i: int| #[trigger] is_selected_release(rels@, md, hint, i)
                        && rel2 == rels@[i];
                    lemma_selected_release_unique(rels@, md, hint, j1, j2);
                }
                assert(rel1 == rel2);
                match rel1.artist_credit {
                    None => {},
                    Some(cs) => {
                        if cs@.len() > 0 {
                            let rt1 = res1->Ok_0;
                            let rt2 = res2->Ok_0;
                            assert(rt1.recording == rt2.recording);
                            assert(rt1 == rt2);
                        }
                    },
                }
            }
        },
    }
}

/// Of two equally minimal candidates, the one appearing earlier in the
/// input list is selected, never the later one.
pub proof fn lemma_earlier_recording_tie_wins(
    recs: Seq<Recording>,
    md: TrackMetadata,
    hint: Option<MediaFormat>,
    i: int,
    j: int,
    s: int,
)
    requires
        0 <= i < j < recs.len(),
        recording_score(recs[i], md, hint) == recording_score(recs[j], md, hint),
        forall|k: int|
            0 <= k < recs.len() ==> recording_score(recs[i], md, hint) <= #[trigger]
            recording_score(recs[k], md, hint),
        is_selected_recording(recs, md, hint, s),
    ensures
        s <= i,
        s != j,
{
    if s > i {
        assert(recording_score(recs[i], md, hint) > recording_score(recs[s], md, hint));
        assert(recording_score(recs[i], md, hint) <= recording_score(recs[s], md, hint));
    }
}

/// Of two equally minimal eligible candidates, the one appearing earlier
/// in the input list is selected, never the later one.
pub proof fn lemma_earlier_release_tie_wins(
    rs: Seq<Release>,
    md: TrackMetadata,
    hint: Option<MediaFormat>,
    i: int,
    j: int,
    s: int,
)
    requires
        0 <= i < j < rs.len(),
        rel_eligible(rs, hint, i),
        rel_eligible(rs, hint, j),
        release_score_top(rs[i], md) == release_score_top(rs[j], md),
        forall|k: int|
            0 <= k < rs.len() && #[trigger] rel_eligible(rs, hint, k) ==> release_score_top(
                rs[i],
                md,
            ) <= release_score_top(rs[k], md),
        is_selected_release(rs, md, hint, s),
    ensures
        s <= i,
        s != j,
{
    if s > i {
        assert(release_score_top(rs[i], md) > release_score_top(rs[s], md));
        assert(release_score_top(rs[i], md) <= release_score_top(rs[s], md));
    }
}

} // verus!
