//! Local tag metadata: the canonical field slots, the two tag dialects that
//! map raw keys onto them, the media-format classifier that reads path
//! hints and disc tags, and the sibling-count fallback for a missing
//! track-count tag.

use vstd::prelude::*;
use crate::text::{
    ci_seq_eq, is_digit, is_ws, numeral_ok, numeral_val, parse_dec_capped, str_eq, str_eq_ci,
};

verus! {

/// The canonical field slots of local tag metadata.
#[derive(Clone, Copy)]
pub enum MetadataKey {
    Artist,
    Album,
    Disc,
    DiscCount,
    TrackTitle,
    TrackNumber,
    TrackCount,
    TrackLength,
}

/// A canonical tag value, tagged with the slot it fills.
pub enum MetadataValue {
    Artist(String),
    Album(String),
    Disc(u8),
    DiscCount(u8),
    TrackTitle(String),
    TrackNumber(u16),
    TrackCount(u16),
    TrackLength(u32),
}

/// The raw value parsed as a `u8` tag, when it is a well-formed decimal
/// numeral in range.
pub open spec fn parsed_u8(o: Option<String>) -> Option<u8> {
    match o {
        Some(v) => if numeral_ok(v@) && numeral_val(v@) <= 0xFF {
            Some(numeral_val(v@) as u8)
        } else {
            None
        },
        None => None,
    }
}

/// The raw value parsed as a `u16` tag, when it is a well-formed decimal
/// numeral in range.
pub open spec fn parsed_u16(o: Option<String>) -> Option<u16> {
    match o {
        Some(v) => if numeral_ok(v@) && numeral_val(v@) <= 0xFFFF {
            Some(numeral_val(v@) as u16)
        } else {
            None
        },
        None => None,
    }
}

fn parse_u8_value(o: Option<String>) -> (r: Option<u8>)
    ensures
        r == parsed_u8(o),
{
    match o {
        Some(v) => match parse_dec_capped(v.as_str(), 0xFF) {
            Some(n) => Some(n as u8),
            None => None,
        },
        None => None,
    }
}

fn parse_u16_value(o: Option<String>) -> (r: Option<u16>)
    ensures
        r == parsed_u16(o),
{
    match o {
        Some(v) => match parse_dec_capped(v.as_str(), 0xFFFF) {
            Some(n) => Some(n as u16),
            None => None,
        },
        None => None,
    }
}

/// The raw keys that the FLAC dialect accepts for each slot, compared
/// ASCII-case-insensitively.
pub open spec fn flac_key_ok(item: MetadataKey, k: Seq<char>) -> bool {
    match item {
        MetadataKey::Album => ci_seq_eq(k, "album"@),
        MetadataKey::Artist => ci_seq_eq(k, "artist"@),
        MetadataKey::Disc => ci_seq_eq(k, "disc"@),
        MetadataKey::DiscCount => ci_seq_eq(k, "disctotal"@) || ci_seq_eq(k, "totaldiscs"@),
        MetadataKey::TrackTitle => ci_seq_eq(k, "title"@),
        MetadataKey::TrackNumber => ci_seq_eq(k, "track"@) || ci_seq_eq(k, "tracknumber"@),
        MetadataKey::TrackCount => ci_seq_eq(k, "tracktotal"@) || ci_seq_eq(k, "totaltracks"@),
        MetadataKey::TrackLength => false,
    }
}

/// The raw keys that the MP3 dialect accepts for each slot, compared
/// exactly.
pub open spec fn mp3_key_ok(item: MetadataKey, k: Seq<char>) -> bool {
    match item {
        MetadataKey::Album => k == "album"@ || k == "ALBUM"@,
        MetadataKey::Artist => k == "artist"@ || k == "ARTIST"@,
        MetadataKey::Disc => k == "DISCNUMBER"@,
        MetadataKey::DiscCount => k == "DISCTOTAL"@,
        MetadataKey::TrackTitle => k == "title"@ || k == "TITLE"@,
        MetadataKey::TrackNumber => k == "TRACK"@,
        MetadataKey::TrackCount => k == "TRACKTOTAL"@ || k == "TOTALTRACKS"@,
        MetadataKey::TrackLength => false,
    }
}

/// The value of the first raw pair whose key the FLAC dialect accepts for
/// the slot.
pub open spec fn flac_find(md: Seq<(String, String)>, item: MetadataKey) -> Option<String>
    decreases md.len(),
{
    if md.len() == 0 {
        None
    } else if flac_key_ok(item, md[0].0@) {
        Some(md[0].1)
    } else {
        flac_find(md.drop_first(), item)
    }
}

/// The value of the first raw pair whose key the MP3 dialect accepts for
/// the slot.
pub open spec fn mp3_find(md: Seq<(String, String)>, item: MetadataKey) -> Option<String>
    decreases md.len(),
{
    if md.len() == 0 {
        None
    } else if mp3_key_ok(item, md[0].0@) {
        Some(md[0].1)
    } else {
        mp3_find(md.drop_first(), item)
    }
}

fn flac_find_exec(md: &Vec<(String, String)>, item: MetadataKey) -> (r: Option<String>)
    ensures
        r == flac_find(md@, item),
{
    let n = md.len();
    let mut i: usize = 0;
    proof {
        assert(md@.skip(0) =~= md@);
    }
    while i < n
        invariant
            n == md@.len(),
            i <= n,
            flac_find(md@, item) == flac_find(md@.skip(i as int), item),
        decreases n - i,
    {
        let k = md[i].0.as_str();
        let hit = match item {
            MetadataKey::Album => str_eq_ci(k, "album"),
            MetadataKey::Artist => str_eq_ci(k, "artist"),
            MetadataKey::Disc => str_eq_ci(k, "disc"),
            MetadataKey::DiscCount => str_eq_ci(k, "disctotal") || str_eq_ci(k, "totaldiscs"),
            MetadataKey::TrackTitle => str_eq_ci(k, "title"),
            MetadataKey::TrackNumber => str_eq_ci(k, "track") || str_eq_ci(k, "tracknumber"),
            MetadataKey::TrackCount => str_eq_ci(k, "tracktotal") || str_eq_ci(k, "totaltracks"),
            MetadataKey::TrackLength => false,
        };
        proof {
            assert(md@.skip(i as int)[0] == md@[i as int]);
            assert(md@.skip(i as int).drop_first() =~= md@.skip(i + 1));
        }
        if hit {
            return Some(md[i].1.clone());
        }
        i = i + 1;
    }
    None
}

fn mp3_find_exec(md: &Vec<(String, String)>, item: MetadataKey) -> (r: Option<String>)
    ensures
        r == mp3_find(md@, item),
{
    let n = md.len();
    let mut i: usize = 0;
    proof {
        assert(md@.skip(0) =~= md@);
    }
    while i < n
        invariant
            n == md@.len(),
            i <= n,
            mp3_find(md@, item) == mp3_find(md@.skip(i as int), item),
        decreases n - i,
    {
        let k = md[i].0.as_str();
        let hit = match item {
            MetadataKey::Album => str_eq(k, "album") || str_eq(k, "ALBUM"),
            MetadataKey::Artist => str_eq(k, "artist") || str_eq(k, "ARTIST"),
            MetadataKey::Disc => str_eq(k, "DISCNUMBER"),
            MetadataKey::DiscCount => str_eq(k, "DISCTOTAL"),
            MetadataKey::TrackTitle => str_eq(k, "title") || str_eq(k, "TITLE"),
            MetadataKey::TrackNumber => str_eq(k, "TRACK"),
            MetadataKey::TrackCount => str_eq(k, "TRACKTOTAL") || str_eq(k, "TOTALTRACKS"),
            MetadataKey::TrackLength => false,
        };
        proof {
            assert(md@.skip(i as int)[0] == md@[i as int]);
            assert(md@.skip(i as int).drop_first() =~= md@.skip(i + 1));
        }
        if hit {
            return Some(md[i].1.clone());
        }
        i = i + 1;
    }
    None
}

/// A tag dialect: a mapping from raw key-value pairs onto the canonical
/// field slots.
pub trait TrackFormat {
    /// What the dialect extracts from the raw metadata for the given slot.
    spec fn spec_get(&self, md: Seq<(String, String)>, item: MetadataKey) -> Option<MetadataValue>;

    /// Extracts the canonical value of the given slot from raw metadata.
    fn try_get_metadata(&self, md: &Vec<(String, String)>, item: MetadataKey) -> (r: Option<
        MetadataValue,
    >)
        ensures
            r == self.spec_get(md@, item),
    ;
}

/// The FLAC tag dialect: lower-case Vorbis-comment keys, matched
/// case-insensitively.
pub struct FLAC;

/// The MP3 tag dialect: ID3-derived keys, matched exactly in the two
/// spellings that occur.
pub struct MP3;

impl TrackFormat for FLAC {
    open spec fn spec_get(&self, md: Seq<(String, String)>, item: MetadataKey) -> Option<
        MetadataValue,
    > {
        match item {
            MetadataKey::Album => match flac_find(md, item) {
                Some(v) => Some(MetadataValue::Album(v)),
                None => None,
            },
            MetadataKey::Artist => match flac_find(md, item) {
                Some(v) => Some(MetadataValue::Artist(v)),
                None => None,
            },
            MetadataKey::Disc => match parsed_u8(flac_find(md, item)) {
                Some(d) => Some(MetadataValue::Disc(d)),
                None => None,
            },
            MetadataKey::DiscCount => match parsed_u8(flac_find(md, item)) {
                Some(d) => Some(MetadataValue::DiscCount(d)),
                None => None,
            },
            MetadataKey::TrackTitle => match flac_find(md, item) {
                Some(v) => Some(MetadataValue::TrackTitle(v)),
                None => None,
            },
            MetadataKey::TrackNumber => match parsed_u16(flac_find(md, item)) {
                Some(t) => Some(MetadataValue::TrackNumber(t)),
                None => None,
            },
            MetadataKey::TrackCount => match parsed_u16(flac_find(md, item)) {
                Some(t) => Some(MetadataValue::TrackCount(t)),
                None => None,
            },
            MetadataKey::TrackLength => None,
        }
    }

    fn try_get_metadata(&self, md: &Vec<(String, String)>, item: MetadataKey) -> (r: Option<
        MetadataValue,
    >) {
        let raw = flac_find_exec(md, item);
        match item {
            MetadataKey::Album => match raw {
                Some(v) => Some(MetadataValue::Album(v)),
                None => None,
            },
            MetadataKey::Artist => match raw {
                Some(v) => Some(MetadataValue::Artist(v)),
                None => None,
            },
            MetadataKey::Disc => match parse_u8_value(raw) {
                Some(d) => Some(MetadataValue::Disc(d)),
                None => None,
            },
            MetadataKey::DiscCount => match parse_u8_value(raw) {
                Some(d) => Some(MetadataValue::DiscCount(d)),
                None => None,
            },
            MetadataKey::TrackTitle => match raw {
                Some(v) => Some(MetadataValue::TrackTitle(v)),
                None => None,
            },
            MetadataKey::TrackNumber => match parse_u16_value(raw) {
                Some(t) => Some(MetadataValue::TrackNumber(t)),
                None => None,
            },
            MetadataKey::TrackCount => match parse_u16_value(raw) {
                Some(t) => Some(MetadataValue::TrackCount(t)),
                None => None,
            },
            MetadataKey::TrackLength => None,
        }
    }
}

impl TrackFormat for MP3 {
    open spec fn spec_get(&self, md: Seq<(String, String)>, item: MetadataKey) -> Option<
        MetadataValue,
    > {
        match item {
            MetadataKey::Album => match mp3_find(md, item) {
                Some(v) => Some(MetadataValue::Album(v)),
                None => None,
            },
            MetadataKey::Artist => match mp3_find(md, item) {
                Some(v) => Some(MetadataValue::Artist(v)),
                None => None,
            },
            MetadataKey::Disc => match parsed_u8(mp3_find(md, item)) {
                Some(d) => Some(MetadataValue::Disc(d)),
                None => None,
            },
            MetadataKey::DiscCount => match parsed_u8(mp3_find(md, item)) {
                Some(d) => Some(MetadataValue::DiscCount(d)),
                None => None,
            },
            MetadataKey::TrackTitle => match mp3_find(md, item) {
                Some(v) => Some(MetadataValue::TrackTitle(v)),
                None => None,
            },
            MetadataKey::TrackNumber => match parsed_u16(mp3_find(md, item)) {
                Some(t) => Some(MetadataValue::TrackNumber(t)),
                None => None,
            },
            MetadataKey::TrackCount => match parsed_u16(mp3_find(md, item)) {
                Some(t) => Some(MetadataValue::TrackCount(t)),
                None => None,
            },
            MetadataKey::TrackLength => None,
        }
    }

    fn try_get_metadata(&self, md: &Vec<(String, String)>, item: MetadataKey) -> (r: Option<
        MetadataValue,
    >) {
        let raw = mp3_find_exec(md, item);
        match item {
            MetadataKey::Album => match raw {
                Some(v) => Some(MetadataValue::Album(v)),
                None => None,
            },
            MetadataKey::Artist => match raw {
                Some(v) => Some(MetadataValue::Artist(v)),
                None => None,
            },
            MetadataKey::Disc => match parse_u8_value(raw) {
                Some(d) => Some(MetadataValue::Disc(d)),
                None => None,
            },
            MetadataKey::DiscCount => match parse_u8_value(raw) {
                Some(d) => Some(MetadataValue::DiscCount(d)),
                None => None,
            },
            MetadataKey::TrackTitle => match raw {
                Some(v) => Some(MetadataValue::TrackTitle(v)),
                None => None,
            },
            MetadataKey::TrackNumber => match parse_u16_value(raw) {
                Some(t) => Some(MetadataValue::TrackNumber(t)),
                None => None,
            },
            MetadataKey::TrackCount => match parse_u16_value(raw) {
                Some(t) => Some(MetadataValue::TrackCount(t)),
                None => None,
            },
            MetadataKey::TrackLength => None,
        }
    }
}

/// The inferred origin of a source track: a physical CD or a digital
/// release. Absence of a hint stands for "unknown".
#[derive(Clone, Copy, PartialEq, Eq, Structural, Debug)]
pub enum MediaFormat {
    CD,
    Digital,
}

/// The canonical shape of local tag metadata: one optional value per slot.
pub struct TrackMetadata {
    pub album: Option<MetadataValue>,
    pub artist: Option<MetadataValue>,
    pub disc: Option<MetadataValue>,
    pub disc_count: Option<MetadataValue>,
    pub track_title: Option<MetadataValue>,
    pub track_number: Option<MetadataValue>,
    pub track_count: Option<MetadataValue>,
    pub track_length: Option<MetadataValue>,
}

impl TrackMetadata {
    /// The text fields that enter the similarity metric are short enough
    /// for machine arithmetic.
    pub open spec fn wf(self) -> bool {
        &&& match self.album {
            Some(MetadataValue::Album(s)) => crate::entities::text_fits(s@),
            _ => true,
        }
        &&& match self.artist {
            Some(MetadataValue::Artist(s)) => crate::entities::text_fits(s@),
            _ => true,
        }
        &&& match self.track_title {
            Some(MetadataValue::TrackTitle(s)) => crate::entities::text_fits(s@),
            _ => true,
        }
    }

    /// Fills every canonical slot from raw key-value metadata through the
    /// given tag dialect.
    pub fn from_raw_metadata<F: TrackFormat>(md: &Vec<(String, String)>, f: &F) -> (t:
        TrackMetadata)
        ensures
            t.album == f.spec_get(md@, MetadataKey::Album),
            t.artist == f.spec_get(md@, MetadataKey::Artist),
            t.disc == f.spec_get(md@, MetadataKey::Disc),
            t.disc_count == f.spec_get(md@, MetadataKey::DiscCount),
            t.track_title == f.spec_get(md@, MetadataKey::TrackTitle),
            t.track_number == f.spec_get(md@, MetadataKey::TrackNumber),
            t.track_count == f.spec_get(md@, MetadataKey::TrackCount),
            t.track_length == f.spec_get(md@, MetadataKey::TrackLength),
    {
        TrackMetadata {
            album: f.try_get_metadata(md, MetadataKey::Album),
            artist: f.try_get_metadata(md, MetadataKey::Artist),
            disc: f.try_get_metadata(md, MetadataKey::Disc),
            disc_count: f.try_get_metadata(md, MetadataKey::DiscCount),
            track_title: f.try_get_metadata(md, MetadataKey::TrackTitle),
            track_number: f.try_get_metadata(md, MetadataKey::TrackNumber),
            track_count: f.try_get_metadata(md, MetadataKey::TrackCount),
            track_length: f.try_get_metadata(md, MetadataKey::TrackLength),
        }
    }

    /// A disc-number or disc-count tag is present: the track likely came
    /// from physical media.
    pub fn guess_is_cd(&self) -> (r: bool)
        ensures
            r == (self.disc is Some || self.disc_count is Some),
    {
        self.disc.is_some() || self.disc_count.is_some()
    }

    /// Classifies the source medium: a bracketed `CD`/`WEB` tag in the
    /// parent directory name wins; otherwise a present disc tag means CD;
    /// otherwise the origin stays unknown.
    pub fn guess_media_format(&self, parent_dir: &str) -> (r: Option<MediaFormat>)
        ensures
            r == spec_media_format(*self, parent_dir@),
    {
        let cs = crate::text::chars_vec(parent_dir);
        let n = cs.len();
        let mut i: usize = 1;
        while i < n
            invariant
                cs@ == parent_dir@,
                n == parent_dir@.len(),
                1 <= i <= n || (n == 0 && i == 1),
                first_media_tag_from(parent_dir@, 1) == first_media_tag_from(
                    parent_dir@,
                    i as int,
                ),
            decreases n - i,
        {
            match media_tag_at_exec(&cs, i) {
                Some(f) => {
                    return Some(f);
                },
                None => {
                },
            }
            i = i + 1;
        }
        if self.disc.is_some() || self.disc_count.is_some() {
            Some(MediaFormat::CD)
        } else {
            None
        }
    }
}

/// A code point allowed inside a bracketed media tag after the keyword:
/// blank, digit, capital letter or hyphen.
pub open spec fn tag_body_char(c: char) -> bool {
    is_ws(c) || is_digit(c) || (65 <= c as u32 <= 90) || c == '-'
}

fn tag_body_char_exec(c: char) -> (r: bool)
    ensures
        r == tag_body_char(c),
{
    let cu = c as u32;
    crate::text::is_ws_char(c) || crate::text::is_digit_char(c) || (65 <= cu && cu <= 90) || c
        == '-'
}

/// The first index at or after `from` whose code point may not stand in a
/// media-tag body, or the length of `s`.
pub open spec fn tag_body_end(s: Seq<char>, from: int) -> int
    decreases s.len() - from,
{
    if from >= s.len() {
        s.len() as int
    } else if tag_body_char(s[from]) {
        tag_body_end(s, from + 1)
    } else {
        from
    }
}

fn tag_body_end_exec(cs: &Vec<char>, from: usize) -> (r: usize)
    requires
        from <= cs@.len(),
    ensures
        r as int == tag_body_end(cs@, from as int),
        from <= r <= cs@.len(),
{
    let n = cs.len();
    let mut k = from;
    while k < n
        invariant
            n == cs@.len(),
            from <= k <= n,
            tag_body_end(cs@, from as int) == tag_body_end(cs@, k as int),
        decreases n - k,
    {
        if !tag_body_char_exec(cs[k]) {
            return k;
        }
        k = k + 1;
    }
    k
}

/// The media keyword standing at `i`: `CD`, or `WEB` (which maps to a
/// digital origin). Yields the keyword's meaning and length.
pub open spec fn media_keyword_at(s: Seq<char>, i: int) -> Option<(MediaFormat, int)> {
    if i + 2 <= s.len() && s[i] == 'C' && s[i + 1] == 'D' {
        Some((MediaFormat::CD, 2))
    } else if i + 3 <= s.len() && s[i] == 'W' && s[i + 1] == 'E' && s[i + 2] == 'B' {
        Some((MediaFormat::Digital, 3))
    } else {
        None
    }
}

/// A bracketed media tag stands at `i`: the opener, the keyword, body code
/// points, then the matching closer.
pub open spec fn media_bracket_at(s: Seq<char>, i: int, open: char, close: char) -> Option<
    MediaFormat,
> {
    if !(0 <= i && i < s.len() && s[i] == open) {
        None
    } else {
        match media_keyword_at(s, i + 1) {
            Some((f, kl)) => {
                let e = tag_body_end(s, i + 1 + kl);
                if e < s.len() && s[e] == close {
                    Some(f)
                } else {
                    None
                }
            },
            None => None,
        }
    }
}

/// A media tag in square brackets or parentheses stands at `i`.
pub open spec fn media_tag_at(s: Seq<char>, i: int) -> Option<MediaFormat> {
    if media_bracket_at(s, i, '[', ']') is Some {
        media_bracket_at(s, i, '[', ']')
    } else {
        media_bracket_at(s, i, '(', ')')
    }
}

/// The first media tag at or after `i`.
pub open spec fn first_media_tag_from(s: Seq<char>, i: int) -> Option<MediaFormat>
    decreases s.len() - i,
{
    if i >= s.len() {
        None
    } else {
        match media_tag_at(s, i) {
            Some(f) => Some(f),
            None => first_media_tag_from(s, i + 1),
        }
    }
}

/// What the media-format classifier yields for the given metadata and
/// parent directory name: the first bracketed tag after at least one
/// leading code point, else CD when a disc tag is present, else nothing.
pub open spec fn spec_media_format(md: TrackMetadata, dir: Seq<char>) -> Option<MediaFormat> {
    match first_media_tag_from(dir, 1) {
        Some(f) => Some(f),
        None => if md.disc is Some || md.disc_count is Some {
            Some(MediaFormat::CD)
        } else {
            None
        },
    }
}

#[verifier::loop_isolation(false)]
fn media_bracket_at_exec(cs: &Vec<char>, i: usize, open: char, close: char) -> (r: Option<
    MediaFormat,
>)
    requires
        i < cs@.len(),
    ensures
        r == media_bracket_at(cs@, i as int, open, close),
{
    let n = cs.len();
    if cs[i] != open {
        return None;
    }
    let kw = if n - i >= 3 && cs[i + 1] == 'C' && cs[i + 2] == 'D' {
        Some((MediaFormat::CD, 2usize))
    } else if n - i >= 4 && cs[i + 1] == 'W' && cs[i + 2] == 'E' && cs[i + 3] == 'B' {
        Some((MediaFormat::Digital, 3usize))
    } else {
        None
    };
    match kw {
        Some((f, kl)) => {
            assert(media_keyword_at(cs@, i + 1) == Some((f, kl as int)));
            let e = tag_body_end_exec(cs, i + 1 + kl);
            if e < n && cs[e] == close {
                Some(f)
            } else {
                None
            }
        },
        None => {
            assert(media_keyword_at(cs@, i + 1) is None);
            None
        },
    }
}

fn media_tag_at_exec(cs: &Vec<char>, i: usize) -> (r: Option<MediaFormat>)
    requires
        i < cs@.len(),
    ensures
        r == media_tag_at(cs@, i as int),
{
    match media_bracket_at_exec(cs, i, '[', ']') {
        Some(f) => Some(f),
        None => media_bracket_at_exec(cs, i, '(', ')'),
    }
}

/// Whether a sibling file name carries one of the supported audio
/// extensions: the text after the last period, which must not be the
/// file name's first code point.
pub open spec fn last_dot(s: Seq<char>) -> int
    decreases s.len(),
{
    if s.len() == 0 {
        -1
    } else if s.last() == '.' {
        s.len() - 1
    } else {
        last_dot(s.drop_last())
    }
}

pub open spec fn is_audio_name(s: Seq<char>) -> bool {
    let d = last_dot(s);
    d >= 1 && (s.subrange(d + 1, s.len() as int) == "flac"@ || s.subrange(d + 1, s.len() as int)
        == "mp3"@)
}

proof fn lemma_last_dot_bounds(s: Seq<char>)
    ensures
        -1 <= last_dot(s) < s.len(),
        last_dot(s) >= 0 ==> s[last_dot(s)] == '.',
        forall|k: int| last_dot(s) < k < s.len() ==> s[k] != '.',
    decreases s.len(),
{
    if s.len() > 0 && s.last() != '.' {
        lemma_last_dot_bounds(s.drop_last());
        assert forall|k: int| last_dot(s) < k < s.len() implies s[k] != '.' by {
            if k < s.len() - 1 {
                assert(s.drop_last()[k] == s[k]);
            }
        }
    }
}

#[verifier::loop_isolation(false)]
fn is_audio_name_exec(name: &str) -> (r: bool)
    ensures
        r == is_audio_name(name@),
{
    let cs = crate::text::chars_vec(name);
    let n = cs.len();
    proof {
        lemma_last_dot_bounds(name@);
    }
    let mut k = n;
    proof {
        assert(name@.subrange(0, n as int) =~= name@);
    }
    while k > 0
        invariant
            0 <= k <= n,
            last_dot(name@) == last_dot(name@.subrange(0, k as int)),
        decreases k,
    {
        proof {
            assert(name@.subrange(0, k as int).drop_last() =~= name@.subrange(0, k - 1));
        }
        if cs[k - 1] == '.' {
            proof {
                assert(name@.subrange(0, k as int).last() == name@[k - 1]);
                assert(last_dot(name@) == k - 1);
            }
            let d = k - 1;
            if d < 1 {
                return false;
            }
            let ext_len = n - d - 1;
            let ghost ext = name@.subrange(d + 1, n as int);
            proof {
                reveal_strlit("flac");
                reveal_strlit("mp3");
                assert(ext.len() == ext_len);
                assert("flac"@.len() == 4 && "mp3"@.len() == 3);
            }
            if ext_len == 4 {
                let hit = cs[d + 1] == 'f' && cs[d + 2] == 'l' && cs[d + 3] == 'a' && cs[d + 4]
                    == 'c';
                proof {
                    assert(ext[0] == name@[d + 1] && ext[1] == name@[d + 2] && ext[2] == name@[d
                        + 3] && ext[3] == name@[d + 4]);
                    assert("flac"@[0] == 'f' && "flac"@[1] == 'l' && "flac"@[2] == 'a' && "flac"@[3]
                        == 'c');
                    if hit {
                        assert(ext =~= "flac"@);
                    } else {
                        assert(ext != "flac"@);
                    }
                    assert(ext != "mp3"@);
                }
                return hit;
            }
            if ext_len == 3 {
                let hit = cs[d + 1] == 'm' && cs[d + 2] == 'p' && cs[d + 3] == '3';
                proof {
                    assert(ext[0] == name@[d + 1] && ext[1] == name@[d + 2] && ext[2] == name@[d
                        + 3]);
                    assert("mp3"@[0] == 'm' && "mp3"@[1] == 'p' && "mp3"@[2] == '3');
                    if hit {
                        assert(ext =~= "mp3"@);
                    } else {
                        assert(ext != "mp3"@);
                    }
                    assert(ext != "flac"@);
                }
                return hit;
            }
            proof {
                assert(ext != "flac"@ && ext != "mp3"@);
            }
            return false;
        }
        k = k - 1;
    }
    proof {
        assert(name@.subrange(0, 0) =~= Seq::<char>::empty());
        assert(last_dot(name@) == -1);
    }
    false
}

/// How many of the sibling file names carry a supported audio extension.
pub open spec fn audio_count(names: Seq<String>) -> nat
    decreases names.len(),
{
    if names.len() == 0 {
        0
    } else {
        audio_count(names.drop_last()) + if is_audio_name(names.last()@) {
            1nat
        } else {
            0nat
        }
    }
}

/// Estimates the total track count of a disc by counting sibling files
/// with a supported audio extension; nothing when the count overflows the
/// tag's range.
pub fn guess_track_count(file_names: &Vec<String>) -> (r: Option<u16>)
    ensures
        r == if audio_count(file_names@) <= 0xFFFF {
            Some(audio_count(file_names@) as u16)
        } else {
            None::<u16>
        },
{
    let n = file_names.len();
    let mut count: usize = 0;
    let mut i: usize = 0;
    while i < n
        invariant
            n == file_names@.len(),
            i <= n,
            count <= i,
            count == audio_count(file_names@.subrange(0, i as int)),
        decreases n - i,
    {
        proof {
            assert(file_names@.subrange(0, i + 1).drop_last() =~= file_names@.subrange(
                0,
                i as int,
            ));
            assert(file_names@.subrange(0, i + 1).last() == file_names@[i as int]);
        }
        if is_audio_name_exec(file_names[i].as_str()) {
            count = count + 1;
        }
        i = i + 1;
    }
    proof {
        assert(file_names@.subrange(0, n as int) =~= file_names@);
    }
    if count <= 0xFFFF {
        Some(count as u16)
    } else {
        None
    }
}

} // verus!
