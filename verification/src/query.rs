//! The catalog search query built from local tag metadata: one field term
//! per present tag, joined with ` AND `. Album titles are stripped of
//! deluxe-edition tags and artist names of "(feat ...)" annotations before
//! escaping; escaping keeps letters, numbers and spaces and blanks
//! everything else.

use vstd::prelude::*;
use vstd::string::StringExecFns;
use crate::metadata::{MetadataValue, TrackMetadata};
use crate::text::{
    chars_vec, dec_chars_u64, dec_str, normalize_album_title, normalize_track_title, push_char,
    strip_deluxe, strip_feat,
};

verus! {

/// Whether a code point counts as a letter when queries are escaped.
pub uninterp spec fn letter_class(c: char) -> bool;

/// Whether a code point counts as a number when queries are escaped.
pub uninterp spec fn number_class(c: char) -> bool;

/// Relies on char::is_alphabetic: whether the code point has the Unicode
/// `Alphabetic` property, a function of the code point alone.
#[verifier::external_body]
fn char_is_letter(c: char) -> (r: bool)
    ensures
        r == letter_class(c),
{
    c.is_alphabetic()
}

/// Relies on char::is_numeric: whether the code point has a numeric
/// Unicode general category, a function of the code point alone.
#[verifier::external_body]
fn char_is_number(c: char) -> (r: bool)
    ensures
        r == number_class(c),
{
    c.is_numeric()
}

/// A code point that query escaping keeps: a letter, a number, or the
/// space.
pub open spec fn query_keeps(c: char) -> bool {
    letter_class(c) || number_class(c) || c == ' '
}

/// `s` with every code point that escaping does not keep replaced by a
/// space.
pub open spec fn escaped(s: Seq<char>) -> Seq<char> {
    s.map_values(
        |c: char|
            if query_keeps(c) {
                c
            } else {
                ' '
            },
    )
}

/// Replaces every code point that is neither letter, number nor space by
/// a space, so the text can stand in a catalog query.
pub fn escape_query(s: &str) -> (r: String)
    ensures
        r@ == escaped(s@),
{
    let cs = chars_vec(s);
    let n = cs.len();
    let mut out = String::new();
    let mut i: usize = 0;
    while i < n
        invariant
            cs@ == s@,
            n == s@.len(),
            i <= n,
            out@.len() == i,
            forall|k: int|
                0 <= k < i ==> out@[k] == (if query_keeps(s@[k]) {
                    s@[k]
                } else {
                    ' '
                }),
        decreases n - i,
    {
        let c = cs[i];
        if char_is_letter(c) || char_is_number(c) || c == ' ' {
            push_char(&mut out, c);
        } else {
            push_char(&mut out, ' ');
        }
        i = i + 1;
    }
    proof {
        assert(out@ =~= escaped(s@));
    }
    out
}

/// Every code point of `s` is a space.
pub open spec fn all_blank(s: Seq<char>) -> bool {
    forall|k: int| 0 <= k < s.len() ==> s[k] == ' '
}

fn is_all_blank(s: &str) -> (r: bool)
    ensures
        r == all_blank(s@),
{
    let cs = chars_vec(s);
    let n = cs.len();
    let mut i: usize = 0;
    while i < n
        invariant
            cs@ == s@,
            n == s@.len(),
            i <= n,
            forall|k: int| 0 <= k < i ==> s@[k] == ' ',
        decreases n - i,
    {
        if cs[i] != ' ' {
            assert(s@[i as int] != ' ');
            return false;
        }
        i = i + 1;
    }
    true
}

/// The query term that one canonical tag value contributes, if any: disc
/// tags contribute none, and a track title whose escaped text is all
/// blank is left out.
pub open spec fn term_of(v: MetadataValue) -> Option<Seq<char>> {
    match v {
        MetadataValue::Album(a) => Some("release:"@ + escaped(strip_deluxe(a@))),
        MetadataValue::Artist(a) => Some(
            "(artist:"@ + escaped(strip_feat(a@)) + " OR artistname:"@ + escaped(strip_feat(a@))
                + " OR creditname:"@ + escaped(strip_feat(a@)) + ")"@,
        ),
        MetadataValue::TrackTitle(t) => if all_blank(escaped(t@)) {
            None
        } else {
            Some("(recording:"@ + escaped(t@) + " OR recordingaccent:"@ + escaped(t@) + ")"@)
        },
        MetadataValue::TrackNumber(n) => Some("tnum:"@ + dec_str(n as nat)),
        MetadataValue::TrackCount(c) => Some(
            "(tracks:"@ + dec_str(c as nat) + " OR tracksrelease:"@ + dec_str(c as nat) + ")"@,
        ),
        MetadataValue::TrackLength(l) => Some("dur:"@ + dec_str(l as nat * 1000)),
        MetadataValue::Disc(_) => None,
        MetadataValue::DiscCount(_) => None,
    }
}

/// The terms that one optional slot contributes: none or one.
pub open spec fn slot_terms(o: Option<MetadataValue>) -> Seq<Seq<char>> {
    match o {
        Some(v) => match term_of(v) {
            Some(p) => seq![p],
            None => Seq::empty(),
        },
        None => Seq::empty(),
    }
}

/// All query terms of the metadata, in slot order: album, artist, track
/// title, track number, track count, track length.
pub open spec fn query_terms(md: TrackMetadata) -> Seq<Seq<char>> {
    slot_terms(md.album) + slot_terms(md.artist) + slot_terms(md.track_title) + slot_terms(
        md.track_number,
    ) + slot_terms(md.track_count) + slot_terms(md.track_length)
}

/// The terms joined with ` AND `.
pub open spec fn join_and(parts: Seq<Seq<char>>) -> Seq<char>
    decreases parts.len(),
{
    if parts.len() == 0 {
        Seq::empty()
    } else if parts.len() == 1 {
        parts[0]
    } else {
        join_and(parts.drop_last()) + " AND "@ + parts.last()
    }
}

/// The whole search query for the metadata.
pub open spec fn spec_query(md: TrackMetadata) -> Seq<char> {
    join_and(query_terms(md))
}

fn append_chars(s: &mut String, v: &Vec<char>)
    ensures
        final(s)@ == old(s)@ + v@,
{
    let n = v.len();
    let mut i: usize = 0;
    proof {
        assert(s@ + v@.subrange(0, 0) =~= s@);
    }
    while i < n
        invariant
            n == v@.len(),
            i <= n,
            s@ == old(s)@ + v@.subrange(0, i as int),
        decreases n - i,
    {
        push_char(s, v[i]);
        proof {
            assert(old(s)@ + v@.subrange(0, i + 1) =~= (old(s)@ + v@.subrange(0, i as int)).push(
                v@[i as int],
            ));
        }
        i = i + 1;
    }
    proof {
        assert(v@.subrange(0, n as int) =~= v@);
    }
}

fn term_exec(v: &MetadataValue) -> (r: Option<String>)
    ensures
        r is Some <==> term_of(*v) is Some,
        r matches Some(p) ==> term_of(*v) == Some(p@),
{
    match v {
        MetadataValue::Album(a) => {
            let na = normalize_album_title(a.as_str());
            let e = escape_query(na.as_str());
            let mut out = String::new();
            out.append("release:");
            out.append(e.as_str());
            proof {
                assert(out@ =~= "release:"@ + escaped(strip_deluxe(a@)));
            }
            Some(out)
        },
        MetadataValue::Artist(a) => {
            let na = normalize_track_title(a.as_str());
            let e = escape_query(na.as_str());
            let mut out = String::new();
            out.append("(artist:");
            out.append(e.as_str());
            out.append(" OR artistname:");
            out.append(e.as_str());
            out.append(" OR creditname:");
            out.append(e.as_str());
            out.append(")");
            proof {
                assert(out@ =~= "(artist:"@ + escaped(strip_feat(a@)) + " OR artistname:"@
                    + escaped(strip_feat(a@)) + " OR creditname:"@ + escaped(strip_feat(a@))
                    + ")"@);
            }
            Some(out)
        },
        MetadataValue::TrackTitle(t) => {
            let e = escape_query(t.as_str());
            if is_all_blank(e.as_str()) {
                None
            } else {
                let mut out = String::new();
                out.append("(recording:");
                out.append(e.as_str());
                out.append(" OR recordingaccent:");
                out.append(e.as_str());
                out.append(")");
                proof {
                    assert(out@ =~= "(recording:"@ + escaped(t@) + " OR recordingaccent:"@
                        + escaped(t@) + ")"@);
                }
                Some(out)
            }
        },
        MetadataValue::TrackNumber(n) => {
            let ds = dec_chars_u64(*n as u64);
            let mut out = String::new();
            out.append("tnum:");
            append_chars(&mut out, &ds);
            proof {
                assert(out@ =~= "tnum:"@ + dec_str(*n as nat));
            }
            Some(out)
        },
        MetadataValue::TrackCount(c) => {
            let ds = dec_chars_u64(*c as u64);
            let mut out = String::new();
            out.append("(tracks:");
            append_chars(&mut out, &ds);
            out.append(" OR tracksrelease:");
            append_chars(&mut out, &ds);
            out.append(")");
            proof {
                assert(out@ =~= "(tracks:"@ + dec_str(*c as nat) + " OR tracksrelease:"@ + dec_str(
                    *c as nat,
                ) + ")"@);
            }
            Some(out)
        },
        MetadataValue::TrackLength(l) => {
            let ms = (*l as u64) * 1000;
            let ds = dec_chars_u64(ms);
            let mut out = String::new();
            out.append("dur:");
            append_chars(&mut out, &ds);
            proof {
                assert(out@ =~= "dur:"@ + dec_str(*l as nat * 1000));
            }
            Some(out)
        },
        MetadataValue::Disc(_) => None,
        MetadataValue::DiscCount(_) => None,
    }
}

/// The views of a vector of strings.
pub open spec fn views_of(ss: Seq<String>) -> Seq<Seq<char>> {
    ss.map_values(|s: String| s@)
}

fn push_slot(parts: &mut Vec<String>, o: &Option<MetadataValue>)
    ensures
        views_of(final(parts)@) == views_of(old(parts)@) + slot_terms(*o),
{
    match o {
        Some(v) => {
            match term_exec(v) {
                Some(p) => {
                    let ghost before = parts@;
                    parts.push(p);
                    proof {
                        assert(views_of(parts@) =~= views_of(before) + slot_terms(*o));
                    }
                },
                None => {
                    proof {
                        assert(views_of(parts@) =~= views_of(parts@) + slot_terms(*o));
                    }
                },
            }
        },
        None => {
            proof {
                assert(views_of(parts@) =~= views_of(parts@) + slot_terms(*o));
            }
        },
    }
}

/// Builds the catalog search query from the metadata: one term per
/// present tag, in slot order, joined with ` AND `.
pub fn build_query_from_track(md: &TrackMetadata) -> (q: String)
    ensures
        q@ == spec_query(*md),
{
    let mut parts: Vec<String> = Vec::new();
    proof {
        assert(views_of(parts@) =~= Seq::<Seq<char>>::empty());
    }
    push_slot(&mut parts, &md.album);
    push_slot(&mut parts, &md.artist);
    push_slot(&mut parts, &md.track_title);
    push_slot(&mut parts, &md.track_number);
    push_slot(&mut parts, &md.track_count);
    push_slot(&mut parts, &md.track_length);
    let ghost gparts = query_terms(*md);
    proof {
        assert(views_of(parts@) =~= gparts);
    }

    let m = parts.len();
    let mut out = String::new();
    let mut idx: usize = 0;
    proof {
        assert(join_and(gparts.subrange(0, 0)) =~= Seq::<char>::empty());
    }
    while idx < m
        invariant
            m == parts@.len(),
            gparts == views_of(parts@),
            gparts.len() == m,
            idx <= m,
            out@ == join_and(gparts.subrange(0, idx as int)),
        decreases m - idx,
    {
        if idx > 0 {
            out.append(" AND ");
        }
        out.append(parts[idx].as_str());
        proof {
            assert(gparts[idx as int] == parts@[idx as int]@);
            assert(gparts.subrange(0, idx + 1).drop_last() =~= gparts.subrange(0, idx as int));
            assert(gparts.subrange(0, idx + 1).last() == gparts[idx as int]);
            if idx == 0 {
                assert(out@ =~= join_and(gparts.subrange(0, 1)));
            }
        }
        idx = idx + 1;
    }
    proof {
        assert(gparts.subrange(0, m as int) =~= gparts);
    }
    out
}

} // verus!
