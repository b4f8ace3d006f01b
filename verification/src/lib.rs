//! A fuzzy-matching engine that links locally scanned audio-tag metadata to
//! canonical entries of a remote music catalog.
//!
//! The heart of the crate is a Damerau-Levenshtein string metric measured
//! over Unicode code points ([`lev`]), used by a multi-signal scoring and
//! tie-break procedure that picks the best-matching recording, and within it
//! the best-matching release, from finite candidate lists ([`matching`]).
//! Around it stand the tag-dialect field extraction and media-format
//! classification ([`metadata`]), the catalog entity model ([`entities`]),
//! and the search-query builder ([`query`]).

pub mod entities;
pub mod lev;
pub mod matching;
pub mod metadata;
pub mod models;
pub mod query;
pub mod text;
