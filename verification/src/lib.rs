//! A kanji study library: it parses a reading/meaning dictionary and a
//! stroke-geometry atlas, joins the two by character, and renders a
//! character's strokes as a numbered, color-coded vector diagram.

pub mod kanji_dict;
pub mod kanjivg_parser;
pub mod kanji_strokes;
pub mod char_map;
pub mod database;
pub mod book;

use vstd::prelude::*;

verus! {

/// The failures the pipeline can report while building or rendering.
#[derive(Debug, PartialEq)]
pub enum DataError {
    /// A path description did not match the expected "move, then coordinates" shape.
    MalformedPath(String),
    /// A stroke-source identifier could not be stripped and parsed into a code point.
    MalformedIdentifier(String),
    /// A character has more strokes than the color palette has entries.
    PaletteExhausted,
}

/// What the stroke-store builder does with an entry whose identifier is
/// malformed: abort the whole build (the default), or skip the entry and
/// report its raw identifier.
#[derive(Debug, Clone, Copy, PartialEq, Eq, Structural)]
pub enum MalformedEntryPolicy {
    Abort,
    SkipAndReport,
}

} // verus!
