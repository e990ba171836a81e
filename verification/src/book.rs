//! The user's progress list: one entry per character with a confidence
//! level, keyed by the character.

use vstd::prelude::*;

use crate::char_map::CharKeyMap;

verus! {

/// One entry of the progress list.
#[derive(Debug, Clone, Copy, PartialEq, Eq, Structural)]
pub struct Entry {
    pub kanji: char,
    pub confidence_level: i32,
}

impl View for Entry {
    type V = Entry;

    open spec fn view(&self) -> Entry {
        *self
    }
}

/// The progress list itself.
#[derive(Debug)]
pub struct Book {
    pub kanjis: CharKeyMap<Entry>,
}

impl Book {
    pub fn new(kanjis: CharKeyMap<Entry>) -> (r: Self)
        ensures
            r.kanjis == kanjis,
    {
        Book { kanjis }
    }

    /// Records an entry under its character, replacing any earlier one.
    pub fn add(&mut self, entry: Entry)
        requires
            old(self).kanjis.wf(),
        ensures
            final(self).kanjis.wf(),
            final(self).kanjis@ == old(self).kanjis@.insert(entry.kanji, entry),
    {
        self.kanjis.insert(entry.kanji, entry);
    }
}

} // verus!
