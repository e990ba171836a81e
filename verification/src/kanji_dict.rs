//! The dictionary source's entry structure: one `Character` per kanji, with
//! its code points, radical values, miscellaneous numbers, and an optional
//! reading/meaning block. Readings are tagged by kind (`ja_on`, `ja_kun`,
//! pinyin, ...) and meanings by language, `"en"` when the source leaves the
//! tag off.

use vstd::prelude::*;

verus! {

#[derive(Debug)]
pub struct CpValue {
    pub cp_type: String,
    pub value: String,
}

#[derive(Debug)]
pub struct CodePoint {
    pub cp_value: Vec<CpValue>,
}

#[derive(Debug)]
pub struct RadValue {
    pub rad_type: String,
    pub value: String,
}

#[derive(Debug)]
pub struct Radical {
    pub rad_value: Vec<RadValue>,
}

#[derive(Debug)]
pub struct Misc {
    pub grade: Option<u32>,
    pub stroke_count: Vec<u32>,
    pub freq: Option<u32>,
    pub jlpt: Option<u32>,
}

#[derive(Debug)]
pub struct Reading {
    /// The reading kind; the ones this library keeps are `ja_on` and `ja_kun`.
    pub r_type: String,
    pub value: String,
}

/// The language tag a meaning carries when the source gives none.
pub fn default_m_lang() -> (r: String)
    ensures
        r@ == "en"@,
{
    String::from_str("en")
}

#[derive(Debug)]
pub struct Meaning {
    pub m_lang: String,
    pub value: String,
}

#[derive(Debug)]
pub struct RmGroup {
    pub reading: Option<Vec<Reading>>,
    pub meaning: Option<Vec<Meaning>>,
}

#[derive(Debug)]
pub struct ReadingMeaning {
    pub rmgroup: RmGroup,
}

#[derive(Debug)]
pub struct Character {
    pub literal: char,
    pub codepoint: CodePoint,
    pub radical: Radical,
    pub misc: Misc,
    pub reading_meaning: Option<ReadingMeaning>,
}

#[derive(Debug)]
pub struct KanjiDictionary {
    pub character: Vec<Character>,
}

} // verus!
