//! The normalized per-character record, the builder that normalizes parsed
//! dictionary entries, and the joined store with its search.
//!
//! Search semantics are asymmetric on purpose: a literal matches when it is
//! contained anywhere in the query (the user may type a whole sentence), a
//! meaning matches when it equals the query (the user names the meaning).

use vstd::prelude::*;

use crate::char_map::CharKeyMap;
use crate::kanji_dict::{Character, KanjiDictionary, Meaning, Reading};
use crate::kanji_strokes::KanjiDrawRecipe;

verus! {

/// One normalized dictionary record: the literal with its kept readings and
/// meanings. The literal is present even when the lists are empty.
#[derive(Debug)]
pub struct Kanji {
    pub on_readings: Vec<String>,
    pub kun_readings: Vec<String>,
    pub meaning: Vec<String>,
    pub literal: char,
}

/// The abstract value of a record.
pub struct KanjiRecordView {
    pub on_readings: Seq<String>,
    pub kun_readings: Seq<String>,
    pub meaning: Seq<String>,
    pub literal: char,
}

impl View for Kanji {
    type V = KanjiRecordView;

    open spec fn view(&self) -> KanjiRecordView {
        KanjiRecordView {
            on_readings: self.on_readings@,
            kun_readings: self.kun_readings@,
            meaning: self.meaning@,
            literal: self.literal,
        }
    }
}

/// Clones a string list, keeping every element's value.
fn clone_strings(v: &Vec<String>) -> (r: Vec<String>)
    ensures
        r@ == v@,
{
    let mut r: Vec<String> = Vec::new();
    let mut i: usize = 0;
    while i < v.len()
        invariant
            0 <= i <= v@.len(),
            r@ =~= v@.subrange(0, i as int),
        decreases v@.len() - i,
    {
        r.push(v[i].clone());
        proof {
            assert(r@ =~= v@.subrange(0, i + 1));
        }
        i += 1;
    }
    proof {
        assert(r@ =~= v@);
    }
    r
}

impl Clone for Kanji {
    fn clone(&self) -> (r: Self)
        ensures
            r@ == self@,
    {
        Kanji {
            on_readings: clone_strings(&self.on_readings),
            kun_readings: clone_strings(&self.kun_readings),
            meaning: clone_strings(&self.meaning),
            literal: self.literal,
        }
    }
}

/// Whether two strings hold the same characters.
fn str_eq(a: &str, b: &str) -> (r: bool)
    ensures
        r == (a@ == b@),
{
    let n = a.unicode_len();
    let m = b.unicode_len();
    if n != m {
        return false;
    }
    let mut i: usize = 0;
    while i < n
        invariant
            0 <= i <= n,
            n as int == a@.len(),
            n as int == b@.len(),
            forall|j: int| 0 <= j < i ==> a@[j] == b@[j],
        decreases n - i,
    {
        if a.get_char(i) != b.get_char(i) {
            return false;
        }
        i += 1;
    }
    proof {
        assert(a@ =~= b@);
    }
    true
}

/// The values of the readings of the given kind, in order.
pub open spec fn readings_of_kind(rs: Seq<Reading>, kind: Seq<char>) -> Seq<String>
    decreases rs.len(),
{
    if rs.len() == 0 {
        Seq::empty()
    } else {
        let pre = readings_of_kind(rs.drop_last(), kind);
        if rs.last().r_type@ == kind {
            pre.push(rs.last().value)
        } else {
            pre
        }
    }
}

/// The values of the English meanings, in order.
pub open spec fn english_meanings(ms: Seq<Meaning>) -> Seq<String>
    decreases ms.len(),
{
    if ms.len() == 0 {
        Seq::empty()
    } else {
        let pre = english_meanings(ms.drop_last());
        if ms.last().m_lang@ == "en"@ {
            pre.push(ms.last().value)
        } else {
            pre
        }
    }
}

/// The readings of a dictionary entry, empty when the block is absent.
pub open spec fn entry_readings(c: Character) -> Seq<Reading> {
    match c.reading_meaning {
        Some(rm) => match rm.rmgroup.reading {
            Some(rs) => rs@,
            None => Seq::empty(),
        },
        None => Seq::empty(),
    }
}

/// The meanings of a dictionary entry, empty when the block is absent.
pub open spec fn entry_meanings(c: Character) -> Seq<Meaning> {
    match c.reading_meaning {
        Some(rm) => match rm.rmgroup.meaning {
            Some(ms) => ms@,
            None => Seq::empty(),
        },
        None => Seq::empty(),
    }
}

/// The normalized record of one dictionary entry: only `ja_on` and `ja_kun`
/// readings and only English meanings are kept, every other kind and
/// language is dropped.
pub open spec fn record_view(c: Character) -> KanjiRecordView {
    KanjiRecordView {
        on_readings: readings_of_kind(entry_readings(c), "ja_on"@),
        kun_readings: readings_of_kind(entry_readings(c), "ja_kun"@),
        meaning: english_meanings(entry_meanings(c)),
        literal: c.literal,
    }
}

/// Normalizes every parsed dictionary entry into a record, in order.
pub fn convert_parsed_to_kanji_vec(kanji_dictionary: &KanjiDictionary) -> (r: Vec<Kanji>)
    ensures
        r@.len() == kanji_dictionary.character@.len(),
        forall|i: int|
            0 <= i < r@.len() ==> #[trigger] r@[i]@ == record_view(
                kanji_dictionary.character@[i],
            ),
{
    let ghost cs = kanji_dictionary.character@;
    let mut kanji_vec: Vec<Kanji> = Vec::new();
    let mut i: usize = 0;
    while i < kanji_dictionary.character.len()
        invariant
            0 <= i <= cs.len(),
            cs == kanji_dictionary.character@,
            kanji_vec@.len() == i,
            forall|t: int| 0 <= t < i ==> #[trigger] kanji_vec@[t]@ == record_view(cs[t]),
        decreases cs.len() - i,
    {
        let c = &kanji_dictionary.character[i];
        let mut reading_on: Vec<String> = Vec::new();
        let mut reading_kun: Vec<String> = Vec::new();
        let mut meaning: Vec<String> = Vec::new();
        if let Some(reading_meaning) = &c.reading_meaning {
            if let Some(reading) = &reading_meaning.rmgroup.reading {
                let mut j: usize = 0;
                while j < reading.len()
                    invariant
                        0 <= j <= reading@.len(),
                        reading_on@ =~= readings_of_kind(reading@.subrange(0, j as int), "ja_on"@),
                        reading_kun@ =~= readings_of_kind(
                            reading@.subrange(0, j as int),
                            "ja_kun"@,
                        ),
                    decreases reading@.len() - j,
                {
                    proof {
                        reveal_strlit("ja_on");
                        reveal_strlit("ja_kun");
                        assert("ja_on"@.len() == 5);
                        assert("ja_kun"@.len() == 6);
                        assert("ja_on"@ != "ja_kun"@);
                        assert(reading@.subrange(0, j + 1).drop_last() =~= reading@.subrange(
                            0,
                            j as int,
                        ));
                        assert(reading@.subrange(0, j + 1).last() == reading@[j as int]);
                    }
                    let rd = &reading[j];
                    if str_eq(rd.r_type.as_str(), "ja_on") {
                        reading_on.push(rd.value.clone());
                    } else if str_eq(rd.r_type.as_str(), "ja_kun") {
                        reading_kun.push(rd.value.clone());
                    }
                    j += 1;
                }
                proof {
                    assert(reading@.subrange(0, reading@.len() as int) =~= reading@);
                }
            }
            if let Some(meaning_dict) = &reading_meaning.rmgroup.meaning {
                let mut j: usize = 0;
                while j < meaning_dict.len()
                    invariant
                        0 <= j <= meaning_dict@.len(),
                        meaning@ =~= english_meanings(meaning_dict@.subrange(0, j as int)),
                    decreases meaning_dict@.len() - j,
                {
                    proof {
                        assert(meaning_dict@.subrange(0, j + 1).drop_last() =~= meaning_dict@
                            .subrange(0, j as int));
                        assert(meaning_dict@.subrange(0, j + 1).last() == meaning_dict@[j as int]);
                    }
                    let m = &meaning_dict[j];
                    if str_eq(m.m_lang.as_str(), "en") {
                        meaning.push(m.value.clone());
                    }
                    j += 1;
                }
                proof {
                    assert(meaning_dict@.subrange(0, meaning_dict@.len() as int) =~= meaning_dict@);
                }
            }
        }
        proof {
            assert(reading_on@ == readings_of_kind(entry_readings(cs[i as int]), "ja_on"@));
            assert(reading_kun@ == readings_of_kind(entry_readings(cs[i as int]), "ja_kun"@));
            assert(meaning@ == english_meanings(entry_meanings(cs[i as int])));
        }
        kanji_vec.push(
            Kanji {
                meaning,
                literal: c.literal,
                kun_readings: reading_kun,
                on_readings: reading_on,
            },
        );
        i += 1;
    }
    kanji_vec
}

/// Whether a record matches a query: the record's literal is contained in
/// the query, or one of its meanings equals the query.
pub open spec fn kanji_matches(k: KanjiRecordView, pattern: Seq<char>) -> bool {
    pattern.contains(k.literal) || exists|i: int|
        0 <= i < k.meaning.len() && #[trigger] k.meaning[i]@ == pattern
}

/// The records that match a query, in store order.
pub open spec fn find_matches(ks: Seq<Kanji>, pattern: Seq<char>) -> Seq<Kanji>
    decreases ks.len(),
{
    if ks.len() == 0 {
        Seq::empty()
    } else {
        let pre = find_matches(ks.drop_last(), pattern);
        if kanji_matches(ks.last()@, pattern) {
            pre.push(ks.last())
        } else {
            pre
        }
    }
}

/// Every matching record appears in the match list.
pub proof fn lemma_find_complete(ks: Seq<Kanji>, pattern: Seq<char>, i: int)
    requires
        0 <= i < ks.len(),
        kanji_matches(ks[i]@, pattern),
    ensures
        exists|j: int|
            0 <= j < find_matches(ks, pattern).len() && find_matches(ks, pattern)[j] == ks[i],
    decreases ks.len(),
{
    let r = find_matches(ks, pattern);
    let pre = find_matches(ks.drop_last(), pattern);
    if i == ks.len() - 1 {
        assert(r[r.len() - 1] == ks[i]);
    } else {
        assert(ks.drop_last()[i] == ks[i]);
        lemma_find_complete(ks.drop_last(), pattern, i);
        let j = choose|j: int| 0 <= j < pre.len() && pre[j] == ks.drop_last()[i];
        assert(r[j] == ks[i]);
    }
}

/// Everything in the match list matches and comes from the store.
pub proof fn lemma_find_sound(ks: Seq<Kanji>, pattern: Seq<char>)
    ensures
        forall|j: int|
            0 <= j < find_matches(ks, pattern).len() ==> #[trigger] kanji_matches(
                find_matches(ks, pattern)[j]@,
                pattern,
            ) && (exists|i: int| 0 <= i < ks.len() && ks[i] == find_matches(ks, pattern)[j]),
    decreases ks.len(),
{
    let r = find_matches(ks, pattern);
    if ks.len() > 0 {
        let dl = ks.drop_last();
        let pre = find_matches(dl, pattern);
        lemma_find_sound(dl, pattern);
        assert forall|j: int| 0 <= j < r.len() implies #[trigger] kanji_matches(r[j]@, pattern)
            && (exists|i: int| 0 <= i < ks.len() && ks[i] == r[j]) by {
            if j < pre.len() {
                assert(r[j] == pre[j]);
                assert(kanji_matches(find_matches(dl, pattern)[j]@, pattern));
                let i = choose|i: int| 0 <= i < dl.len() && dl[i] == find_matches(dl, pattern)[j];
                assert(dl[i] == ks[i]);
                assert(ks[i] == r[j]);
            } else {
                assert(r[j] == ks.last());
                assert(ks[ks.len() - 1] == r[j]);
            }
        }
    }
}

/// Whether the query holds the character anywhere.
fn contains_char(s: &str, c: char) -> (b: bool)
    ensures
        b == s@.contains(c),
{
    let n = s.unicode_len();
    let mut i: usize = 0;
    while i < n
        invariant
            0 <= i <= n,
            n as int == s@.len(),
            forall|j: int| 0 <= j < i ==> s@[j] != c,
        decreases n - i,
    {
        if s.get_char(i) == c {
            return true;
        }
        i += 1;
    }
    false
}

/// Whether some string in the list equals the query.
fn any_string_eq(ms: &Vec<String>, pattern: &str) -> (b: bool)
    ensures
        b == exists|i: int| 0 <= i < ms@.len() && #[trigger] ms@[i]@ == pattern@,
{
    let mut i: usize = 0;
    while i < ms.len()
        invariant
            0 <= i <= ms@.len(),
            forall|j: int| 0 <= j < i ==> #[trigger] ms@[j]@ != pattern@,
        decreases ms@.len() - i,
    {
        if str_eq(ms[i].as_str(), pattern) {
            return true;
        }
        i += 1;
    }
    false
}

/// The joined store: the normalized records and the stroke store, joined by
/// the literal character. A record with no stroke entry, and a stroke entry
/// with no record, are both expected, not errors.
#[derive(Debug)]
pub struct Database {
    pub kanjis: Vec<Kanji>,
    pub strokes: CharKeyMap<KanjiDrawRecipe>,
}

impl Database {
    /// Every record that matches the query, in store order, each paired with
    /// its draw recipe where the stroke store has one, and with nothing
    /// where it has none.
    pub fn find(&self, pattern: &str) -> (r: Vec<(Kanji, Option<KanjiDrawRecipe>)>)
        requires
            self.strokes.wf(),
        ensures
            r@.len() == find_matches(self.kanjis@, pattern@).len(),
            forall|j: int|
                0 <= j < r@.len() ==> {
                    let m = find_matches(self.kanjis@, pattern@)[j];
                    &&& (#[trigger] r@[j]).0@ == m@
                    &&& (r@[j].1 is Some <==> self.strokes@.contains_key(m.literal))
                    &&& (r@[j].1 is Some ==> r@[j].1->0@ == self.strokes@[m.literal])
                },
    {
        let ghost ks = self.kanjis@;
        let mut matching_kanjis: Vec<(Kanji, Option<KanjiDrawRecipe>)> = Vec::new();
        let mut i: usize = 0;
        while i < self.kanjis.len()
            invariant
                0 <= i <= ks.len(),
                ks == self.kanjis@,
                self.strokes.wf(),
                matching_kanjis@.len() == find_matches(ks.subrange(0, i as int), pattern@).len(),
                forall|j: int|
                    0 <= j < matching_kanjis@.len() ==> {
                        let m = find_matches(ks.subrange(0, i as int), pattern@)[j];
                        &&& (#[trigger] matching_kanjis@[j]).0@ == m@
                        &&& (matching_kanjis@[j].1 is Some <==> self.strokes@.contains_key(
                            m.literal,
                        ))
                        &&& (matching_kanjis@[j].1 is Some ==> matching_kanjis@[j].1->0@
                            == self.strokes@[m.literal])
                    },
            decreases ks.len() - i,
        {
            let ghost prefix = ks.subrange(0, i as int);
            let ghost prefix1 = ks.subrange(0, i + 1);
            proof {
                assert(prefix1.drop_last() =~= prefix);
                assert(prefix1.last() == ks[i as int]);
            }
            let k = &self.kanjis[i];
            let is_match = if contains_char(pattern, k.literal) {
                true
            } else {
                any_string_eq(&k.meaning, pattern)
            };
            proof {
                assert(k@.meaning == k.meaning@);
                assert(is_match == kanji_matches(k@, pattern@));
            }
            if is_match {
                let recipe = match self.strokes.get(k.literal) {
                    Some(rc) => Some(rc.clone()),
                    None => None,
                };
                matching_kanjis.push((k.clone(), recipe));
            }
            i += 1;
        }
        proof {
            assert(ks.subrange(0, ks.len() as int) =~= ks);
        }
        matching_kanjis
    }
}

/// Relies on String::push of std: it appends the one character.
#[verifier::external_body]
fn push_char(s: &mut String, c: char)
    ensures
        final(s)@ == old(s)@ + seq![c],
{
    s.push(c);
}

/// One string, wrapped in double quotes. Quotes or backslashes inside the
/// string are not escaped.
pub open spec fn quoted(s: String) -> Seq<char> {
    "\""@ + s@ + "\""@
}

/// The strings, each quoted, joined with commas.
pub open spec fn joined(ss: Seq<String>) -> Seq<char>
    decreases ss.len(),
{
    if ss.len() == 0 {
        Seq::empty()
    } else if ss.len() == 1 {
        quoted(ss[0])
    } else {
        joined(ss.drop_last()) + ", "@ + quoted(ss.last())
    }
}

/// The strings as a bracketed, comma-separated, quoted list.
pub open spec fn quoted_list(ss: Seq<String>) -> Seq<char> {
    "["@ + joined(ss) + "]"@
}

/// Appends the bracketed quoted list of `v` to `out`.
fn push_quoted_list(out: &mut String, v: &Vec<String>)
    ensures
        final(out)@ == old(out)@ + quoted_list(v@),
{
    let ghost base = out@;
    out.append("[");
    let mut i: usize = 0;
    while i < v.len()
        invariant
            0 <= i <= v@.len(),
            out@ == base + "["@ + joined(v@.subrange(0, i as int)),
        decreases v@.len() - i,
    {
        if i > 0 {
            out.append(", ");
        }
        out.append("\"");
        out.append(v[i].as_str());
        out.append("\"");
        proof {
            let p1 = v@.subrange(0, i + 1);
            assert(p1.drop_last() =~= v@.subrange(0, i as int));
            assert(p1.last() == v@[i as int]);
            if i == 0 {
                assert(p1[0] == v@[0]);
                assert(out@ =~= base + "["@ + joined(p1));
            } else {
                assert(out@ =~= base + "["@ + joined(p1));
            }
        }
        i += 1;
    }
    proof {
        assert(v@.subrange(0, v@.len() as int) =~= v@);
    }
    out.append("]");
    proof {
        assert(out@ =~= base + quoted_list(v@));
    }
}

/// The one-line rendering of a record: the literal, then its meanings and
/// readings as quoted lists.
pub open spec fn pretty_print_spec(k: KanjiRecordView) -> Seq<char> {
    "kanji: "@ + seq![k.literal] + ", meanings: "@ + quoted_list(k.meaning) + ", on_readings: "@
        + quoted_list(k.on_readings) + ", kun_readings: "@ + quoted_list(k.kun_readings)
}

impl Kanji {
    /// The record on one line, for listing search results.
    pub fn pretty_print(&self) -> (r: String)
        ensures
            r@ == pretty_print_spec(self@),
    {
        let mut out = String::from_str("kanji: ");
        push_char(&mut out, self.literal);
        out.append(", meanings: ");
        push_quoted_list(&mut out, &self.meaning);
        out.append(", on_readings: ");
        push_quoted_list(&mut out, &self.on_readings);
        out.append(", kun_readings: ");
        push_quoted_list(&mut out, &self.kun_readings);
        proof {
            assert(out@ =~= pretty_print_spec(self@));
        }
        out
    }
}

} // verus!
