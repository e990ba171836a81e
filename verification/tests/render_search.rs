use kanji_atlas::DataError;
use kanji_atlas::MalformedEntryPolicy;
use kanji_atlas::book::{Book, Entry};
use kanji_atlas::char_map::CharKeyMap;
use kanji_atlas::database::{Database, Kanji, convert_parsed_to_kanji_vec};
use kanji_atlas::kanji_strokes::{
    KanjiDrawRecipe, Strokes, color_table, kanjivg_into_strokes, kanjivg_into_strokes_with,
};
use kanji_atlas::kanji_dict::{
    Character, CodePoint, CpValue, KanjiDictionary, Meaning, Misc, RadValue, Radical, Reading,
    ReadingMeaning, RmGroup,
};
use kanji_atlas::kanjivg_parser::{Kanji as VgKanji, KanjiGroup, Kanjivg, Path};

fn path(d: &str) -> Path {
    Path { d: d.to_string() }
}

/// The stroke sample for 个 alone: two groups, the first with two paths, the
/// second with one.
fn sample_kanjivg() -> Kanjivg {
    let kanji = VgKanji {
        id: "kvg:kanji_04e2a".to_string(),
        g: KanjiGroup {
            g: Some(vec![
                KanjiGroup {
                    g: None,
                    path: Some(vec![
                        path("M52.75,10.25c0.11,1.12,0,3.49-0.72,4.99C47.5,24.75,34.25,45,14.25,57.75"),
                        path("M51.75,15.75c5.92,7.28,31.44,31.07,37.97,36.4c2.22,1.81,5.06,2.58,7.28,3.1"),
                    ]),
                },
                KanjiGroup {
                    g: None,
                    path: Some(vec![path(
                        "M51.87,46.25c1.09,0.5,1.74,2.25,1.96,3.25c0.22,1,0,43.25-0.22,49.5",
                    )]),
                },
            ]),
            path: None,
        },
    };
    Kanjivg { kanji: vec![kanji] }
}

#[test]
fn kanji_stroke_test() {
    let parsed = sample_kanjivg();
    let strokes = kanjivg_into_strokes(&parsed).unwrap();
    let draw_recipe: &KanjiDrawRecipe = strokes.dict.get('个').unwrap();

    let expected = r#"
<svg width="100" height="100" viewBox="0 0 100 100" xmlns="http://www.w3.org/2000/svg" xmlns:xlink="http://www.w3.org/1999/xlink" xml:space="preserve" version="1.1"  baseProfile="full">
<path style="fill:none;stroke:darkmagenta;stroke-width:2" d="M52.75,10.25c0.11,1.12,0,3.49-0.72,4.99C47.5,24.75,34.25,45,14.25,57.75"/>
<text x="52.75" y="10.25" style="stroke:black" font-size="5">1</text>
<text x="52.75" y="10.25" style="fill:darkmagenta" font-size="5">1</text>
<path style="fill:none;stroke:darkolivegreen;stroke-width:2" d="M51.75,15.75c5.92,7.28,31.44,31.07,37.97,36.4c2.22,1.81,5.06,2.58,7.28,3.1"/>
<text x="51.75" y="15.75" style="stroke:black" font-size="5">2</text>
<text x="51.75" y="15.75" style="fill:darkolivegreen" font-size="5">2</text>
<path style="fill:none;stroke:darkorange;stroke-width:2" d="M51.87,46.25c1.09,0.5,1.74,2.25,1.96,3.25c0.22,1,0,43.25-0.22,49.5"/>
<text x="51.87" y="46.25" style="stroke:black" font-size="5">3</text>
<text x="51.87" y="46.25" style="fill:darkorange" font-size="5">3</text>
</svg>
        "#.trim();

    assert_eq!(draw_recipe.generate_svg().unwrap(), expected)
}

#[test]
fn rendering_is_deterministic() {
    let parsed = sample_kanjivg();
    let strokes = kanjivg_into_strokes(&parsed).unwrap();
    let recipe = strokes.dict.get('个').unwrap();
    assert_eq!(recipe.generate_svg().unwrap(), recipe.generate_svg().unwrap());
}

#[test]
fn palette_has_74_colors_in_fixed_order() {
    let colors = color_table();
    assert_eq!(colors.len(), 74);
    assert_eq!(colors[0], "darkmagenta");
    assert_eq!(colors[1], "darkolivegreen");
    assert_eq!(colors[2], "darkorange");
    assert_eq!(colors[73], "navy");
}

#[test]
fn palette_exhausted_with_substituted_palette() {
    let recipe = KanjiDrawRecipe { paths: vec![path("M1,1"), path("M2,2")] };
    let small = vec!["darkmagenta"];
    assert_eq!(recipe.generate_svg_with(&small), Err(DataError::PaletteExhausted));
    let enough = vec!["darkmagenta", "darkolivegreen"];
    assert!(recipe.generate_svg_with(&enough).is_ok());
}

#[test]
fn rendering_malformed_path_fails() {
    let recipe = KanjiDrawRecipe { paths: vec![path("no coordinates here")] };
    assert_eq!(
        recipe.generate_svg(),
        Err(DataError::MalformedPath("no coordinates here".to_string()))
    );
}

#[test]
fn into_strokes_aborts_on_malformed_identifier() {
    let kanjivg = Kanjivg {
        kanji: vec![VgKanji {
            id: "kvg:kanji_xyz".to_string(),
            g: KanjiGroup { g: None, path: None },
        }],
    };
    assert!(matches!(
        kanjivg_into_strokes(&kanjivg),
        Err(DataError::MalformedIdentifier(id)) if id == "kvg:kanji_xyz"
    ));
}

#[test]
fn into_strokes_skip_and_report_keeps_good_entries() {
    let kanjivg = Kanjivg {
        kanji: vec![
            VgKanji {
                id: "kvg:kanji_xyz".to_string(),
                g: KanjiGroup { g: None, path: None },
            },
            VgKanji {
                id: "kvg:kanji_04e2a".to_string(),
                g: KanjiGroup { g: None, path: Some(vec![path("M1,1")]) },
            },
        ],
    };
    let (strokes, skipped) =
        kanjivg_into_strokes_with(&kanjivg, MalformedEntryPolicy::SkipAndReport).unwrap();
    assert_eq!(skipped, vec!["kvg:kanji_xyz".to_string()]);
    assert!(strokes.dict.get('个').is_some());
}

#[test]
fn last_write_wins_on_equal_literals() {
    let kanjivg = Kanjivg {
        kanji: vec![
            VgKanji {
                id: "kvg:kanji_04e2a".to_string(),
                g: KanjiGroup { g: None, path: Some(vec![path("M1,1")]) },
            },
            VgKanji {
                id: "kvg:kanji_04e2a".to_string(),
                g: KanjiGroup { g: None, path: Some(vec![path("M2,2")]) },
            },
        ],
    };
    let strokes: Strokes = kanjivg_into_strokes(&kanjivg).unwrap();
    let recipe = strokes.dict.get('个').unwrap();
    assert_eq!(recipe.paths.len(), 1);
    assert_eq!(recipe.paths[0].d, "M2,2");
}

fn record(literal: char, meanings: &[&str]) -> Kanji {
    Kanji {
        on_readings: Vec::new(),
        kun_readings: Vec::new(),
        meaning: meanings.iter().map(|m| m.to_string()).collect(),
        literal,
    }
}

fn sample_database() -> Database {
    let mut strokes: CharKeyMap<KanjiDrawRecipe> = CharKeyMap::new();
    strokes.insert('个', KanjiDrawRecipe { paths: vec![path("M1,1")] });
    Database {
        kanjis: vec![
            record('亜', &["Asia", "rank next", "come after", "-ous"]),
            record('个', &["counter"]),
        ],
        strokes,
    }
}

#[test]
fn find_literal_contained_in_query() {
    let db = sample_database();
    // the user typed a whole phrase holding the literal
    let found = db.find("この亜を調べる");
    assert_eq!(found.len(), 1);
    assert_eq!(found[0].0.literal, '亜');
}

#[test]
fn find_meaning_equals_query() {
    let db = sample_database();
    let found = db.find("rank next");
    assert_eq!(found.len(), 1);
    assert_eq!(found[0].0.literal, '亜');
    // a query that merely contains a meaning does not match it
    assert!(db.find("rank next please").is_empty());
}

#[test]
fn join_without_stroke_entry_is_absent_not_an_error() {
    let db = sample_database();
    let found = db.find("Asia");
    assert_eq!(found.len(), 1);
    assert!(found[0].1.is_none());
    let with_strokes = db.find("counter");
    assert_eq!(with_strokes.len(), 1);
    assert!(with_strokes[0].1.is_some());
}

#[test]
fn convert_keeps_only_english_and_on_kun() {
    let dict = build_ayi_dictionary();
    let records = convert_parsed_to_kanji_vec(&dict);
    assert_eq!(records.len(), 1);
    let r = &records[0];
    assert_eq!(r.literal, '亜');
    assert_eq!(r.on_readings, vec!["ア"]);
    assert_eq!(r.kun_readings, vec!["つ.ぐ"]);
    assert_eq!(r.meaning, vec!["Asia", "rank next", "come after", "-ous"]);
}

#[test]
fn convert_without_reading_meaning_block_gives_empty_lists() {
    let mut dict = build_ayi_dictionary();
    dict.character[0].reading_meaning = None;
    let records = convert_parsed_to_kanji_vec(&dict);
    assert_eq!(records.len(), 1);
    assert_eq!(records[0].literal, '亜');
    assert!(records[0].on_readings.is_empty());
    assert!(records[0].kun_readings.is_empty());
    assert!(records[0].meaning.is_empty());
}

fn build_ayi_dictionary() -> KanjiDictionary {
    let reading = |r_type: &str, value: &str| Reading {
        r_type: r_type.to_string(),
        value: value.to_string(),
    };
    let meaning = |m_lang: &str, value: &str| Meaning {
        m_lang: m_lang.to_string(),
        value: value.to_string(),
    };
    KanjiDictionary {
        character: vec![Character {
            literal: '亜',
            codepoint: CodePoint {
                cp_value: vec![CpValue { cp_type: "ucs".to_string(), value: "4e9c".to_string() }],
            },
            radical: Radical {
                rad_value: vec![RadValue {
                    rad_type: "classical".to_string(),
                    value: "7".to_string(),
                }],
            },
            misc: Misc { grade: Some(8), stroke_count: vec![7], freq: Some(1509), jlpt: Some(1) },
            reading_meaning: Some(ReadingMeaning {
                rmgroup: RmGroup {
                    reading: Some(vec![
                        reading("pinyin", "ya4"),
                        reading("korean_r", "a"),
                        reading("korean_h", "아"),
                        reading("vietnam", "A"),
                        reading("ja_on", "ア"),
                        reading("ja_kun", "つ.ぐ"),
                    ]),
                    meaning: Some(vec![
                        meaning("en", "Asia"),
                        meaning("en", "rank next"),
                        meaning("en", "come after"),
                        meaning("en", "-ous"),
                        meaning("fr", "Asie"),
                        meaning("es", "venir después de"),
                        meaning("pt", "Ásia"),
                    ]),
                },
            }),
        }],
    }
}

#[test]
fn pretty_print_lists_fields() {
    let r = Kanji {
        on_readings: vec!["ア".to_string()],
        kun_readings: vec!["つ.ぐ".to_string()],
        meaning: vec!["Asia".to_string(), "rank next".to_string()],
        literal: '亜',
    };
    assert_eq!(
        r.pretty_print(),
        "kanji: 亜, meanings: [\"Asia\", \"rank next\"], on_readings: [\"ア\"], kun_readings: [\"つ.ぐ\"]"
    );
}

#[test]
fn book_add_replaces_same_literal() {
    let mut book = Book::new(CharKeyMap::new());
    book.add(Entry { kanji: '亜', confidence_level: 0 });
    book.add(Entry { kanji: '个', confidence_level: 2 });
    book.add(Entry { kanji: '亜', confidence_level: 5 });
    assert_eq!(book.kanjis.len(), 2);
    let e = book.kanjis.get('亜').unwrap();
    assert_eq!(e.confidence_level, 5);
    // entries stay ascending by code point: 个 (U+4E2A) before 亜 (U+4E9C)
    assert_eq!(book.kanjis.entry_at(0).0, '个');
    assert_eq!(book.kanjis.entry_at(1).0, '亜');
}
