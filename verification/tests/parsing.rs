use kanji_atlas::DataError;
use kanji_atlas::kanji_dict::{
    Character, CodePoint, CpValue, KanjiDictionary, Meaning, Misc, RadValue, Radical, Reading,
    ReadingMeaning, RmGroup, default_m_lang,
};
use kanji_atlas::kanjivg_parser::{Kanji, KanjiGroup, Kanjivg, Path};
use kanji_atlas::kanji_strokes::parse_stroke_identifier;

fn reading(r_type: &str, value: &str) -> Reading {
    Reading { r_type: r_type.to_string(), value: value.to_string() }
}

fn meaning(m_lang: &str, value: &str) -> Meaning {
    Meaning { m_lang: m_lang.to_string(), value: value.to_string() }
}

fn path(d: &str) -> Path {
    Path { d: d.to_string() }
}

/// The dictionary sample: the entries for 亜 and 唖, as their source markup
/// gives them.
pub fn sample_dictionary() -> KanjiDictionary {
    let first = Character {
        literal: '亜',
        codepoint: CodePoint {
            cp_value: vec![
                CpValue { cp_type: "ucs".to_string(), value: "4e9c".to_string() },
                CpValue { cp_type: "jis208".to_string(), value: "1-16-01".to_string() },
            ],
        },
        radical: Radical {
            rad_value: vec![
                RadValue { rad_type: "classical".to_string(), value: "7".to_string() },
                RadValue { rad_type: "nelson_c".to_string(), value: "1".to_string() },
            ],
        },
        misc: Misc { grade: Some(8), stroke_count: vec![7], freq: Some(1509), jlpt: Some(1) },
        reading_meaning: Some(ReadingMeaning {
            rmgroup: RmGroup {
                reading: Some(vec![
                    reading("pinyin", "ya4"),
                    reading("korean_r", "a"),
                    reading("korean_h", "아"),
                    reading("vietnam", "A"),
                    reading("vietnam", "Á"),
                    reading("ja_on", "ア"),
                    reading("ja_kun", "つ.ぐ"),
                ]),
                meaning: Some(vec![
                    meaning("en", "Asia"),
                    meaning("en", "rank next"),
                    meaning("en", "come after"),
                    meaning("en", "-ous"),
                    meaning("fr", "Asie"),
                    meaning("fr", "suivant"),
                    meaning("fr", "sub-"),
                    meaning("fr", "sous-"),
                    meaning("es", "pref. para indicar"),
                    meaning("es", "venir después de"),
                    meaning("es", "Asia"),
                    meaning("pt", "Ásia"),
                    meaning("pt", "próxima"),
                    meaning("pt", "o que vem depois"),
                    meaning("pt", "-ous"),
                ]),
            },
        }),
    };
    let second = Character {
        literal: '唖',
        codepoint: CodePoint {
            cp_value: vec![
                CpValue { cp_type: "ucs".to_string(), value: "5516".to_string() },
                CpValue { cp_type: "jis208".to_string(), value: "1-16-2".to_string() },
            ],
        },
        radical: Radical {
            rad_value: vec![RadValue {
                rad_type: "classical".to_string(),
                value: "30".to_string(),
            }],
        },
        misc: Misc { grade: None, stroke_count: vec![10], freq: None, jlpt: None },
        reading_meaning: Some(ReadingMeaning {
            rmgroup: RmGroup {
                reading: Some(vec![
                    reading("pinyin", "ya1"),
                    reading("korean_r", "a"),
                    reading("korean_h", "아"),
                    reading("vietnam", "Á"),
                    reading("vietnam", "Ớ"),
                    reading("vietnam", "Ứ"),
                    reading("ja_on", "ア"),
                    reading("ja_on", "アク"),
                    reading("ja_kun", "おし"),
                ]),
                meaning: Some(vec![meaning("en", "mute"), meaning("en", "dumb")]),
            },
        }),
    };
    KanjiDictionary { character: vec![first, second] }
}

/// The two-entry stroke sample: a plain kanji with two direct paths, and 个
/// with two groups at different nesting depths.
pub fn sample_kanjivg() -> Kanjivg {
    let first = Kanji {
        id: "kvg:kanji_00021".to_string(),
        g: KanjiGroup {
            g: None,
            path: Some(vec![
                path("M54.5,15.79c0,6.07-0.29,55.49-0.29,60.55"),
                path(
                    "M54.5,88 c -0.83,0 -1.5,0.67 -1.5,1.5 0,0.83 0.67,1.5 1.5,1.5 0.83,0 1.5,-0.67 1.5,-1.5 0,-0.83 -0.67,-1.5 -1.5,-1.5",
                ),
            ]),
        },
    };
    let second = Kanji {
        id: "kvg:kanji_04e2a".to_string(),
        g: KanjiGroup {
            g: Some(vec![
                KanjiGroup {
                    g: None,
                    path: Some(vec![
                        path("M52.75,10.25c0.11,1.12,0,3.49-0.72,4.99C47.5,24.75,34.25,45,14.25,57.75"),
                        path("M51.75,15.75c5.92,7.28,31.44,31.07,37.97,36.4c2.22,1.81,5.06,2.58,7.28,3.1"),
                    ]),
                },
                KanjiGroup {
                    g: None,
                    path: Some(vec![path(
                        "M51.87,46.25c1.09,0.5,1.74,2.25,1.96,3.25c0.22,1,0,43.25-0.22,49.5",
                    )]),
                },
            ]),
            path: None,
        },
    };
    Kanjivg { kanji: vec![first, second] }
}

#[test]
fn kanji_dict_basic_deser() {
    let x = sample_dictionary();
    let first = x.character.first().unwrap();
    assert_eq!('亜', first.literal);
}

#[test]
fn kanjivg_parser_basic_deser() {
    let x = sample_kanjivg();
    let first = x.kanji.first().unwrap();
    assert_eq!(first.id, "kvg:kanji_00021");
    let paths = first.g.path.as_ref().unwrap();
    assert_eq!(paths.len(), 2);
    assert_eq!(first.extract_subpaths().len(), 2);

    let second = x.kanji.get(1).unwrap();
    assert_eq!(second.id, "kvg:kanji_04e2a");
    assert!(second.g.path.is_none());

    assert_eq!(second.extract_subpaths().len(), 3);

    let x_ys: Vec<(f64, f64)> = second
        .extract_subpaths()
        .into_iter()
        .map(|p| {
            let (x, y) = p.extract_x_y().unwrap();
            (x.parse::<f64>().unwrap(), y.parse::<f64>().unwrap())
        })
        .collect();

    let expected_x_ys = vec![(52.75, 10.25), (51.75, 15.75), (51.87, 46.25)];
    assert_eq!(x_ys, expected_x_ys);
}

#[test]
fn extract_x_y_rest_variants() {
    // the y token ends at a space, a lowercase or an uppercase curve
    // command, or the end of the token
    for d in [
        "M52.75,10.25 37.5,20",
        "M52.75,10.25c0.11,1.12",
        "M52.75,10.25C47.5,24.75",
        "M52.75,10.25",
        "M52.75,10.25,88.5",
    ] {
        let p = path(d);
        let (x, y) = p.extract_x_y().unwrap();
        assert_eq!(x, "52.75");
        assert_eq!(y, "10.25");
    }
}

#[test]
fn extract_x_y_negative_and_integer() {
    let (x, y) = path("M-3,4c1,1").extract_x_y().unwrap();
    assert_eq!(x, "-3");
    assert_eq!(y, "4");
}

#[test]
fn extract_x_y_malformed() {
    // no comma at all
    assert_eq!(
        path("M52.75").extract_x_y(),
        Err(DataError::MalformedPath("M52.75".to_string()))
    );
    // nothing before the comma: stripping the command leaves nothing
    assert!(path(",10.25").extract_x_y().is_err());
    // the move token is only the command
    assert!(path("M,10.25").extract_x_y().is_err());
    // x is not numeric
    assert!(path("Mabc,10.25").extract_x_y().is_err());
    // y is absent
    assert!(path("M52.75, 10").extract_x_y().is_err());
    // y has two dots
    assert!(path("M52.75,1.2.3").extract_x_y().is_err());
}

#[test]
fn flatten_empty_node_is_empty() {
    let k = Kanji {
        id: "kvg:kanji_00021".to_string(),
        g: KanjiGroup { g: None, path: None },
    };
    assert!(k.extract_subpaths().is_empty());
}

#[test]
fn flatten_is_preorder_direct_paths_first() {
    // g1 holds two paths and one nested subgroup; g2 holds one path: the
    // order must be g1's own paths, then its subgroup's, then g2's
    let k = Kanji {
        id: "kvg:kanji_04e2a".to_string(),
        g: KanjiGroup {
            path: Some(vec![path("M1,1"), path("M2,2")]),
            g: Some(vec![
                KanjiGroup {
                    path: Some(vec![path("M3,3")]),
                    g: Some(vec![KanjiGroup { path: Some(vec![path("M4,4")]), g: None }]),
                },
                KanjiGroup { path: Some(vec![path("M5,5")]), g: None },
            ]),
        },
    };
    let ds: Vec<String> = k.extract_subpaths().into_iter().map(|p| p.d).collect();
    assert_eq!(ds, vec!["M1,1", "M2,2", "M3,3", "M4,4", "M5,5"]);
}

#[test]
fn stroke_identifier_parses_hex_code_point() {
    assert_eq!(parse_stroke_identifier("kvg:kanji_04e2a"), Ok('个'));
    assert_eq!(parse_stroke_identifier("kvg:kanji_4e9c"), Ok('亜'));
    assert_eq!(parse_stroke_identifier("kvg:kanji_61"), Ok('a'));
}

#[test]
fn stroke_identifier_malformed() {
    // missing or wrong prefix
    assert_eq!(
        parse_stroke_identifier("kanji_04e2a"),
        Err(DataError::MalformedIdentifier("kanji_04e2a".to_string()))
    );
    // prefix alone, no hex digits
    assert!(parse_stroke_identifier("kvg:kanji_").is_err());
    // not hex
    assert!(parse_stroke_identifier("kvg:kanji_zz").is_err());
    // beyond the last code point
    assert!(parse_stroke_identifier("kvg:kanji_110000").is_err());
    // a surrogate code point is not a character
    assert!(parse_stroke_identifier("kvg:kanji_d800").is_err());
}

#[test]
fn default_meaning_language_is_english() {
    assert_eq!(default_m_lang(), "en");
}
