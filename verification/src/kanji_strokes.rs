//! The stroke diagram renderer and the stroke store: a fixed color palette,
//! a deterministic vector-image generator, and the map from character to its
//! draw recipe, keyed by the `kvg:kanji_<hex>` identifiers of the stroke
//! source.

use vstd::prelude::*;

use crate::DataError;
use crate::MalformedEntryPolicy;
use crate::char_map::CharKeyMap;
use crate::kanjivg_parser::{Path, Kanji, Kanjivg, flat_paths, path_wf, path_x, path_y};

verus! {

/// How many colors the fixed palette holds.
pub const PALETTE_LEN: usize = 74;

/// The fixed palette color at position `i`, as a character sequence.
pub open spec fn palette_at(i: int) -> Seq<char> {
    if i == 0 {
        "darkmagenta"@
    } else if i == 1 {
        "darkolivegreen"@
    } else if i == 2 {
        "darkorange"@
    } else if i == 3 {
        "darkorchid"@
    } else if i == 4 {
        "darkred"@
    } else if i == 5 {
        "darksalmon"@
    } else if i == 6 {
        "darkseagreen"@
    } else if i == 7 {
        "darkslateblue"@
    } else if i == 8 {
        "darkslategray"@
    } else if i == 9 {
        "darkslategrey"@
    } else if i == 10 {
        "darkturquoise"@
    } else if i == 11 {
        "darkviolet"@
    } else if i == 12 {
        "deeppink"@
    } else if i == 13 {
        "deepskyblue"@
    } else if i == 14 {
        "dimgray"@
    } else if i == 15 {
        "dimgrey"@
    } else if i == 16 {
        "dodgerblue"@
    } else if i == 17 {
        "firebrick"@
    } else if i == 18 {
        "floralwhite"@
    } else if i == 19 {
        "forestgreen"@
    } else if i == 20 {
        "fuchsia"@
    } else if i == 21 {
        "gainsboro"@
    } else if i == 22 {
        "ghostwhite"@
    } else if i == 23 {
        "gold"@
    } else if i == 24 {
        "goldenrod"@
    } else if i == 25 {
        "gray"@
    } else if i == 26 {
        "green"@
    } else if i == 27 {
        "greenyellow"@
    } else if i == 28 {
        "grey"@
    } else if i == 29 {
        "honeydew"@
    } else if i == 30 {
        "hotpink"@
    } else if i == 31 {
        "indianred"@
    } else if i == 32 {
        "indigo"@
    } else if i == 33 {
        "ivory"@
    } else if i == 34 {
        "khaki"@
    } else if i == 35 {
        "lavender"@
    } else if i == 36 {
        "lavenderblush"@
    } else if i == 37 {
        "lawngreen"@
    } else if i == 38 {
        "lemonchiffon"@
    } else if i == 39 {
        "lightblue"@
    } else if i == 40 {
        "lightcoral"@
    } else if i == 41 {
        "lightcyan"@
    } else if i == 42 {
        "lightgoldenrodyellow"@
    } else if i == 43 {
        "lightgray"@
    } else if i == 44 {
        "lightgreen"@
    } else if i == 45 {
        "lightgrey"@
    } else if i == 46 {
        "lightpink"@
    } else if i == 47 {
        "lightsalmon"@
    } else if i == 48 {
        "lightseagreen"@
    } else if i == 49 {
        "lightskyblue"@
    } else if i == 50 {
        "lightslategray"@
    } else if i == 51 {
        "lightslategrey"@
    } else if i == 52 {
        "lightsteelblue"@
    } else if i == 53 {
        "lightyellow"@
    } else if i == 54 {
        "lime"@
    } else if i == 55 {
        "limegreen"@
    } else if i == 56 {
        "linen"@
    } else if i == 57 {
        "magenta"@
    } else if i == 58 {
        "maroon"@
    } else if i == 59 {
        "mediumaquamarine"@
    } else if i == 60 {
        "mediumblue"@
    } else if i == 61 {
        "mediumorchid"@
    } else if i == 62 {
        "mediumpurple"@
    } else if i == 63 {
        "mediumseagreen"@
    } else if i == 64 {
        "mediumslateblue"@
    } else if i == 65 {
        "mediumspringgreen"@
    } else if i == 66 {
        "mediumturquoise"@
    } else if i == 67 {
        "mediumvioletred"@
    } else if i == 68 {
        "midnightblue"@
    } else if i == 69 {
        "mintcream"@
    } else if i == 70 {
        "mistyrose"@
    } else if i == 71 {
        "moccasin"@
    } else if i == 72 {
        "navajowhite"@
    } else {
        "navy"@
    }
}

/// The whole fixed palette, in order.
pub open spec fn palette() -> Seq<Seq<char>> {
    Seq::new(PALETTE_LEN as nat, |i: int| palette_at(i))
}

/// The fixed palette color at position `i`.
pub fn color_at(i: usize) -> (r: &'static str)
    requires
        i < PALETTE_LEN,
    ensures
        r@ == palette_at(i as int),
{
    match i {
        0usize => "darkmagenta",
        1usize => "darkolivegreen",
        2usize => "darkorange",
        3usize => "darkorchid",
        4usize => "darkred",
        5usize => "darksalmon",
        6usize => "darkseagreen",
        7usize => "darkslateblue",
        8usize => "darkslategray",
        9usize => "darkslategrey",
        10usize => "darkturquoise",
        11usize => "darkviolet",
        12usize => "deeppink",
        13usize => "deepskyblue",
        14usize => "dimgray",
        15usize => "dimgrey",
        16usize => "dodgerblue",
        17usize => "firebrick",
        18usize => "floralwhite",
        19usize => "forestgreen",
        20usize => "fuchsia",
        21usize => "gainsboro",
        22usize => "ghostwhite",
        23usize => "gold",
        24usize => "goldenrod",
        25usize => "gray",
        26usize => "green",
        27usize => "greenyellow",
        28usize => "grey",
        29usize => "honeydew",
        30usize => "hotpink",
        31usize => "indianred",
        32usize => "indigo",
        33usize => "ivory",
        34usize => "khaki",
        35usize => "lavender",
        36usize => "lavenderblush",
        37usize => "lawngreen",
        38usize => "lemonchiffon",
        39usize => "lightblue",
        40usize => "lightcoral",
        41usize => "lightcyan",
        42usize => "lightgoldenrodyellow",
        43usize => "lightgray",
        44usize => "lightgreen",
        45usize => "lightgrey",
        46usize => "lightpink",
        47usize => "lightsalmon",
        48usize => "lightseagreen",
        49usize => "lightskyblue",
        50usize => "lightslategray",
        51usize => "lightslategrey",
        52usize => "lightsteelblue",
        53usize => "lightyellow",
        54usize => "lime",
        55usize => "limegreen",
        56usize => "linen",
        57usize => "magenta",
        58usize => "maroon",
        59usize => "mediumaquamarine",
        60usize => "mediumblue",
        61usize => "mediumorchid",
        62usize => "mediumpurple",
        63usize => "mediumseagreen",
        64usize => "mediumslateblue",
        65usize => "mediumspringgreen",
        66usize => "mediumturquoise",
        67usize => "mediumvioletred",
        68usize => "midnightblue",
        69usize => "mintcream",
        70usize => "mistyrose",
        71usize => "moccasin",
        72usize => "navajowhite",
        _ => "navy",
    }
}

/// The fixed, ordered color table: strokes are colored by cycling through it
/// in stroke order.
pub fn color_table() -> (r: Vec<&'static str>)
    ensures
        r@.len() == PALETTE_LEN,
        forall|i: int| 0 <= i < PALETTE_LEN ==> r@[i]@ == palette_at(i),
{
    let mut v: Vec<&'static str> = Vec::new();
    let mut i: usize = 0;
    while i < PALETTE_LEN
        invariant
            0 <= i <= PALETTE_LEN,
            v@.len() == i,
            forall|j: int| 0 <= j < i ==> v@[j]@ == palette_at(j),
        decreases PALETTE_LEN - i,
    {
        v.push(color_at(i));
        i += 1;
    }
    v
}

/// The decimal digit `d` as a one-character sequence.
pub open spec fn digit_lit(d: int) -> Seq<char> {
    if d == 0 {
        "0"@
    } else if d == 1 {
        "1"@
    } else if d == 2 {
        "2"@
    } else if d == 3 {
        "3"@
    } else if d == 4 {
        "4"@
    } else if d == 5 {
        "5"@
    } else if d == 6 {
        "6"@
    } else if d == 7 {
        "7"@
    } else if d == 8 {
        "8"@
    } else {
        "9"@
    }
}

/// The decimal rendering of a nonnegative number, without sign or padding.
pub open spec fn dec_str(n: int) -> Seq<char>
    decreases n,
{
    if n < 10 {
        digit_lit(n)
    } else {
        dec_str(n / 10) + digit_lit(n % 10)
    }
}

/// The decimal digit `d` as a string slice.
fn digit_str(d: usize) -> (r: &'static str)
    requires
        d < 10,
    ensures
        r@ == digit_lit(d as int),
{
    match d {
        0usize => "0",
        1usize => "1",
        2usize => "2",
        3usize => "3",
        4usize => "4",
        5usize => "5",
        6usize => "6",
        7usize => "7",
        8usize => "8",
        _ => "9",
    }
}

/// Appends the decimal rendering of `n` to `out`.
fn push_decimal(out: &mut String, n: usize)
    ensures
        final(out)@ == old(out)@ + dec_str(n as int),
    decreases n,
{
    if n < 10 {
        out.append(digit_str(n));
    } else {
        push_decimal(out, n / 10);
        out.append(digit_str(n % 10));
        proof {
            assert(out@ =~= old(out)@ + dec_str(n as int));
        }
    }
}

/// One stroke's fragment of the image: the colored path, then an outlined
/// and a colored number label at the stroke's start coordinate.
pub open spec fn stroke_chunk(color: Seq<char>, d: Seq<char>, num: int) -> Seq<char> {
    "\n<path style=\"fill:none;stroke:"@ + color + ";stroke-width:2\" d=\""@ + d
        + "\"/>\n<text x=\""@ + path_x(d) + "\" y=\""@ + path_y(d)
        + "\" style=\"stroke:black\" font-size=\"5\">"@ + dec_str(num) + "</text>\n<text x=\""@
        + path_x(d) + "\" y=\""@ + path_y(d) + "\" style=\"fill:"@ + color
        + "\" font-size=\"5\">"@ + dec_str(num) + "</text>"@
}

/// The image body for the first `n` strokes, numbered from 1.
pub open spec fn svg_body(colors: Seq<Seq<char>>, paths: Seq<Seq<char>>, n: int) -> Seq<char>
    decreases n,
{
    if n <= 0 {
        Seq::empty()
    } else {
        svg_body(colors, paths, n - 1) + stroke_chunk(colors[n - 1], paths[n - 1], n)
    }
}

/// The complete image text for `paths` drawn with `colors`: a fixed 100 by
/// 100 canvas holding every stroke and its labels, in stroke order.
pub open spec fn svg_with(colors: Seq<Seq<char>>, paths: Seq<Seq<char>>) -> Seq<char> {
    "<svg width=\"100\" height=\"100\" viewBox=\"0 0 100 100\" xmlns=\"http://www.w3.org/2000/svg\" xmlns:xlink=\"http://www.w3.org/1999/xlink\" xml:space=\"preserve\" version=\"1.1\"  baseProfile=\"full\">"@
        + svg_body(colors, paths, paths.len() as int) + "\n</svg>"@
}

/// The complete image text with the fixed palette.
pub open spec fn svg_of(paths: Seq<Seq<char>>) -> Seq<char> {
    svg_with(palette(), paths)
}

/// The path-description views of a stroke list.
pub open spec fn path_views(ps: Seq<Path>) -> Seq<Seq<char>> {
    ps.map_values(|p: Path| p@)
}

/// The index of the first path description that is not well formed, or
/// `paths.len()` if all are.
pub open spec fn idx_first_malformed(paths: Seq<Seq<char>>) -> int
    decreases paths.len(),
{
    if paths.len() == 0 {
        0
    } else if !path_wf(paths[0]) {
        0
    } else {
        1 + idx_first_malformed(paths.subrange(1, paths.len() as int))
    }
}

pub proof fn lemma_idx_first_malformed(paths: Seq<Seq<char>>)
    ensures
        0 <= idx_first_malformed(paths) <= paths.len(),
        forall|j: int| 0 <= j < idx_first_malformed(paths) ==> path_wf(paths[j]),
        idx_first_malformed(paths) < paths.len() ==> !path_wf(paths[idx_first_malformed(paths)]),
    decreases paths.len(),
{
    if paths.len() == 0 {
    } else if !path_wf(paths[0]) {
    } else {
        let rest = paths.subrange(1, paths.len() as int);
        lemma_idx_first_malformed(rest);
        assert forall|j: int| 0 <= j < idx_first_malformed(paths) implies path_wf(paths[j]) by {
            if j > 0 {
                assert(rest[j - 1] == paths[j]);
            }
        }
    }
}

/// A character's draw recipe: its strokes in writing order. The order is
/// authoritative and never re-sorted.
#[derive(Debug)]
pub struct KanjiDrawRecipe {
    pub paths: Vec<Path>,
}

impl View for KanjiDrawRecipe {
    type V = Seq<Path>;

    open spec fn view(&self) -> Seq<Path> {
        self.paths@
    }
}

impl Clone for KanjiDrawRecipe {
    fn clone(&self) -> (r: Self)
        ensures
            r@ == self@,
    {
        let mut ps: Vec<Path> = Vec::new();
        let mut i: usize = 0;
        while i < self.paths.len()
            invariant
                0 <= i <= self.paths@.len(),
                ps@ =~= self.paths@.subrange(0, i as int),
            decreases self.paths@.len() - i,
        {
            ps.push(self.paths[i].clone());
            i += 1;
        }
        proof {
            assert(ps@ =~= self.paths@);
        }
        KanjiDrawRecipe { paths: ps }
    }
}

impl KanjiDrawRecipe {
    /// Renders this recipe with the given ordered color list: every stroke as
    /// an outlined colored path plus a two-layer numeric label placed at the
    /// stroke's start coordinate, numbered from 1 in stroke order. The output
    /// depends on the recipe and color list alone, so identical inputs give
    /// byte-identical text.
    #[verifier::rlimit(80)]
    pub fn generate_svg_with(&self, colors: &Vec<&str>) -> (r: Result<String, DataError>)
        ensures
            r is Ok <==> (idx_first_malformed(path_views(self@)) == self@.len() && self@.len()
                <= colors@.len()),
            r is Ok ==> r->Ok_0@ == svg_with(
                colors@.map_values(|s: &str| s@),
                path_views(self@),
            ),
            r is Err ==> r->Err_0 is MalformedPath || r->Err_0 is PaletteExhausted,
            r is Err && r->Err_0 is MalformedPath ==> {
                let b = idx_first_malformed(path_views(self@));
                &&& b < self@.len()
                &&& b <= colors@.len()
                &&& r->Err_0->MalformedPath_0@ == path_views(self@)[b]
            },
            r is Err && r->Err_0 is PaletteExhausted ==> self@.len() > colors@.len()
                && idx_first_malformed(path_views(self@)) > colors@.len(),
    {
        let ghost ps = path_views(self.paths@);
        let ghost cs = colors@.map_values(|s: &str| s@);
        let mut body = String::new();
        let mut i: usize = 0;
        while i < self.paths.len()
            invariant
                0 <= i <= self.paths@.len(),
                ps == path_views(self.paths@),
                cs == colors@.map_values(|s: &str| s@),
                ps.len() == self.paths@.len(),
                forall|j: int| 0 <= j < i ==> path_wf(ps[j]),
                i <= colors@.len(),
                body@ == svg_body(cs, ps, i as int),
            decreases self.paths@.len() - i,
        {
            let p = &self.paths[i];
            proof {
                assert(ps[i as int] == p.d@);
            }
            match p.extract_x_y() {
                Err(e) => {
                    proof {
                        lemma_idx_first_malformed(ps);
                    }
                    return Err(e);
                },
                Ok(xy) => {
                    if i >= colors.len() {
                        proof {
                            lemma_idx_first_malformed(ps);
                        }
                        return Err(DataError::PaletteExhausted);
                    }
                    let (x, y) = xy;
                    let ghost b0 = body@;
                    body.append("\n<path style=\"fill:none;stroke:");
                    body.append(colors[i]);
                    body.append(";stroke-width:2\" d=\"");
                    body.append(p.d.as_str());
                    body.append("\"/>\n<text x=\"");
                    body.append(x.as_str());
                    body.append("\" y=\"");
                    body.append(y.as_str());
                    body.append("\" style=\"stroke:black\" font-size=\"5\">");
                    push_decimal(&mut body, i + 1);
                    body.append("</text>\n<text x=\"");
                    body.append(x.as_str());
                    body.append("\" y=\"");
                    body.append(y.as_str());
                    body.append("\" style=\"fill:");
                    body.append(colors[i]);
                    body.append("\" font-size=\"5\">");
                    push_decimal(&mut body, i + 1);
                    body.append("</text>");
                    proof {
                        assert(cs[i as int] == colors@[i as int]@);
                        assert(body@ =~= b0 + stroke_chunk(cs[i as int], ps[i as int], i + 1));
                        assert(body@ =~= svg_body(cs, ps, i + 1));
                    }
                },
            }
            i += 1;
        }
        proof {
            lemma_idx_first_malformed(ps);
        }
        let mut out = String::from_str(
            "<svg width=\"100\" height=\"100\" viewBox=\"0 0 100 100\" xmlns=\"http://www.w3.org/2000/svg\" xmlns:xlink=\"http://www.w3.org/1999/xlink\" xml:space=\"preserve\" version=\"1.1\"  baseProfile=\"full\">",
        );
        out.append(body.as_str());
        out.append("\n</svg>");
        proof {
            assert(out@ =~= svg_with(cs, ps));
        }
        Ok(out)
    }

    /// Renders this recipe with the fixed 74-color palette.
    pub fn generate_svg(&self) -> (r: Result<String, DataError>)
        ensures
            r is Ok <==> (idx_first_malformed(path_views(self@)) == self@.len() && self@.len()
                <= PALETTE_LEN),
            r is Ok ==> r->Ok_0@ == svg_of(path_views(self@)),
            r is Err ==> r->Err_0 is MalformedPath || r->Err_0 is PaletteExhausted,
            r is Err && r->Err_0 is MalformedPath ==> {
                let b = idx_first_malformed(path_views(self@));
                &&& b < self@.len()
                &&& b <= PALETTE_LEN
                &&& r->Err_0->MalformedPath_0@ == path_views(self@)[b]
            },
            r is Err && r->Err_0 is PaletteExhausted ==> self@.len() > PALETTE_LEN
                && idx_first_malformed(path_views(self@)) > PALETTE_LEN,
    {
        let colors = color_table();
        proof {
            assert(colors@.map_values(|s: &str| s@) =~= palette());
        }
        self.generate_svg_with(&colors)
    }
}

pub open spec fn is_hex_digit(c: char) -> bool {
    ('0' <= c && c <= '9') || ('a' <= c && c <= 'f') || ('A' <= c && c <= 'F')
}

/// The value of one hex digit, either case.
pub open spec fn hex_digit_val(c: char) -> int {
    if '0' <= c && c <= '9' {
        c as int - '0' as int
    } else if 'a' <= c && c <= 'f' {
        c as int - 'a' as int + 10
    } else {
        c as int - 'A' as int + 10
    }
}

/// The value of a hex digit string, most significant digit first.
pub open spec fn hex_val(s: Seq<char>) -> int
    decreases s.len(),
{
    if s.len() == 0 {
        0
    } else {
        hex_val(s.drop_last()) * 16 + hex_digit_val(s.last())
    }
}

/// A code point a character can hold: in range and not a surrogate.
pub open spec fn is_scalar_value(v: int) -> bool {
    (0 <= v && v < 0xD800) || (0xE000 <= v && v <= 0x10FFFF)
}

/// A well-formed stroke-source identifier: the fixed `kvg:kanji_` prefix,
/// then at least one hex digit, whose value is a character code point.
pub open spec fn id_wf(s: Seq<char>) -> bool {
    &&& s.len() > 10
    &&& s.subrange(0, 10) == "kvg:kanji_"@
    &&& (forall|i: int| 10 <= i < s.len() ==> is_hex_digit(#[trigger] s[i]))
    &&& is_scalar_value(hex_val(s.subrange(10, s.len() as int)))
}

/// The character a well-formed identifier names.
pub open spec fn id_char(s: Seq<char>) -> char {
    hex_val(s.subrange(10, s.len() as int)) as char
}

proof fn lemma_hex_val_nonneg(s: Seq<char>)
    requires
        forall|t: int| 0 <= t < s.len() ==> is_hex_digit(#[trigger] s[t]),
    ensures
        hex_val(s) >= 0,
    decreases s.len(),
{
    if s.len() > 0 {
        let pre = s.drop_last();
        assert(forall|t: int| 0 <= t < pre.len() ==> is_hex_digit(#[trigger] pre[t]));
        lemma_hex_val_nonneg(pre);
    }
}

/// A longer hex digit string has at least the value of any of its prefixes.
proof fn lemma_hex_val_prefix(s: Seq<char>, i: int)
    requires
        0 <= i <= s.len(),
        forall|t: int| 0 <= t < s.len() ==> is_hex_digit(#[trigger] s[t]),
    ensures
        hex_val(s) >= hex_val(s.subrange(0, i)),
    decreases s.len() - i,
{
    if i == s.len() {
        assert(s.subrange(0, i) =~= s);
    } else {
        let p = s.subrange(0, i);
        let q = s.subrange(0, i + 1);
        assert(q.drop_last() =~= p);
        assert(forall|t: int| 0 <= t < p.len() ==> is_hex_digit(#[trigger] p[t]));
        lemma_hex_val_nonneg(p);
        assert(hex_val(q) == hex_val(p) * 16 + hex_digit_val(s[i]));
        assert(hex_val(q) >= hex_val(p));
        lemma_hex_val_prefix(s, i + 1);
    }
}

/// Relies on char::from_u32 of std: it returns the character with the given
/// code point exactly when the value is a Unicode scalar value, that is,
/// below the surrogate range or between it and 0x10FFFF inclusive.
pub assume_specification[ char::from_u32 ](v: u32) -> (r: Option<char>)
    ensures
        r is Some <==> is_scalar_value(v as int),
        r is Some ==> r->0 as int == v as int,
;

/// The value of one hex digit character.
fn hex_digit(c: char) -> (r: Option<u8>)
    ensures
        r is Some <==> is_hex_digit(c),
        r is Some ==> r->0 as int == hex_digit_val(c),
{
    if c >= '0' && c <= '9' {
        Some((c as u32 - '0' as u32) as u8)
    } else if c >= 'a' && c <= 'f' {
        Some((c as u32 - 'a' as u32 + 10) as u8)
    } else if c >= 'A' && c <= 'F' {
        Some((c as u32 - 'A' as u32 + 10) as u8)
    } else {
        None
    }
}

/// Parses a stroke-source identifier `kvg:kanji_<hex>` into the character
/// it names.
pub fn parse_stroke_identifier(id: &str) -> (r: Result<char, DataError>)
    ensures
        r is Ok <==> id_wf(id@),
        r is Ok ==> r->Ok_0 == id_char(id@),
        r is Err ==> r->Err_0 is MalformedIdentifier && r->Err_0->MalformedIdentifier_0@ == id@,
{
    let n = id.unicode_len();
    if n < 11 {
        return Err(DataError::MalformedIdentifier(String::from_str(id)));
    }
    let prefix = "kvg:kanji_";
    proof {
        reveal_strlit("kvg:kanji_");
    }
    let mut j: usize = 0;
    while j < 10
        invariant
            0 <= j <= 10,
            n >= 11,
            n as int == id@.len(),
            prefix@ == "kvg:kanji_"@,
            prefix@.len() == 10,
            forall|t: int| 0 <= t < j ==> id@[t] == prefix@[t],
        decreases 10 - j,
    {
        if id.get_char(j) != prefix.get_char(j) {
            proof {
                assert(id@.subrange(0, 10) != "kvg:kanji_"@);
            }
            return Err(DataError::MalformedIdentifier(String::from_str(id)));
        }
        j += 1;
    }
    proof {
        assert(id@.subrange(0, 10) =~= "kvg:kanji_"@);
    }
    let ghost tail = id@.subrange(10, id@.len() as int);
    let mut v: u32 = 0;
    let mut i: usize = 10;
    while i < n
        invariant
            10 <= i <= n,
            n as int == id@.len(),
            tail == id@.subrange(10, id@.len() as int),
            forall|t: int| 10 <= t < i ==> is_hex_digit(#[trigger] id@[t]),
            v as int == hex_val(id@.subrange(10, i as int)),
            v <= 0x10FFFF,
        decreases n - i,
    {
        let c = id.get_char(i);
        match hex_digit(c) {
            None => {
                return Err(DataError::MalformedIdentifier(String::from_str(id)));
            },
            Some(d) => {
                let next: u32 = v * 16 + d as u32;
                proof {
                    assert(id@.subrange(10, i + 1).drop_last() =~= id@.subrange(10, i as int));
                    assert(hex_val(id@.subrange(10, i + 1)) == next as int);
                }
                if next > 0x10FFFF {
                    proof {
                        if id_wf(id@) {
                            assert forall|t: int| 0 <= t < tail.len() implies is_hex_digit(
                                #[trigger] tail[t],
                            ) by {
                                assert(tail[t] == id@[t + 10]);
                            }
                            assert(tail.subrange(0, i + 1 - 10) =~= id@.subrange(10, i + 1));
                            lemma_hex_val_prefix(tail, i + 1 - 10);
                            assert(false);
                        }
                    }
                    return Err(DataError::MalformedIdentifier(String::from_str(id)));
                }
                v = next;
            },
        }
        i += 1;
    }
    proof {
        assert(id@.subrange(10, i as int) =~= tail);
    }
    if v >= 0xD800 && v < 0xE000 {
        return Err(DataError::MalformedIdentifier(String::from_str(id)));
    }
    match char::from_u32(v) {
        Some(c) => {
            proof {
                assert(id_wf(id@));
                assert(c == id_char(id@));
            }
            Ok(c)
        },
        None => {
            proof {
                assert(false);
            }
            Err(DataError::MalformedIdentifier(String::from_str(id)))
        },
    }
}

/// The stroke store: each character's draw recipe, keyed by literal, held
/// ascending by code point.
#[derive(Debug)]
pub struct Strokes {
    pub dict: CharKeyMap<KanjiDrawRecipe>,
}

/// The store the stroke source denotes: one binding per entry with a
/// well-formed identifier, last write winning; malformed entries contribute
/// nothing here.
pub open spec fn strokes_map_spec(ks: Seq<Kanji>) -> Map<char, Seq<Path>>
    decreases ks.len(),
{
    if ks.len() == 0 {
        Map::empty()
    } else {
        let m = strokes_map_spec(ks.drop_last());
        if id_wf(ks.last().id@) {
            m.insert(id_char(ks.last().id@), flat_paths(ks.last().g))
        } else {
            m
        }
    }
}

/// The raw identifiers of the entries whose identifier is malformed, in
/// document order.
pub open spec fn bad_ids(ks: Seq<Kanji>) -> Seq<Seq<char>>
    decreases ks.len(),
{
    if ks.len() == 0 {
        Seq::empty()
    } else {
        let b = bad_ids(ks.drop_last());
        if id_wf(ks.last().id@) {
            b
        } else {
            b.push(ks.last().id@)
        }
    }
}

/// The index of the first entry whose identifier is malformed, or `ks.len()`
/// if every identifier is well formed.
pub open spec fn idx_first_bad_id(ks: Seq<Kanji>) -> int
    decreases ks.len(),
{
    if ks.len() == 0 {
        0
    } else if !id_wf(ks[0].id@) {
        0
    } else {
        1 + idx_first_bad_id(ks.subrange(1, ks.len() as int))
    }
}

pub proof fn lemma_idx_first_bad_id(ks: Seq<Kanji>)
    ensures
        0 <= idx_first_bad_id(ks) <= ks.len(),
        forall|j: int| 0 <= j < idx_first_bad_id(ks) ==> id_wf(#[trigger] ks[j].id@),
        idx_first_bad_id(ks) < ks.len() ==> !id_wf(ks[idx_first_bad_id(ks)].id@),
    decreases ks.len(),
{
    if ks.len() == 0 {
    } else if !id_wf(ks[0].id@) {
    } else {
        let rest = ks.subrange(1, ks.len() as int);
        lemma_idx_first_bad_id(rest);
        assert forall|j: int| 0 <= j < idx_first_bad_id(ks) implies id_wf(
            #[trigger] ks[j].id@,
        ) by {
            if j > 0 {
                assert(rest[j - 1] == ks[j]);
            }
        }
    }
}

/// Builds the stroke store from the parsed stroke source, with the given
/// policy for entries whose identifier is malformed: abort the whole build,
/// or skip them and report their raw identifiers.
pub fn kanjivg_into_strokes_with(kanjivg: &Kanjivg, policy: MalformedEntryPolicy) -> (r: Result<
    (Strokes, Vec<String>),
    DataError,
>)
    ensures
        policy is SkipAndReport ==> r is Ok,
        policy is Abort ==> (r is Ok <==> idx_first_bad_id(kanjivg.kanji@) == kanjivg.kanji@.len()),
        r is Ok ==> {
            &&& r->Ok_0.0.dict.wf()
            &&& r->Ok_0.0.dict@ == strokes_map_spec(kanjivg.kanji@)
            &&& r->Ok_0.1.deep_view() == bad_ids(kanjivg.kanji@)
        },
        r is Err ==> {
            let b = idx_first_bad_id(kanjivg.kanji@);
            &&& r->Err_0 is MalformedIdentifier
            &&& b < kanjivg.kanji@.len()
            &&& r->Err_0->MalformedIdentifier_0@ == kanjivg.kanji@[b].id@
        },
{
    let ghost ks = kanjivg.kanji@;
    let mut dict: CharKeyMap<KanjiDrawRecipe> = CharKeyMap::new();
    let mut skipped: Vec<String> = Vec::new();
    let mut i: usize = 0;
    while i < kanjivg.kanji.len()
        invariant
            0 <= i <= ks.len(),
            ks == kanjivg.kanji@,
            dict.wf(),
            dict@ == strokes_map_spec(ks.subrange(0, i as int)),
            skipped.deep_view() =~= bad_ids(ks.subrange(0, i as int)),
            policy is Abort ==> forall|j: int| 0 <= j < i ==> id_wf(#[trigger] ks[j].id@),
        decreases ks.len() - i,
    {
        let k = &kanjivg.kanji[i];
        proof {
            assert(ks.subrange(0, i + 1).drop_last() =~= ks.subrange(0, i as int));
            assert(ks.subrange(0, i + 1).last() == ks[i as int]);
        }
        match parse_stroke_identifier(k.id.as_str()) {
            Ok(literal) => {
                let recipe = KanjiDrawRecipe { paths: k.extract_subpaths() };
                dict.insert(literal, recipe);
            },
            Err(e) => {
                match policy {
                    MalformedEntryPolicy::Abort => {
                        proof {
                            lemma_idx_first_bad_id(ks);
                        }
                        return Err(e);
                    },
                    MalformedEntryPolicy::SkipAndReport => {
                        skipped.push(String::from_str(k.id.as_str()));
                        proof {
                            assert(skipped.deep_view() =~= bad_ids(ks.subrange(0, i + 1)));
                        }
                    },
                }
            },
        }
        i += 1;
    }
    proof {
        assert(ks.subrange(0, ks.len() as int) =~= ks);
        if policy is Abort {
            lemma_idx_first_bad_id(ks);
        }
    }
    Ok((Strokes { dict }, skipped))
}

/// Builds the stroke store, aborting on the first entry whose identifier is
/// malformed.
pub fn kanjivg_into_strokes(kanjivg: &Kanjivg) -> (r: Result<Strokes, DataError>)
    ensures
        r is Ok <==> idx_first_bad_id(kanjivg.kanji@) == kanjivg.kanji@.len(),
        r is Ok ==> r->Ok_0.dict.wf() && r->Ok_0.dict@ == strokes_map_spec(kanjivg.kanji@),
        r is Err ==> {
            let b = idx_first_bad_id(kanjivg.kanji@);
            &&& r->Err_0 is MalformedIdentifier
            &&& b < kanjivg.kanji@.len()
            &&& r->Err_0->MalformedIdentifier_0@ == kanjivg.kanji@[b].id@
        },
{
    match kanjivg_into_strokes_with(kanjivg, MalformedEntryPolicy::Abort) {
        Ok((strokes, _)) => Ok(strokes),
        Err(e) => Err(e),
    }
}

} // verus!
