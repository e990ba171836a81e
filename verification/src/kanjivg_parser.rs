//! The stroke-geometry source's entry structure: one `Kanji` per character,
//! identified by a `kvg:kanji_<hex>` string, holding a recursive group tree
//! whose leaves are path-description strings.
//!
//! Of a path description only the start coordinate is read here: the text
//! between the one-character move command and the first `,`, and the text
//! after that `,` up to the first curve command letter (`c` or `C`), space,
//! further `,`, or end of the token.

use vstd::prelude::*;

use crate::DataError;

verus! {

/// One stroke: an opaque path-description string.
#[derive(Debug)]
pub struct Path {
    pub d: String,
}

pub open spec fn is_ascii_digit(c: char) -> bool {
    '0' <= c && c <= '9'
}

/// How many `.` characters a token holds.
pub open spec fn count_dots(s: Seq<char>) -> nat
    decreases s.len(),
{
    if s.len() == 0 {
        0
    } else {
        count_dots(s.drop_last()) + if s.last() == '.' { 1nat } else { 0nat }
    }
}

pub open spec fn all_decimal_chars(s: Seq<char>) -> bool {
    forall|i: int| 0 <= i < s.len() ==> is_ascii_digit(s[i]) || s[i] == '.'
}

pub open spec fn has_digit(s: Seq<char>) -> bool {
    exists|i: int| 0 <= i < s.len() && is_ascii_digit(s[i])
}

/// A decimal number token: an optional leading `-`, then digits holding at
/// most one `.` and at least one digit.
pub open spec fn is_decimal_token(s: Seq<char>) -> bool {
    let t = if s.len() > 0 && s[0] == '-' {
        s.subrange(1, s.len() as int)
    } else {
        s
    };
    all_decimal_chars(t) && has_digit(t) && count_dots(t) <= 1
}

/// The index of the first `,` in `s`, or `s.len()` if there is none.
pub open spec fn idx_of_comma(s: Seq<char>) -> int
    decreases s.len(),
{
    if s.len() == 0 {
        0
    } else if s[0] == ',' {
        0
    } else {
        1 + idx_of_comma(s.subrange(1, s.len() as int))
    }
}

/// A character that ends the y token: a curve command letter or a space.
pub open spec fn is_break_char(c: char) -> bool {
    c == 'c' || c == 'C' || c == ' '
}

/// The index of the first break character in `s`, or `s.len()` if there is none.
pub open spec fn idx_of_break(s: Seq<char>) -> int
    decreases s.len(),
{
    if s.len() == 0 {
        0
    } else if is_break_char(s[0]) {
        0
    } else {
        1 + idx_of_break(s.subrange(1, s.len() as int))
    }
}

pub proof fn lemma_idx_of_comma(s: Seq<char>)
    ensures
        0 <= idx_of_comma(s) <= s.len(),
        forall|j: int| 0 <= j < idx_of_comma(s) ==> s[j] != ',',
        idx_of_comma(s) < s.len() ==> s[idx_of_comma(s)] == ',',
    decreases s.len(),
{
    if s.len() == 0 {
    } else if s[0] == ',' {
    } else {
        let rest = s.subrange(1, s.len() as int);
        lemma_idx_of_comma(rest);
        assert forall|j: int| 0 <= j < idx_of_comma(s) implies s[j] != ',' by {
            if j > 0 {
                assert(rest[j - 1] == s[j]);
            }
        }
    }
}

pub proof fn lemma_idx_of_break(s: Seq<char>)
    ensures
        0 <= idx_of_break(s) <= s.len(),
        forall|j: int| 0 <= j < idx_of_break(s) ==> !is_break_char(s[j]),
        idx_of_break(s) < s.len() ==> is_break_char(s[idx_of_break(s)]),
    decreases s.len(),
{
    if s.len() == 0 {
    } else if is_break_char(s[0]) {
    } else {
        let rest = s.subrange(1, s.len() as int);
        lemma_idx_of_break(rest);
        assert forall|j: int| 0 <= j < idx_of_break(s) implies !is_break_char(s[j]) by {
            if j > 0 {
                assert(rest[j - 1] == s[j]);
            }
        }
    }
}

/// The second comma-separated token of `d`: the text after the first `,` up
/// to the next `,` or the end.
pub open spec fn second_token(d: Seq<char>) -> Seq<char> {
    let rest = d.subrange(idx_of_comma(d) + 1, d.len() as int);
    rest.subrange(0, idx_of_comma(rest))
}

/// The x start coordinate of a path description: the first token with its
/// one-character move command stripped.
pub open spec fn path_x(d: Seq<char>) -> Seq<char> {
    d.subrange(1, idx_of_comma(d))
}

/// The y start coordinate of a path description: the second token up to the
/// first curve command letter or space.
pub open spec fn path_y(d: Seq<char>) -> Seq<char> {
    let t = second_token(d);
    t.subrange(0, idx_of_break(t))
}

/// A path description whose start coordinate can be extracted: a nonempty
/// move token, a `,`, and decimal x and y coordinates.
pub open spec fn path_wf(d: Seq<char>) -> bool {
    &&& idx_of_comma(d) < d.len()
    &&& idx_of_comma(d) >= 1
    &&& is_decimal_token(path_x(d))
    &&& is_decimal_token(path_y(d))
}

/// The index of the first `,` in `s`, or its length if there is none.
fn find_comma(s: &str) -> (r: usize)
    ensures
        r as int == idx_of_comma(s@),
        r as int <= s@.len(),
{
    proof {
        lemma_idx_of_comma(s@);
    }
    let n = s.unicode_len();
    let mut i: usize = 0;
    while i < n
        invariant
            0 <= i <= n,
            n as int == s@.len(),
            forall|j: int| 0 <= j < i ==> s@[j] != ',',
            forall|j: int| 0 <= j < idx_of_comma(s@) ==> s@[j] != ',',
            0 <= idx_of_comma(s@) <= s@.len(),
            idx_of_comma(s@) < s@.len() ==> s@[idx_of_comma(s@)] == ',',
        decreases n - i,
    {
        if s.get_char(i) == ',' {
            return i;
        }
        i += 1;
    }
    i
}

/// The index of the first break character in `s`, or its length if there is none.
fn find_break(s: &str) -> (r: usize)
    ensures
        r as int == idx_of_break(s@),
        r as int <= s@.len(),
{
    proof {
        lemma_idx_of_break(s@);
    }
    let n = s.unicode_len();
    let mut i: usize = 0;
    while i < n
        invariant
            0 <= i <= n,
            n as int == s@.len(),
            forall|j: int| 0 <= j < i ==> !is_break_char(s@[j]),
            forall|j: int| 0 <= j < idx_of_break(s@) ==> !is_break_char(s@[j]),
            0 <= idx_of_break(s@) <= s@.len(),
            idx_of_break(s@) < s@.len() ==> is_break_char(s@[idx_of_break(s@)]),
        decreases n - i,
    {
        let c = s.get_char(i);
        if c == 'c' || c == 'C' || c == ' ' {
            return i;
        }
        i += 1;
    }
    i
}

/// Whether `s` is a decimal number token.
fn check_decimal(s: &str) -> (b: bool)
    ensures
        b == is_decimal_token(s@),
{
    let n = s.unicode_len();
    if n == 0 {
        return false;
    }
    let start: usize = if s.get_char(0) == '-' {
        1
    } else {
        0
    };
    let ghost t = if s@[0] == '-' {
        s@.subrange(1, s@.len() as int)
    } else {
        s@
    };
    let mut i: usize = start;
    let mut dots: usize = 0;
    let mut seen_digit: bool = false;
    while i < n
        invariant
            start <= i <= n,
            start <= 1,
            n as int == s@.len(),
            n >= 1,
            t == (if s@[0] == '-' { s@.subrange(1, s@.len() as int) } else { s@ }),
            (start == 1) == (s@[0] == '-'),
            t =~= s@.subrange(start as int, n as int),
            dots as int == count_dots(s@.subrange(start as int, i as int)),
            seen_digit == has_digit(s@.subrange(start as int, i as int)),
            all_decimal_chars(s@.subrange(start as int, i as int)),
            dots <= 1,
        decreases n - i,
    {
        let c = s.get_char(i);
        let ghost prefix = s@.subrange(start as int, i as int);
        let ghost prefix1 = s@.subrange(start as int, i + 1 as int);
        proof {
            assert(prefix1.drop_last() =~= prefix);
            assert(prefix1.last() == s@[i as int]);
            assert(forall|j: int| 0 <= j < prefix.len() ==> prefix1[j] == prefix[j]);
        }
        if c >= '0' && c <= '9' {
            seen_digit = true;
            proof {
                assert(is_ascii_digit(prefix1[i - start]));
            }
        } else if c == '.' {
            dots += 1;
            if dots > 1 {
                proof {
                    assert(count_dots(prefix1) == dots);
                    assert(t.subrange(0, i + 1 - start) =~= prefix1);
                    lemma_count_dots_prefix(t, (i + 1 - start) as int);
                }
                return false;
            }
        } else {
            proof {
                assert(!(is_ascii_digit(s@[i as int]) || s@[i as int] == '.'));
            }
            return false;
        }
        i += 1;
    }
    proof {
        assert(s@.subrange(start as int, n as int) =~= t);
    }
    seen_digit
}

/// Dots in a prefix are no more than dots in the whole token.
proof fn lemma_count_dots_prefix(s: Seq<char>, i: int)
    requires
        0 <= i <= s.len(),
    ensures
        count_dots(s.subrange(0, i)) <= count_dots(s),
    decreases s.len() - i,
{
    if i == s.len() {
        assert(s.subrange(0, i) =~= s);
    } else {
        lemma_count_dots_prefix(s, i + 1);
        assert(s.subrange(0, i + 1).drop_last() =~= s.subrange(0, i));
    }
}

impl View for Path {
    type V = Seq<char>;

    open spec fn view(&self) -> Seq<char> {
        self.d@
    }
}

impl Clone for Path {
    fn clone(&self) -> (r: Self)
        ensures
            r == *self,
    {
        Path { d: self.d.clone() }
    }
}

impl Path {
    /// The start coordinate of this path description, as the two decimal
    /// number tokens that follow the move command.
    pub fn extract_x_y(&self) -> (r: Result<(String, String), DataError>)
        ensures
            r is Ok <==> path_wf(self.d@),
            r is Ok ==> r->Ok_0.0@ == path_x(self.d@) && r->Ok_0.1@ == path_y(self.d@),
            r is Err ==> r->Err_0 is MalformedPath && r->Err_0->MalformedPath_0@ == self.d@,
    {
        let s = self.d.as_str();
        let n = s.unicode_len();
        let comma = find_comma(s);
        if comma >= n || comma < 1 {
            return Err(DataError::MalformedPath(self.d.clone()));
        }
        let x = s.substring_char(1, comma);
        proof {
            assert(x@ == path_x(self.d@));
        }
        if !check_decimal(x) {
            return Err(DataError::MalformedPath(self.d.clone()));
        }
        let rest = s.substring_char(comma + 1, n);
        let c2 = find_comma(rest);
        let second = rest.substring_char(0, c2);
        proof {
            lemma_idx_of_comma(rest@);
            assert(second@ == second_token(self.d@));
        }
        let brk = find_break(second);
        proof {
            lemma_idx_of_break(second@);
        }
        let y = second.substring_char(0, brk);
        proof {
            assert(y@ == path_y(self.d@));
        }
        if !check_decimal(y) {
            return Err(DataError::MalformedPath(self.d.clone()));
        }
        Ok((String::from_str(x), String::from_str(y)))
    }
}

/// A node of the stroke tree: direct paths and child groups, either of which
/// may be absent.
#[derive(Debug)]
pub struct KanjiGroup {
    pub g: Option<Vec<KanjiGroup>>,
    pub path: Option<Vec<Path>>,
}

/// One stroke-source entry: an identifier and the root group of its tree.
#[derive(Debug)]
pub struct Kanji {
    pub id: String,
    pub g: KanjiGroup,
}

/// The whole stroke-geometry source.
#[derive(Debug)]
pub struct Kanjivg {
    pub kanji: Vec<Kanji>,
}

/// The paths a node owns directly, in their given order.
pub open spec fn own_paths(g: KanjiGroup) -> Seq<Path> {
    match g.path {
        Some(ps) => ps@,
        None => Seq::empty(),
    }
}

/// A node's child groups, in their given order.
pub open spec fn child_groups(g: KanjiGroup) -> Seq<KanjiGroup> {
    match g.g {
        Some(gs) => gs@,
        None => Seq::empty(),
    }
}

/// All paths reachable from a node, in pre-order: the node's own paths
/// first, then those of each child group in turn.
pub open spec fn flat_paths(g: KanjiGroup) -> Seq<Path>
    decreases g, 1int,
{
    own_paths(g) + match g.g {
        Some(gs) => flat_groups(gs@),
        None => Seq::empty(),
    }
}

/// All paths reachable from a list of groups, in order.
pub open spec fn flat_groups(gs: Seq<KanjiGroup>) -> Seq<Path>
    decreases gs, 0int,
{
    if gs.len() == 0 {
        Seq::empty()
    } else {
        flat_paths(gs[0]) + flat_groups(gs.drop_first())
    }
}

/// Appending a group to a list appends its paths to the flattening.
pub proof fn lemma_flat_groups_push(gs: Seq<KanjiGroup>, g: KanjiGroup)
    ensures
        flat_groups(gs.push(g)) == flat_groups(gs) + flat_paths(g),
    decreases gs.len(),
{
    reveal_with_fuel(flat_groups, 3);
    if gs.len() == 0 {
        assert(gs.push(g).drop_first() =~= Seq::<KanjiGroup>::empty());
        assert(gs.push(g)[0] == g);
        assert(flat_groups(gs.push(g)) =~= flat_groups(gs) + flat_paths(g));
    } else {
        assert(gs.push(g).drop_first() =~= gs.drop_first().push(g));
        assert(gs.push(g)[0] == gs[0]);
        lemma_flat_groups_push(gs.drop_first(), g);
        assert(flat_groups(gs.push(g)) == flat_paths(gs[0]) + (flat_groups(gs.drop_first())
            + flat_paths(g)));
        assert(flat_groups(gs.push(g)) =~= flat_groups(gs) + flat_paths(g));
    }
}

/// A node with neither paths nor subgroups contributes nothing: its
/// flattening is the empty sequence.
pub proof fn lemma_flatten_empty_node(g: KanjiGroup)
    requires
        g.path is None,
        g.g is None,
    ensures
        flat_paths(g) == Seq::<Path>::empty(),
{
    assert(flat_paths(g) =~= Seq::<Path>::empty());
}

/// Flattening is pre-order at every level: a node's own paths come first,
/// then the flattening of the first child group, then that of the remaining
/// child groups.
pub proof fn lemma_flatten_preorder(g: KanjiGroup)
    requires
        g.g is Some,
        g.g->0@.len() > 0,
    ensures
        flat_paths(g) == own_paths(g) + flat_paths(g.g->0@[0]) + flat_groups(g.g->0@.drop_first()),
{
    assert(flat_paths(g) =~= own_paths(g) + flat_paths(g.g->0@[0]) + flat_groups(
        g.g->0@.drop_first(),
    ));
}

impl Kanji {
    /// The ordered sequence of all path descriptors reachable from this
    /// entry's root group, in document (stroke-writing) order.
    pub fn extract_subpaths(&self) -> (r: Vec<Path>)
        ensures
            r@ == flat_paths(self.g),
    {
        let mut result = Vec::new();
        Self::extract_subpaths_impl(&self.g, &mut result);
        proof {
            assert(result@ =~= flat_paths(self.g));
        }
        result
    }

    fn extract_subpaths_impl(g: &KanjiGroup, paths_so_far: &mut Vec<Path>)
        ensures
            final(paths_so_far)@ =~= old(paths_so_far)@ + flat_paths(*g),
        decreases *g,
    {
        let ghost prev = paths_so_far@;
        if let Some(paths) = &g.path {
            let mut i: usize = 0;
            while i < paths.len()
                invariant
                    0 <= i <= paths@.len(),
                    g.path == Some(*paths),
                    paths_so_far@ =~= prev + paths@.subrange(0, i as int),
                decreases paths@.len() - i,
            {
                paths_so_far.push(paths[i].clone());
                proof {
                    assert(paths_so_far@ =~= prev + paths@.subrange(0, i + 1));
                }
                i += 1;
            }
            proof {
                assert(paths@.subrange(0, paths@.len() as int) =~= paths@);
            }
        }
        if let Some(subgroup) = &g.g {
            let mut i: usize = 0;
            while i < subgroup.len()
                invariant
                    0 <= i <= subgroup@.len(),
                    g.g == Some(*subgroup),
                    paths_so_far@ =~= prev + own_paths(*g) + flat_groups(
                        subgroup@.subrange(0, i as int),
                    ),
                decreases subgroup@.len() - i,
            {
                proof {
                    assert(decreases_to!(*g => g.g->0));
                    assert(decreases_to!(g.g->0 => g.g->0@));
                    assert(decreases_to!(g.g->0@ => g.g->0@[i as int]));
                    assert(decreases_to!(*g => subgroup@[i as int]));
                }
                Self::extract_subpaths_impl(&subgroup[i], paths_so_far);
                proof {
                    assert(subgroup@.subrange(0, i as int).push(subgroup@[i as int])
                        =~= subgroup@.subrange(0, i + 1));
                    lemma_flat_groups_push(subgroup@.subrange(0, i as int), subgroup@[i as int]);
                }
                i += 1;
            }
            proof {
                assert(subgroup@.subrange(0, subgroup@.len() as int) =~= subgroup@);
            }
        }
    }
}

/// Every character of a decimal token is a sign, digit, or dot.
proof fn lemma_decimal_chars(s: Seq<char>)
    requires
        is_decimal_token(s),
    ensures
        forall|i: int| 0 <= i < s.len() ==> s[i] == '-' || is_ascii_digit(s[i]) || s[i] == '.',
{
    let t = if s.len() > 0 && s[0] == '-' {
        s.subrange(1, s.len() as int)
    } else {
        s
    };
    assert forall|i: int| 0 <= i < s.len() implies s[i] == '-' || is_ascii_digit(s[i]) || s[i]
        == '.' by {
        if s[0] == '-' {
            if i > 0 {
                assert(t[i - 1] == s[i]);
            }
        } else {
            assert(t[i] == s[i]);
        }
    }
}

/// The extractor reads back exactly the coordinates a path description was
/// assembled from: for a description of the form move command, x, `,`, y,
/// rest — with x and y decimal tokens and rest either empty or starting
/// with a curve command letter or space — the start coordinate is (x, y).
pub proof fn lemma_extract_start_point(x: Seq<char>, y: Seq<char>, rest: Seq<char>)
    requires
        is_decimal_token(x),
        is_decimal_token(y),
        rest.len() > 0 ==> is_break_char(rest[0]),
    ensures
        path_wf(seq!['M'] + x + seq![','] + y + rest),
        path_x(seq!['M'] + x + seq![','] + y + rest) == x,
        path_y(seq!['M'] + x + seq![','] + y + rest) == y,
{
    let d = seq!['M'] + x + seq![','] + y + rest;
    let xn = x.len() as int;
    let yn = y.len() as int;
    lemma_decimal_chars(x);
    lemma_decimal_chars(y);
    assert(d.len() == 2 + xn + yn + rest.len());
    assert(d[0] == 'M');
    assert forall|i: int| 0 <= i < xn implies d[1 + i] == x[i] by {}
    assert(d[1 + xn] == ',');
    assert forall|i: int| 0 <= i < yn implies d[2 + xn + i] == y[i] by {}
    assert forall|i: int| 0 <= i < rest.len() implies d[2 + xn + yn + i] == rest[i] by {}

    lemma_idx_of_comma(d);
    let ci = idx_of_comma(d);
    assert(x.len() > 0);
    assert forall|j: int| 0 <= j < 1 + xn implies d[j] != ',' by {
        if j > 0 {
            assert(d[j] == x[j - 1]);
        }
    }
    assert(ci == 1 + xn);
    assert(path_x(d) =~= x);

    let rest_of = d.subrange(ci + 1, d.len() as int);
    assert(rest_of =~= y + rest);
    lemma_idx_of_comma(rest_of);
    let m = idx_of_comma(rest_of);
    assert forall|j: int| 0 <= j < yn implies rest_of[j] != ',' by {
        assert(rest_of[j] == y[j]);
    }
    assert(m >= yn);
    let second = second_token(d);
    assert(second =~= rest_of.subrange(0, m));
    lemma_idx_of_break(second);
    let b = idx_of_break(second);
    assert(b >= yn) by {
        if b < yn {
            assert(second[b] == y[b]);
            assert(is_break_char(y[b]));
        }
    }
    assert(b <= yn) by {
        if m > yn {
            assert(rest.len() > 0);
            assert(second[yn] == rest[0]);
            assert(is_break_char(second[yn]));
        }
    }
    assert(path_y(d) =~= y);
    assert(path_wf(d));
}

} // verus!
