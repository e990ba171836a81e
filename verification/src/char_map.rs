//! A small ordered map from character to value, held as a vector of pairs
//! strictly ascending by character code point. Lookups are exact, inserts
//! keep the order with last write winning, and iteration over the pair list
//! is deterministic.

use vstd::prelude::*;

verus! {

/// The map a pair list denotes, later pairs overwriting earlier ones.
pub open spec fn pairs_map<V: View>(s: Seq<(char, V)>) -> Map<char, V::V>
    decreases s.len(),
{
    if s.len() == 0 {
        Map::empty()
    } else {
        pairs_map(s.drop_last()).insert(s.last().0, s.last().1@)
    }
}

/// Keys strictly ascending by code point.
pub open spec fn keys_sorted<V>(s: Seq<(char, V)>) -> bool {
    forall|i: int, j: int| 0 <= i < j < s.len() ==> (s[i].0) < (s[j].0)
}

/// A key is in the denoted map exactly when some pair carries it, and, for
/// sorted (hence unique) keys, it maps to that pair's value.
pub proof fn lemma_pairs_map<V: View>(s: Seq<(char, V)>)
    ensures
        forall|c: char|
            #[trigger] pairs_map(s).contains_key(c) <==> (exists|i: int|
                0 <= i < s.len() && s[i].0 == c),
        keys_sorted(s) ==> forall|i: int|
            0 <= i < s.len() ==> pairs_map(s).contains_key(#[trigger] s[i].0) && pairs_map(
                s,
            )[s[i].0] == s[i].1@,
    decreases s.len(),
{
    if s.len() == 0 {
    } else {
        let pre = s.drop_last();
        lemma_pairs_map(pre);
        assert forall|c: char| #[trigger]
            pairs_map(s).contains_key(c) implies (exists|i: int|
            0 <= i < s.len() && s[i].0 == c) by {
            if c == s.last().0 {
                assert(s[s.len() - 1].0 == c);
            } else {
                assert(pairs_map(pre).contains_key(c));
                let i = choose|i: int| 0 <= i < pre.len() && pre[i].0 == c;
                assert(s[i].0 == c);
            }
        }
        assert forall|c: char|
            (exists|i: int| 0 <= i < s.len() && s[i].0 == c) implies #[trigger] pairs_map(
            s,
        ).contains_key(c) by {
            let i = choose|i: int| 0 <= i < s.len() && s[i].0 == c;
            if i < s.len() - 1 {
                assert(pre[i].0 == c);
                assert(pairs_map(pre).contains_key(c));
            }
        }
        if keys_sorted(s) {
            assert forall|i: int, j: int| 0 <= i < j < pre.len() implies (pre[i].0) < (
            pre[j].0) by {
                assert(pre[i] == s[i]);
                assert(pre[j] == s[j]);
            }
            assert forall|i: int| 0 <= i < s.len() implies pairs_map(s).contains_key(
                #[trigger] s[i].0,
            ) && pairs_map(s)[s[i].0] == s[i].1@ by {
                if i < s.len() - 1 {
                    assert(pre[i] == s[i]);
                    assert((s[i].0) < (s.last().0));
                    assert(s[i].0 != s.last().0);
                }
            }
        }
    }
}

/// Inserting a pair at its sorted position inserts its binding.
proof fn lemma_pairs_map_insert_at<V: View>(s: Seq<(char, V)>, idx: int, c: char, v: V)
    requires
        0 <= idx <= s.len(),
        forall|j: int| 0 <= j < idx ==> (#[trigger] s[j].0) < c,
        forall|j: int| idx <= j < s.len() ==> (#[trigger] s[j].0) > c,
    ensures
        pairs_map(s.insert(idx, (c, v))) == pairs_map(s).insert(c, v@),
    decreases s.len(),
{
    let t = s.insert(idx, (c, v));
    if idx == s.len() {
        assert(t =~= s.push((c, v)));
        assert(t.drop_last() =~= s);
        assert(pairs_map(t) == pairs_map(s).insert(c, v@));
    } else {
        let pre = s.drop_last();
        assert(t.len() == s.len() + 1);
        assert(t.last() == s.last());
        assert(t.drop_last() =~= pre.insert(idx, (c, v)));
        assert forall|j: int| 0 <= j < idx implies (#[trigger] pre[j].0) < c by {
            assert(pre[j] == s[j]);
        }
        assert forall|j: int| idx <= j < pre.len() implies (#[trigger] pre[j].0)
            > c by {
            assert(pre[j] == s[j]);
        }
        lemma_pairs_map_insert_at(pre, idx, c, v);
        assert((s.last().0) > c);
        assert(s.last().0 != c);
        assert(pairs_map(t) == pairs_map(pre).insert(c, v@).insert(s.last().0, s.last().1@));
        assert(pairs_map(pre).insert(c, v@).insert(s.last().0, s.last().1@) =~= pairs_map(
            pre,
        ).insert(s.last().0, s.last().1@).insert(c, v@));
        assert(pairs_map(t) == pairs_map(s).insert(c, v@));
    }
}

/// Removing the pair that carries a unique key removes its binding.
proof fn lemma_pairs_map_remove_at<V: View>(s: Seq<(char, V)>, idx: int)
    requires
        0 <= idx < s.len(),
        keys_sorted(s),
    ensures
        pairs_map(s.remove(idx)) == pairs_map(s).remove(s[idx].0),
    decreases s.len(),
{
    let c = s[idx].0;
    let t = s.remove(idx);
    let pre = s.drop_last();
    assert forall|i: int, j: int| 0 <= i < j < pre.len() implies (pre[i].0) < (
    pre[j].0) by {
        assert(pre[i] == s[i]);
        assert(pre[j] == s[j]);
    }
    if idx == s.len() - 1 {
        assert(t =~= pre);
        lemma_pairs_map(pre);
        assert forall|i: int| 0 <= i < pre.len() implies pre[i].0 != c by {
            assert(pre[i] == s[i]);
            assert((s[i].0) < (c));
        }
        assert(!pairs_map(pre).contains_key(c));
        assert(pairs_map(s).remove(c) =~= pairs_map(pre).insert(c, s.last().1@).remove(c));
        assert(pairs_map(pre).insert(c, s.last().1@).remove(c) =~= pairs_map(pre).remove(c));
        assert(pairs_map(pre).remove(c) =~= pairs_map(pre));
    } else {
        assert(t.len() == s.len() - 1);
        assert(t.last() == s.last());
        assert(t.drop_last() =~= pre.remove(idx));
        assert(pre[idx] == s[idx]);
        lemma_pairs_map_remove_at(pre, idx);
        assert((c) < (s.last().0));
        assert(s.last().0 != c);
        assert(pairs_map(t) == pairs_map(pre).remove(c).insert(s.last().0, s.last().1@));
        assert(pairs_map(pre).remove(c).insert(s.last().0, s.last().1@) =~= pairs_map(pre).insert(
            s.last().0,
            s.last().1@,
        ).remove(c));
        assert(pairs_map(t) == pairs_map(s).remove(c));
    }
}

/// An ordered map from character to value.
#[derive(Debug)]
pub struct CharKeyMap<V> {
    entries: Vec<(char, V)>,
}

impl<V: View> View for CharKeyMap<V> {
    type V = Map<char, V::V>;

    closed spec fn view(&self) -> Map<char, V::V> {
        pairs_map(self.entries@)
    }
}

impl<V: View> CharKeyMap<V> {
    /// The underlying pair list, ascending by key when well formed.
    pub closed spec fn entry_seq(&self) -> Seq<(char, V)> {
        self.entries@
    }

    /// Well-formed: keys strictly ascending by code point, hence unique.
    pub open spec fn wf(&self) -> bool {
        keys_sorted(self.entry_seq())
    }

    pub fn new() -> (r: Self)
        ensures
            r.wf(),
            r@ == Map::<char, V::V>::empty(),
            r.entry_seq() == Seq::<(char, V)>::empty(),
    {
        CharKeyMap { entries: Vec::new() }
    }

    pub fn len(&self) -> (r: usize)
        ensures
            r == self.entry_seq().len(),
    {
        self.entries.len()
    }

    pub fn entry_at(&self, i: usize) -> (r: &(char, V))
        requires
            i < self.entry_seq().len(),
        ensures
            *r == self.entry_seq()[i as int],
    {
        &self.entries[i]
    }

    /// The value stored under `c`, if any.
    pub fn get(&self, c: char) -> (r: Option<&V>)
        requires
            self.wf(),
        ensures
            r is Some <==> self@.contains_key(c),
            r is Some ==> r->0@ == self@[c],
    {
        let n = self.entries.len();
        let mut i: usize = 0;
        while i < n
            invariant
                0 <= i <= n,
                n == self.entries@.len(),
                self.wf(),
                forall|j: int| 0 <= j < i ==> (#[trigger] self.entries@[j].0) != c,
            decreases n - i,
        {
            let e = &self.entries[i];
            if e.0 == c {
                proof {
                    lemma_pairs_map(self.entries@);
                }
                return Some(&e.1);
            }
            i += 1;
        }
        proof {
            lemma_pairs_map(self.entries@);
        }
        None
    }

    /// Binds `c` to `v`, replacing any earlier binding, and keeps the pair
    /// list ascending.
    pub fn insert(&mut self, c: char, v: V)
        requires
            old(self).wf(),
        ensures
            final(self).wf(),
            final(self)@ == old(self)@.insert(c, v@),
    {
        let n = self.entries.len();
        let mut idx: usize = 0;
        while idx < n && self.entries[idx].0 < c
            invariant
                0 <= idx <= n,
                n == self.entries@.len(),
                self == old(self),
                forall|j: int| 0 <= j < idx ==> (#[trigger] self.entries@[j].0) < c,
            decreases n - idx,
        {
            idx += 1;
        }
        proof {
            assert forall|j: int| idx <= j < self.entries@.len() implies (
            #[trigger] self.entries@[j].0) >= c by {
                if j > idx {
                    assert((self.entries@[idx as int].0) < (self.entries@[j].0));
                }
            }
        }
        if idx < n && self.entries[idx].0 == c {
            let ghost before = self.entries@;
            self.entries.remove(idx);
            proof {
                lemma_pairs_map_remove_at(before, idx as int);
                assert forall|i: int, j: int|
                    0 <= i < j < self.entries@.len() implies (self.entries@[i].0) < (
                self.entries@[j].0) by {
                    assert(self.entries@[i] == if i < idx {
                        before[i]
                    } else {
                        before[i + 1]
                    });
                    assert(self.entries@[j] == if j < idx {
                        before[j]
                    } else {
                        before[j + 1]
                    });
                }
                assert forall|j: int| idx <= j < self.entries@.len() implies (
                #[trigger] self.entries@[j].0) > c by {
                    assert(self.entries@[j] == before[j + 1]);
                    assert((before[idx as int].0) < (before[j + 1].0));
                }
                assert forall|j: int| 0 <= j < idx implies (#[trigger] self.entries@[j].0)
                    < c by {
                    assert(self.entries@[j] == before[j]);
                }
                lemma_pairs_map_insert_at(self.entries@, idx as int, c, v);
            }
            let ghost removed = self.entries@;
            self.entries.insert(idx, (c, v));
            proof {
                assert(pairs_map(self.entries@) == pairs_map(removed).insert(c, v@));
                assert(pairs_map(removed) == pairs_map(before).remove(c));
                assert(pairs_map(before).remove(c).insert(c, v@) =~= pairs_map(before).insert(
                    c,
                    v@,
                ));
                assert forall|i: int, j: int|
                    0 <= i < j < self.entries@.len() implies (self.entries@[i].0) < (
                self.entries@[j].0) by {
                    assert(self.entries@[i] == if i < idx {
                        removed[i]
                    } else if i == idx {
                        (c, v)
                    } else {
                        removed[i - 1]
                    });
                    assert(self.entries@[j] == if j < idx {
                        removed[j]
                    } else if j == idx {
                        (c, v)
                    } else {
                        removed[j - 1]
                    });
                }
            }
        } else {
            let ghost before = self.entries@;
            proof {
                assert forall|j: int| idx <= j < before.len() implies (
                #[trigger] before[j].0) > c by {
                    if j == idx {
                        assert(before[j].0 != c);
                    } else {
                        assert((before[idx as int].0) < (before[j].0));
                        assert(before[idx as int].0 != c);
                    }
                }
                lemma_pairs_map_insert_at(before, idx as int, c, v);
            }
            self.entries.insert(idx, (c, v));
            proof {
                assert forall|i: int, j: int|
                    0 <= i < j < self.entries@.len() implies (self.entries@[i].0) < (
                self.entries@[j].0) by {
                    assert(self.entries@[i] == if i < idx {
                        before[i]
                    } else if i == idx {
                        (c, v)
                    } else {
                        before[i - 1]
                    });
                    assert(self.entries@[j] == if j < idx {
                        before[j]
                    } else if j == idx {
                        (c, v)
                    } else {
                        before[j - 1]
                    });
                }
            }
        }
    }
}

} // verus!
