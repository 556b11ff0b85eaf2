use vstd::prelude::*;
use vstd::multiset::Multiset;
use vstd::string::StrSliceExecFns;

use crate::lua::util::{IndexKey, LuaTableIndex};

verus! {

broadcast use vstd::seq_lib::group_to_multiset_ensures, vstd::multiset::group_multiset_axioms;

//==============================================================================================
//        Order of table keys
//==============================================================================================

/// `a` comes before `b` in the order of texts by character, as Rust orders `String`s.
pub open spec fn text_lt(a: Seq<char>, b: Seq<char>) -> bool
    decreases a.len(),
{
    if a.len() == 0 {
        b.len() > 0
    } else if b.len() == 0 {
        false
    } else if a[0] != b[0] {
        (a[0] as u32) < (b[0] as u32)
    } else {
        text_lt(a.drop_first(), b.drop_first())
    }
}

/// `a` comes before `b`: integers first, by value, then texts, in text order.
pub open spec fn key_lt(a: IndexKey, b: IndexKey) -> bool {
    match (a, b) {
        (IndexKey::Integer(x), IndexKey::Integer(y)) => x < y,
        (IndexKey::Integer(_), IndexKey::String(_)) => true,
        (IndexKey::String(_), IndexKey::Integer(_)) => false,
        (IndexKey::String(x), IndexKey::String(y)) => text_lt(x, y),
    }
}

/// Each key is not before the one ahead of it.
pub open spec fn keys_in_order<V>(s: Seq<(LuaTableIndex, V)>) -> bool {
    forall|i: int| 0 <= i < s.len() - 1 ==> !key_lt(#[trigger] s[i + 1].0@, s[i].0@)
}

/// The order of texts is total: of two different texts, one comes before the other.
pub proof fn law_text_order_total(a: Seq<char>, b: Seq<char>)
    requires
        a != b,
    ensures
        text_lt(a, b) || text_lt(b, a),
    decreases a.len(),
{
    if a.len() == 0 && b.len() == 0 {
        assert(a =~= b);
    }
    if a.len() > 0 && b.len() > 0 && a[0] != b[0] {
        vstd::utf8::char_u32_cast(a[0], a[0] as u32);
        vstd::utf8::char_u32_cast(b[0], b[0] as u32);
    }
    if a.len() > 0 && b.len() > 0 && a[0] == b[0] {
        if a.drop_first() == b.drop_first() {
            assert(a =~= seq![a[0]] + a.drop_first());
            assert(b =~= seq![b[0]] + b.drop_first());
        }
        law_text_order_total(a.drop_first(), b.drop_first());
    }
}

/// The order of texts is transitive.
pub proof fn law_text_order_transitive(a: Seq<char>, b: Seq<char>, c: Seq<char>)
    requires
        text_lt(a, b),
        text_lt(b, c),
    ensures
        text_lt(a, c),
    decreases a.len(),
{
    if a.len() > 0 && b.len() > 0 && c.len() > 0 && a[0] == b[0] && b[0] == c[0] {
        law_text_order_transitive(a.drop_first(), b.drop_first(), c.drop_first());
    }
}

/// A text comes before every longer text that starts with it.
pub proof fn law_text_before_its_extensions(a: Seq<char>, x: Seq<char>)
    requires
        x.len() > 0,
    ensures
        text_lt(a, a + x),
    decreases a.len(),
{
    if a.len() > 0 {
        assert((a + x)[0] == a[0]);
        assert((a + x).drop_first() =~= a.drop_first() + x);
        law_text_before_its_extensions(a.drop_first(), x);
    }
}

/// The order of keys is total and transitive: of two different keys one comes first, and
/// it never goes both ways.
pub proof fn law_key_order(a: IndexKey, b: IndexKey, c: IndexKey)
    ensures
        a != b ==> key_lt(a, b) || key_lt(b, a),
        key_lt(a, b) ==> !key_lt(b, a),
        key_lt(a, b) && key_lt(b, c) ==> key_lt(a, c),
{
    match (a, b) {
        (IndexKey::String(x), IndexKey::String(y)) => {
            if x != y {
                law_text_order_total(x, y);
            }
            lemma_text_lt_asymmetric(x, y);
        },
        _ => {},
    }
    match (a, b, c) {
        (IndexKey::String(x), IndexKey::String(y), IndexKey::String(z)) => {
            if text_lt(x, y) && text_lt(y, z) {
                law_text_order_transitive(x, y, z);
            }
        },
        _ => {},
    }
}

/// Entries in key order whose keys are all different stand in strictly ascending order:
/// each key comes before every key after it.
pub proof fn law_sorted_keys_ascend<V>(s: Seq<(LuaTableIndex, V)>, i: int, j: int)
    requires
        keys_in_order(s),
        forall|a: int, b: int| 0 <= a < b < s.len() ==> s[a].0@ != s[b].0@,
        0 <= i < j < s.len(),
    ensures
        key_lt(s[i].0@, s[j].0@),
    decreases j - i,
{
    let k = j - 1;
    assert(!key_lt(s[k + 1].0@, s[k].0@));
    assert(s[k].0@ != s[j].0@);
    law_key_order(s[k].0@, s[j].0@, s[j].0@);
    if i < k {
        law_sorted_keys_ascend(s, i, k);
        law_key_order(s[i].0@, s[k].0@, s[j].0@);
    }
}

pub proof fn lemma_text_lt_asymmetric(a: Seq<char>, b: Seq<char>)
    ensures
        text_lt(a, b) ==> !text_lt(b, a),
    decreases a.len(),
{
    if a.len() > 0 && b.len() > 0 && a[0] == b[0] {
        lemma_text_lt_asymmetric(a.drop_first(), b.drop_first());
    }
}

fn text_less(a: &str, b: &str) -> (r: bool)
    ensures
        r == text_lt(a@, b@),
{
    let n = a.unicode_len();
    let m = b.unicode_len();
    let mut i: usize = 0;
    proof {
        assert(a@.skip(0) =~= a@);
        assert(b@.skip(0) =~= b@);
    }
    while i < n && i < m
        invariant
            n == a@.len(),
            m == b@.len(),
            0 <= i <= n,
            i <= m,
            text_lt(a@, b@) == text_lt(a@.skip(i as int), b@.skip(i as int)),
        decreases n - i,
    {
        let x = a.get_char(i);
        let y = b.get_char(i);
        assert(a@.skip(i as int)[0] == x);
        assert(b@.skip(i as int)[0] == y);
        if x != y {
            return (x as u32) < (y as u32);
        }
        assert(a@.skip(i as int).drop_first() =~= a@.skip(i + 1));
        assert(b@.skip(i as int).drop_first() =~= b@.skip(i + 1));
        i = i + 1;
    }
    i == n && i < m
}

fn key_less(a: &LuaTableIndex, b: &LuaTableIndex) -> (r: bool)
    ensures
        r == key_lt(a@, b@),
{
    match (a, b) {
        (LuaTableIndex::Integer(x), LuaTableIndex::Integer(y)) => *x < *y,
        (LuaTableIndex::Integer(_), LuaTableIndex::String(_)) => true,
        (LuaTableIndex::String(_), LuaTableIndex::Integer(_)) => false,
        (LuaTableIndex::String(x), LuaTableIndex::String(y)) => text_less(x.as_str(), y.as_str()),
    }
}

//==============================================================================================
//        LuaIter
//==============================================================================================

/// The entries of a Lua table, ordered by key, that a chain of `map`, `filter`, `any` and
/// `collect` calls works through. The callbacks are run by the Lua side; this keeps the
/// entries.
pub struct LuaIter<V> {
    map: Vec<(LuaTableIndex, V)>,
}

/// `s` with its integer keys numbered 1, 2, ... in order, counting on from `next`.
pub open spec fn renumbered<V>(s: Seq<(LuaTableIndex, V)>, next: int) -> Seq<IndexKey>
    decreases s.len(),
{
    if s.len() == 0 {
        Seq::empty()
    } else {
        match s[0].0@ {
            IndexKey::Integer(_) => seq![IndexKey::Integer(next as i64)] + renumbered(s.drop_first(), next + 1),
            IndexKey::String(t) => seq![IndexKey::String(t)] + renumbered(s.drop_first(), next),
        }
    }
}

pub open spec fn entry_keys_of<V>(s: Seq<(LuaTableIndex, V)>) -> Seq<IndexKey> {
    s.map_values(|e: (LuaTableIndex, V)| e.0@)
}

pub open spec fn entry_values_of<V>(s: Seq<(LuaTableIndex, V)>) -> Seq<V> {
    s.map_values(|e: (LuaTableIndex, V)| e.1)
}

impl<V> LuaIter<V> {
    pub closed spec fn entries(&self) -> Seq<(LuaTableIndex, V)> {
        self.map@
    }

    /// The entries of a table, sorted by key.
    pub fn new(entries: Vec<(LuaTableIndex, V)>) -> (r: LuaIter<V>)
        ensures
            r.entries().to_multiset() == entries@.to_multiset(),
            keys_in_order(r.entries()),
    {
        let mut iter = LuaIter { map: entries };
        iter.sort();
        iter
    }

    pub fn entries_ref(&self) -> (r: &Vec<(LuaTableIndex, V)>)
        ensures
            r@ == self.entries(),
    {
        &self.map
    }

    /// The entries, to be changed in place, as `map` does with the values.
    pub fn entries_mut(&mut self) -> (r: &mut Vec<(LuaTableIndex, V)>)
        ensures
            r@ == old(self).entries(),
            final(self).entries() == final(r)@,
    {
        &mut self.map
    }

    pub fn into_entries(self) -> (r: Vec<(LuaTableIndex, V)>)
        ensures
            r@ == self.entries(),
    {
        self.map
    }

    /// Orders the entries by key: integers first, by value, then texts.
    pub fn sort(&mut self)
        ensures
            final(self).entries().to_multiset() == old(self).entries().to_multiset(),
            keys_in_order(final(self).entries()),
    {
        let mut rest = Vec::new();
        std::mem::swap(&mut rest, &mut self.map);
        let ghost all = rest@;
        let mut out: Vec<(LuaTableIndex, V)> = Vec::new();
        proof {
            assert(out@.to_multiset() =~= Multiset::empty());
            assert(out@.to_multiset().add(rest@.to_multiset()) =~= all.to_multiset());
        }
        while rest.len() > 0
            invariant
                out@.to_multiset().add(rest@.to_multiset()) == all.to_multiset(),
                keys_in_order(out@),
            decreases rest@.len(),
        {
            let ghost before_rest = rest@;
            let x = rest.pop().unwrap();
            proof {
                assert(before_rest =~= rest@.push(x));
            }
            let mut p: usize = 0;
            while p < out.len() && !key_less(&x.0, &out[p].0)
                invariant
                    0 <= p <= out@.len(),
                    forall|j: int| 0 <= j < p ==> !key_lt(x.0@, #[trigger] out@[j].0@),
                decreases out@.len() - p,
            {
                p = p + 1;
            }
            let ghost before = out@;
            proof {
                if p < out.len() {
                    assert(key_lt(x.0@, before[p as int].0@));
                    match (x.0@, before[p as int].0@) {
                        (IndexKey::String(a), IndexKey::String(b)) => lemma_text_lt_asymmetric(a, b),
                        _ => {},
                    }
                    assert(!key_lt(before[p as int].0@, x.0@));
                }
                if p > 0 {
                    assert(!key_lt(x.0@, before[p - 1].0@));
                }
            }
            out.insert(p, x);
            proof {
                assert(out@.len() == before.len() + 1);
                assert forall|i: int| 0 <= i < out@.len() - 1 implies !key_lt(#[trigger] out@[i + 1].0@, out@[i].0@) by {
                    if i + 1 < p {
                        assert(out@[i] == before[i] && out@[i + 1] == before[i + 1]);
                    } else if i + 1 == p {
                        assert(out@[i] == before[i]);
                        assert(out@[i + 1] == x);
                    } else if i == p {
                        assert(out@[i] == x);
                        assert(out@[i + 1] == before[i]);
                    } else {
                        let k = i - 1;
                        assert(out@[i] == before[k] && out@[i + 1] == before[k + 1]);
                        assert(!key_lt(before[k + 1].0@, before[k].0@));
                    }
                }
                assert(out@.to_multiset() =~= before.to_multiset().insert(x));
                assert(before_rest.to_multiset() =~= rest@.to_multiset().insert(x));
                assert(out@.to_multiset().add(rest@.to_multiset()) =~= all.to_multiset());
            }
        }
        proof {
            assert(rest@.to_multiset() =~= Multiset::empty());
            assert(out@.to_multiset() =~= all.to_multiset());
        }
        self.map = out;
    }

    /// Numbers the integer keys 1, 2, ... in the order of the entries; text keys stay.
    pub fn normalize(&mut self)
        requires
            old(self).entries().len() < i64::MAX,
        ensures
            entry_keys_of(final(self).entries()) == renumbered(old(self).entries(), 1),
            entry_values_of(final(self).entries()) == entry_values_of(old(self).entries()),
    {
        let ghost all = self.map@;
        let n = self.map.len();
        let mut current: i64 = 1;
        let mut k: usize = 0;
        proof {
            assert(all.skip(0) =~= all);
            assert(entry_keys_of(self.map@).take(0) =~= Seq::<IndexKey>::empty());
        }
        while k < n
            invariant
                n == all.len(),
                n < i64::MAX,
                0 <= k <= n,
                self.map@.len() == n,
                1 <= current <= k + 1,
                entry_keys_of(self.map@).take(k as int) + renumbered(all.skip(k as int), current as int)
                    == renumbered(all, 1),
                forall|j: int| k <= j < n ==> #[trigger] self.map@[j] == all[j],
                entry_values_of(self.map@) == entry_values_of(all),
            decreases n - k,
        {
            proof {
                assert(all.skip(k as int)[0] == all[k as int]);
                assert(all.skip(k as int).drop_first() =~= all.skip(k + 1));
            }
            if self.map[k].0.is_integer() {
                let ghost before = self.map@;
                let entry = &mut self.map[k];
                entry.0 = LuaTableIndex::Integer(current);
                proof {
                    assert(entry_keys_of(self.map@).take(k + 1) =~= entry_keys_of(before).take(k as int).push(
                        IndexKey::Integer(current),
                    ));
                    assert(entry_values_of(self.map@) =~= entry_values_of(before));
                }
                current = current + 1;
            } else {
                proof {
                    assert(entry_keys_of(self.map@).take(k + 1) =~= entry_keys_of(self.map@).take(k as int).push(
                        self.map@[k as int].0@,
                    ));
                }
            }
            k = k + 1;
        }
        proof {
            assert(all.skip(n as int) =~= Seq::<(LuaTableIndex, V)>::empty());
            assert(entry_keys_of(self.map@).take(n as int) =~= entry_keys_of(self.map@));
        }
    }

    /// Keeps the entries whose value the filter's callback accepted (`keep` holds its answer
    /// for each entry, in order), then numbers the integer keys afresh.
    pub fn filter(&mut self, keep: &Vec<bool>)
        requires
            keep@.len() == old(self).entries().len(),
            old(self).entries().len() < i64::MAX,
        ensures
            entry_keys_of(final(self).entries()) == renumbered(kept(old(self).entries(), keep@), 1),
            entry_values_of(final(self).entries()) == entry_values_of(kept(old(self).entries(), keep@)),
    {
        let mut rest = Vec::new();
        std::mem::swap(&mut rest, &mut self.map);
        let ghost all = rest@;
        let mut rev: Vec<(LuaTableIndex, V)> = Vec::new();
        let mut k: usize = rest.len();
        while k > 0
            invariant
                all.len() == keep@.len(),
                k == rest@.len(),
                k <= all.len(),
                rest@ == all.take(k as int),
                rev@ == kept(all.skip(k as int), keep@.skip(k as int)).reverse(),
            decreases k,
        {
            let x = rest.pop().unwrap();
            k = k - 1;
            proof {
                assert(all.skip(k as int).drop_first() =~= all.skip(k + 1));
                assert(keep@.skip(k as int).drop_first() =~= keep@.skip(k + 1));
                assert(all.skip(k as int)[0] == x);
                assert(rest@ =~= all.take(k as int));
            }
            if keep[k] {
                let ghost before = rev@;
                rev.push(x);
                proof {
                    assert(rev@ =~= (seq![x] + kept(all.skip(k + 1), keep@.skip(k + 1))).reverse());
                }
            }
        }
        let mut out: Vec<(LuaTableIndex, V)> = Vec::new();
        let ghost target = kept(all, keep@);
        proof {
            assert(all.skip(0) =~= all);
            assert(keep@.skip(0) =~= keep@);
        }
        while rev.len() > 0
            invariant
                out@ + rev@.reverse() == target,
            decreases rev@.len(),
        {
            let ghost before_rev = rev@;
            let x = rev.pop().unwrap();
            proof {
                assert(before_rev =~= rev@.push(x));
                assert(before_rev.reverse() =~= seq![x] + rev@.reverse());
                assert(out@.push(x) + rev@.reverse() =~= out@ + before_rev.reverse());
            }
            out.push(x);
        }
        proof {
            assert(out@ =~= target);
            lemma_kept_len(all, keep@);
        }
        self.map = out;
        self.normalize();
    }
}

pub proof fn lemma_kept_len<V>(s: Seq<(LuaTableIndex, V)>, keep: Seq<bool>)
    ensures
        kept(s, keep).len() <= s.len(),
    decreases s.len(),
{
    if s.len() > 0 && keep.len() > 0 {
        lemma_kept_len(s.drop_first(), keep.drop_first());
    }
}

/// The entries of `s` whose flag in `keep` is set, in order.
pub open spec fn kept<V>(s: Seq<(LuaTableIndex, V)>, keep: Seq<bool>) -> Seq<(LuaTableIndex, V)>
    decreases s.len(),
{
    if s.len() == 0 || keep.len() == 0 {
        Seq::empty()
    } else if keep[0] {
        seq![s[0]] + kept(s.drop_first(), keep.drop_first())
    } else {
        kept(s.drop_first(), keep.drop_first())
    }
}

} // verus!
