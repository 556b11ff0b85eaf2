use vstd::prelude::*;

verus! {

//==============================================================================================
//        Ordered lists of named entries
//==============================================================================================

/// The keys of an ordered list of named entries, in order.
pub open spec fn entry_keys<V>(m: Seq<(String, V)>) -> Seq<Seq<char>> {
    m.map_values(|e: (String, V)| e.0@)
}

/// `i` is the first position of `k` in `keys`.
pub open spec fn is_first_at(keys: Seq<Seq<char>>, k: Seq<char>, i: int) -> bool {
    &&& 0 <= i < keys.len()
    &&& keys[i] == k
    &&& forall|j: int| 0 <= j < i ==> keys[j] != k
}

/// The first position of `k` in `keys` (meaningful when `keys.contains(k)`).
pub open spec fn first_at(keys: Seq<Seq<char>>, k: Seq<char>) -> int {
    choose|i: int| is_first_at(keys, k, i)
}

/// No key occurs twice.
pub open spec fn distinct_keys(keys: Seq<Seq<char>>) -> bool {
    forall|i: int, j: int| 0 <= i < j < keys.len() ==> keys[i] != keys[j]
}

/// Inserting `(k, v)` into an ordered map: the entry under `k` takes the new value in its
/// place, or the pair goes last when `k` is new.
pub open spec fn insert_ordered<V>(m: Seq<(Seq<char>, V)>, k: Seq<char>, v: V) -> Seq<(Seq<char>, V)> {
    let keys = m.map_values(|e: (Seq<char>, V)| e.0);
    if keys.contains(k) {
        m.update(first_at(keys, k), (k, v))
    } else {
        m.push((k, v))
    }
}

/// The value under `k`, if any.
pub open spec fn value_under<V>(m: Seq<(Seq<char>, V)>, k: Seq<char>) -> Option<V> {
    let keys = m.map_values(|e: (Seq<char>, V)| e.0);
    if keys.contains(k) {
        Some(m[first_at(keys, k)].1)
    } else {
        None
    }
}

pub proof fn lemma_first_at(keys: Seq<Seq<char>>, k: Seq<char>, i: int)
    requires
        0 <= i < keys.len(),
        keys[i] == k,
    ensures
        keys.contains(k),
        is_first_at(keys, k, first_at(keys, k)),
        first_at(keys, k) <= i,
    decreases i,
{
    if exists|j: int| 0 <= j < i && keys[j] == k {
        let j = choose|j: int| 0 <= j < i && keys[j] == k;
        lemma_first_at(keys, k, j);
    } else {
        assert(is_first_at(keys, k, i));
    }
}

pub proof fn lemma_first_at_unique(keys: Seq<Seq<char>>, k: Seq<char>, i: int)
    requires
        is_first_at(keys, k, i),
    ensures
        first_at(keys, k) == i,
{
    lemma_first_at(keys, k, i);
    let f = first_at(keys, k);
    if f < i {
        assert(keys[f] != k);
    } else if i < f {
        assert(keys[i] != k);
    }
}

/// Where `key` is in `m`.
pub fn find_key<V>(m: &Vec<(String, V)>, key: &str) -> (r: Option<usize>)
    ensures
        r is None <==> !entry_keys(m@).contains(key@),
        r is Some ==> is_first_at(entry_keys(m@), key@, r->0 as int),
        r is Some ==> first_at(entry_keys(m@), key@) == r->0,
{
    let owned = key.to_owned();
    let mut i: usize = 0;
    while i < m.len()
        invariant
            0 <= i <= m@.len(),
            owned@ == key@,
            forall|j: int| 0 <= j < i ==> entry_keys(m@)[j] != key@,
        decreases m@.len() - i,
    {
        if m[i].0 == owned {
            proof {
                assert(is_first_at(entry_keys(m@), key@, i as int));
                lemma_first_at_unique(entry_keys(m@), key@, i as int);
            }
            return Some(i);
        }
        assert(entry_keys(m@)[i as int] != key@);
        i = i + 1;
    }
    proof {
        if entry_keys(m@).contains(key@) {
            let j = choose|j: int| 0 <= j < entry_keys(m@).len() && entry_keys(m@)[j] == key@;
            assert(entry_keys(m@)[j] != key@);
        }
    }
    None
}

/// Inserting into an ordered map (the steps of a constructor, the entries of an input, the
/// files a Lua state remembers) never makes a key appear twice: a key already present keeps
/// its one place.
pub proof fn law_insert_keeps_keys_distinct<V>(m: Seq<(Seq<char>, V)>, k: Seq<char>, v: V)
    requires
        distinct_keys(m.map_values(|e: (Seq<char>, V)| e.0)),
    ensures
        distinct_keys(insert_ordered(m, k, v).map_values(|e: (Seq<char>, V)| e.0)),
{
    let keys = m.map_values(|e: (Seq<char>, V)| e.0);
    let r = insert_ordered(m, k, v);
    let rk = r.map_values(|e: (Seq<char>, V)| e.0);
    if keys.contains(k) {
        let f = first_at(keys, k);
        let j0 = choose|j: int| 0 <= j < keys.len() && keys[j] == k;
        lemma_first_at(keys, k, j0);
        assert(rk =~= keys);
    } else {
        assert(rk =~= keys.push(k));
        assert forall|i: int, j: int| 0 <= i < j < rk.len() implies rk[i] != rk[j] by {
            if j == keys.len() {
                assert(keys[i] != k);
            }
        }
    }
}

/// Reading a key of an ordered map right after inserting it gives the value inserted.
pub proof fn law_read_after_insert<V>(m: Seq<(Seq<char>, V)>, k: Seq<char>, v: V)
    ensures
        value_under(insert_ordered(m, k, v), k) == Some(v),
{
    let keys = m.map_values(|e: (Seq<char>, V)| e.0);
    let r = insert_ordered(m, k, v);
    let rk = r.map_values(|e: (Seq<char>, V)| e.0);
    if keys.contains(k) {
        let j0 = choose|j: int| 0 <= j < keys.len() && keys[j] == k;
        lemma_first_at(keys, k, j0);
        let f = first_at(keys, k);
        assert(rk =~= keys);
        lemma_first_at_unique(rk, k, f);
    } else {
        assert(rk =~= keys.push(k));
        assert forall|j: int| 0 <= j < keys.len() implies rk[j] != k by {
            assert(rk[j] == keys[j]);
        }
        assert(is_first_at(rk, k, keys.len() as int));
        lemma_first_at_unique(rk, k, keys.len() as int);
    }
}

} // verus!

verus! {

//==============================================================================================
//        Lists of texts kept free of repeats
//==============================================================================================

pub open spec fn text_views(v: Seq<String>) -> Seq<Seq<char>> {
    v.map_values(|s: String| s@)
}

/// `s` with `t` added at the end, unless it is there already.
pub open spec fn push_new(s: Seq<Seq<char>>, t: Seq<char>) -> Seq<Seq<char>> {
    if s.contains(t) {
        s
    } else {
        s.push(t)
    }
}

/// Whether `t` is among `v`.
pub fn contains_text(v: &Vec<String>, t: &str) -> (r: bool)
    ensures
        r == text_views(v@).contains(t@),
{
    let owned = t.to_owned();
    let mut i: usize = 0;
    while i < v.len()
        invariant
            0 <= i <= v@.len(),
            owned@ == t@,
            forall|j: int| 0 <= j < i ==> v@[j]@ != t@,
        decreases v@.len() - i,
    {
        if v[i] == owned {
            proof {
                assert(text_views(v@)[i as int] == t@);
            }
            return true;
        }
        i = i + 1;
    }
    proof {
        if text_views(v@).contains(t@) {
            let j = choose|j: int| 0 <= j < text_views(v@).len() && text_views(v@)[j] == t@;
            assert(v@[j]@ == t@);
        }
    }
    false
}

/// Adds `t` at the end of `v` unless it is there already.
pub fn push_new_text(v: &mut Vec<String>, t: String)
    ensures
        text_views(final(v)@) == push_new(text_views(old(v)@), t@),
{
    if !contains_text(v, t.as_str()) {
        let ghost before = v@;
        v.push(t);
        proof {
            assert(text_views(v@) =~= text_views(before).push(t@));
        }
    }
}

} // verus!

verus! {

/// Adding a text with `push_new` never makes one occur twice.
pub proof fn lemma_push_new_distinct(s: Seq<Seq<char>>, t: Seq<char>)
    requires
        distinct_keys(s),
    ensures
        distinct_keys(push_new(s, t)),
        push_new(s, t).contains(t),
{
    if !s.contains(t) {
        let r = s.push(t);
        assert forall|i: int, j: int| 0 <= i < j < r.len() implies r[i] != r[j] by {
            if j == s.len() {
                assert(s[i] != t);
            }
        }
        assert(r[s.len() as int] == t);
    }
}

} // verus!
