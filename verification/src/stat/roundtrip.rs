use vstd::prelude::*;

use crate::stat::laws::{law_get_after_set, law_set_keeps_other_entries, lemma_lookup_insert_same, set_reaches};
use crate::stat::path::{path_head, path_tail};
use crate::stat::statblock::{
    FieldModel, derive_pairs, field_at, from_flat_model, has_key, lemma_tail_shorter, load_fields,
    lookup, relink_field, set_at,
};

verus! {

//==============================================================================================
//        Loading a flat list back into a block
//==============================================================================================

/// The paths `p` and `q` part ways: at some segment they name different entries, with the
/// same entries before it, so neither leads through the other.
pub open spec fn diverge(p: Seq<char>, q: Seq<char>) -> bool
    decreases p.len(),
{
    if path_head(p) != path_head(q) {
        true
    } else {
        match (path_tail(p), path_tail(q)) {
            (Some(tp), Some(tq)) => if tp.len() < p.len() {
                diverge(tp, tq)
            } else {
                false
            },
            _ => false,
        }
    }
}

/// Every two entries of a flat list have paths that part ways.
pub open spec fn paths_diverge(s: Seq<(Seq<char>, u128, FieldModel)>) -> bool {
    forall|i: int, j: int| 0 <= i < s.len() && 0 <= j < s.len() && i != j ==> diverge(#[trigger] s[i].0, #[trigger] s[j].0)
}

pub proof fn lemma_field_at_by_lookup(m1: Seq<(Seq<char>, FieldModel)>, m2: Seq<(Seq<char>, FieldModel)>, p: Seq<char>)
    requires
        lookup(m1, path_head(p)) == lookup(m2, path_head(p)),
    ensures
        field_at(m1, p) == field_at(m2, p),
{
}

pub proof fn lemma_reaches_by_lookup(m1: Seq<(Seq<char>, FieldModel)>, m2: Seq<(Seq<char>, FieldModel)>, p: Seq<char>)
    requires
        lookup(m1, path_head(p)) == lookup(m2, path_head(p)),
    ensures
        set_reaches(m1, p, true) == set_reaches(m2, p, true),
{
}

pub proof fn lemma_empty_block(p: Seq<char>)
    ensures
        field_at(Seq::empty(), p) is None,
        set_reaches(Seq::empty(), p, true),
{
    lemma_tail_shorter(p);
    assert(!has_key(Seq::<(Seq<char>, FieldModel)>::empty(), path_head(p)));
}

/// Storing at `q` leaves what a path that parts ways with it finds.
pub proof fn lemma_set_elsewhere(m: Seq<(Seq<char>, FieldModel)>, q: Seq<char>, f: FieldModel, p: Seq<char>)
    requires
        diverge(p, q),
    ensures
        field_at(set_at(m, q, f, true), p) == field_at(m, p),
        set_reaches(m, p, true) ==> set_reaches(set_at(m, q, f, true), p, true),
    decreases p.len(),
{
    lemma_tail_shorter(p);
    lemma_tail_shorter(q);
    let hp = path_head(p);
    let hq = path_head(q);
    let r = set_at(m, q, f, true);
    if hp != hq {
        law_set_keeps_other_entries(m, q, f, true, hp);
        lemma_field_at_by_lookup(r, m, p);
        lemma_reaches_by_lookup(r, m, p);
    } else {
        let tp = path_tail(p)->0;
        let tq = path_tail(q)->0;
        match lookup(m, hq) {
            None => {
                let sub = set_at(Seq::empty(), tq, f, true);
                lemma_lookup_insert_same(m, hq, FieldModel::Table(sub));
                lemma_set_elsewhere(Seq::empty(), tq, f, tp);
                lemma_empty_block(tp);
            },
            Some(FieldModel::Table(t)) => {
                let sub = set_at(t, tq, f, true);
                lemma_lookup_insert_same(m, hq, FieldModel::Table(sub));
                lemma_set_elsewhere(t, tq, f, tp);
            },
            _ => {},
        }
    }
}

/// Storing at `q` leaves what every path that parts ways with `q` finds: a path that is
/// neither on the way to `q` nor below it reads the same field before and after.
pub proof fn law_set_keeps_paths_apart(
    m: Seq<(Seq<char>, FieldModel)>,
    q: Seq<char>,
    f: FieldModel,
    force: bool,
    p: Seq<char>,
)
    requires
        diverge(p, q),
    ensures
        field_at(set_at(m, q, f, force), p) == field_at(m, p),
    decreases p.len(),
{
    lemma_tail_shorter(p);
    lemma_tail_shorter(q);
    let hp = path_head(p);
    let hq = path_head(q);
    let r = set_at(m, q, f, force);
    if hp != hq {
        law_set_keeps_other_entries(m, q, f, force, hp);
        lemma_field_at_by_lookup(r, m, p);
    } else {
        let tp = path_tail(p)->0;
        let tq = path_tail(q)->0;
        match lookup(m, hq) {
            None => {
                if force {
                    let sub = set_at(Seq::empty(), tq, f, force);
                    lemma_lookup_insert_same(m, hq, FieldModel::Table(sub));
                    law_set_keeps_paths_apart(Seq::empty(), tq, f, force, tp);
                    lemma_empty_block(tp);
                }
            },
            Some(FieldModel::Table(t)) => {
                let sub = set_at(t, tq, f, force);
                lemma_lookup_insert_same(m, hq, FieldModel::Table(sub));
                law_set_keeps_paths_apart(t, tq, f, force, tp);
            },
            _ => {},
        }
    }
}

/// Storing at a path whose first segment names a field that is not a table leaves the
/// block as it was.
pub proof fn law_set_through_leaf_keeps_block(m: Seq<(Seq<char>, FieldModel)>, p: Seq<char>, f: FieldModel, force: bool)
    requires
        path_tail(p) is Some,
        lookup(m, path_head(p)) matches Some(g) && !(g is Table),
    ensures
        set_at(m, p, f, force) == m,
{
    lemma_tail_shorter(p);
}

/// Storing at `p` keeps `p` reachable.
pub proof fn lemma_set_keeps_reach(m: Seq<(Seq<char>, FieldModel)>, p: Seq<char>, f: FieldModel)
    requires
        set_reaches(m, p, true),
    ensures
        set_reaches(set_at(m, p, f, true), p, true),
    decreases p.len(),
{
    lemma_tail_shorter(p);
    let h = path_head(p);
    match path_tail(p) {
        None => {},
        Some(t) => {
            match lookup(m, h) {
                None => {
                    lemma_empty_block(t);
                    lemma_set_keeps_reach(Seq::empty(), t, f);
                    lemma_lookup_insert_same(m, h, FieldModel::Table(set_at(Seq::empty(), t, f, true)));
                },
                Some(FieldModel::Table(sub)) => {
                    lemma_set_keeps_reach(sub, t, f);
                    lemma_lookup_insert_same(m, h, FieldModel::Table(set_at(sub, t, f, true)));
                },
                _ => {},
            }
        },
    }
}

/// Loading leaves what a path that parts ways with all it stores finds.
pub proof fn lemma_pass_elsewhere(
    m: Seq<(Seq<char>, FieldModel)>,
    s: Seq<(Seq<char>, u128, FieldModel)>,
    ps: Seq<(u128, u128)>,
    p: Seq<char>,
)
    requires
        set_reaches(m, p, true),
        forall|j: int| 0 <= j < s.len() ==> diverge(p, #[trigger] s[j].0),
    ensures
        set_reaches(load_fields(m, s, ps), p, true),
        field_at(load_fields(m, s, ps), p) == field_at(m, p),
    decreases s.len(),
{
    if s.len() > 0 {
        let s0 = s.drop_last();
        assert forall|j: int| 0 <= j < s0.len() implies diverge(p, #[trigger] s0[j].0) by {
            assert(s0[j] == s[j]);
        }
        lemma_pass_elsewhere(m, s0, ps, p);
        let r = load_fields(m, s0, ps);
        assert(diverge(p, s[s.len() - 1].0));
        lemma_set_elsewhere(r, s.last().0, relink_field(s.last().2, ps), p);
    }
}

/// Loading puts every entry it stores at its path, and keeps those paths reachable.
pub proof fn lemma_pass_places(
    m: Seq<(Seq<char>, FieldModel)>,
    s: Seq<(Seq<char>, u128, FieldModel)>,
    ps: Seq<(u128, u128)>,
)
    requires
        paths_diverge(s),
        forall|i: int| 0 <= i < s.len() ==> set_reaches(m, #[trigger] s[i].0, true),
    ensures
        forall|i: int|
            0 <= i < s.len() ==> field_at(load_fields(m, s, ps), #[trigger] s[i].0) == Some(relink_field(s[i].2, ps))
                && set_reaches(load_fields(m, s, ps), s[i].0, true),
    decreases s.len(),
{
    if s.len() > 0 {
        let n = s.len() - 1;
        let s0 = s.drop_last();
        assert(paths_diverge(s0)) by {
            assert forall|i: int, j: int| 0 <= i < s0.len() && 0 <= j < s0.len() && i != j implies diverge(
                #[trigger] s0[i].0,
                #[trigger] s0[j].0,
            ) by {
                assert(s0[i] == s[i] && s0[j] == s[j]);
            }
        }
        assert forall|i: int| 0 <= i < s0.len() implies set_reaches(m, #[trigger] s0[i].0, true) by {
            assert(s0[i] == s[i]);
        }
        lemma_pass_places(m, s0, ps);
        let r = load_fields(m, s0, ps);
        let q = s[n];
        let g = relink_field(q.2, ps);
        assert forall|j: int| 0 <= j < s0.len() implies diverge(q.0, #[trigger] s0[j].0) by {
            assert(s0[j] == s[j]);
            assert(diverge(s[n].0, s[j].0));
        }
        lemma_pass_elsewhere(m, s0, ps, q.0);
        law_get_after_set(r, q.0, g, true);
        lemma_set_keeps_reach(r, q.0, g);
        assert forall|i: int| 0 <= i < s.len() implies field_at(load_fields(m, s, ps), #[trigger] s[i].0) == Some(
            relink_field(s[i].2, ps),
        ) && set_reaches(load_fields(m, s, ps), s[i].0, true) by {
            if i < n {
                assert(s0[i] == s[i]);
                assert(diverge(s[i].0, s[n].0));
                lemma_set_elsewhere(r, q.0, g, s[i].0);
            }
        }
    }
}

/// Loading a flat list whose paths part ways puts every entry at its path, with its links
/// bound to the derives of the list.
pub proof fn law_load_places_every_entry(s: Seq<(Seq<char>, u128, FieldModel)>)
    requires
        paths_diverge(s),
    ensures
        forall|i: int|
            0 <= i < s.len() ==> field_at(from_flat_model(s), #[trigger] s[i].0) == Some(
                relink_field(s[i].2, derive_pairs(s)),
            ),
{
    let e: Seq<(Seq<char>, FieldModel)> = Seq::empty();
    assert forall|i: int| 0 <= i < s.len() implies set_reaches(e, #[trigger] s[i].0, true) by {
        lemma_empty_block(s[i].0);
    }
    lemma_pass_places(e, s, derive_pairs(s));
}

} // verus!

verus! {

//==============================================================================================
//        Flattening a well-formed block
//==============================================================================================

/// A key that names one segment of a path: not empty, without a `.`.
pub open spec fn plain_key(k: Seq<char>) -> bool {
    k.len() > 0 && !k.contains('.')
}

/// A block whose paths name its fields one for one: in each table the keys are plain and
/// no two are the same.
pub open spec fn well_formed_block(m: Seq<(Seq<char>, FieldModel)>) -> bool
    decreases m,
{
    &&& forall|i: int, j: int| 0 <= i < j < m.len() ==> m[i].0 != m[j].0
    &&& forall|i: int| 0 <= i < m.len() ==> plain_key(#[trigger] m[i].0)
    &&& forall|i: int|
        0 <= i < m.len() ==> match #[trigger] m[i].1 {
            FieldModel::Table(t) => well_formed_block(t),
            _ => true,
        }
}

pub proof fn lemma_plain_key_path(k: Seq<char>, x: Seq<char>)
    requires
        plain_key(k),
    ensures
        path_head(k) == k,
        path_tail(k) is None,
        path_head(k + seq!['.'] + x) == k,
        path_tail(k + seq!['.'] + x) == Some(x),
{
    if crate::stat::path::has_dot(k) {
        let i = crate::stat::path::first_dot(k);
        assert(crate::stat::path::is_first_dot(k, i));
        assert(k.contains('.'));
    }
    let p = k + seq!['.'] + x;
    let n = k.len() as int;
    assert(p[n] == '.');
    assert forall|j: int| 0 <= j < n implies p[j] != '.' by {
        assert(p[j] == k[j]);
        if k[j] == '.' {
            assert(k.contains('.'));
        }
    }
    assert(crate::stat::path::is_first_dot(p, n));
    crate::stat::path::lemma_first_dot_unique(p, n);
    assert(p.subrange(0, n) =~= k);
    assert(p.subrange(n + 1, p.len() as int) =~= x);
}

pub proof fn lemma_path_split(p: Seq<char>)
    requires
        path_tail(p) is Some,
    ensures
        p == path_head(p) + seq!['.'] + path_tail(p)->0,
{
    let i = crate::stat::path::first_dot(p);
    assert(crate::stat::path::is_first_dot(p, i));
    assert(p =~= p.subrange(0, i) + seq!['.'] + p.subrange(i + 1, p.len() as int));
}

/// Looking up another key is not changed by an entry added last.
pub proof fn lemma_lookup_push_other(m: Seq<(Seq<char>, FieldModel)>, e: (Seq<char>, FieldModel), h: Seq<char>)
    requires
        h != e.0,
    ensures
        lookup(m.push(e), h) == lookup(m, h),
{
    let r = m.push(e);
    if has_key(m, h) {
        let i = crate::stat::statblock::key_index(m, h);
        assert(crate::stat::statblock::is_first_key(m, h, i));
        assert(crate::stat::statblock::is_first_key(r, h, i));
        crate::stat::statblock::lemma_first_key_unique(r, h, i);
    } else if has_key(r, h) {
        let i = crate::stat::statblock::key_index(r, h);
        assert(crate::stat::statblock::is_first_key(r, h, i));
        assert(i < m.len());
        assert(r[i] == m[i]);
        assert forall|j: int| 0 <= j < i implies m[j].0 != h by {
            assert(r[j] == m[j]);
        }
        assert(crate::stat::statblock::is_first_key(m, h, i));
    }
}

/// A new key added last is found with its field.
pub proof fn lemma_lookup_push_new(m: Seq<(Seq<char>, FieldModel)>, e: (Seq<char>, FieldModel))
    requires
        forall|j: int| 0 <= j < m.len() ==> m[j].0 != e.0,
    ensures
        lookup(m.push(e), e.0) == Some(e.1),
{
    let r = m.push(e);
    let n = m.len() as int;
    assert(crate::stat::statblock::is_first_key(r, e.0, n));
    crate::stat::statblock::lemma_first_key_unique(r, e.0, n);
}

pub open spec fn flat_of(m: Seq<(Seq<char>, FieldModel)>) -> Seq<(Seq<char>, u128, FieldModel)> {
    crate::stat::statblock::flat_fields(m, Seq::empty())
}

pub open spec fn under(k: Seq<char>, s: Seq<(Seq<char>, u128, FieldModel)>) -> Seq<(Seq<char>, u128, FieldModel)> {
    s.map_values(|e: (Seq<char>, u128, FieldModel)| (crate::stat::path::join_path(k, e.0), e.1, e.2))
}

/// Flattening under a root puts the root in front of every path.
pub proof fn lemma_flat_under(m: Seq<(Seq<char>, FieldModel)>, root: Seq<char>)
    requires
        well_formed_block(m),
    ensures
        crate::stat::statblock::flat_fields(m, root) == under(root, flat_of(m)),
    decreases m,
{
    if m.len() > 0 {
        let m0 = m.drop_last();
        assert(well_formed_block(m0)) by {
            assert forall|i: int| 0 <= i < m0.len() implies plain_key(#[trigger] m0[i].0) by {
                assert(m0[i] == m[i]);
            }
            assert forall|i: int| 0 <= i < m0.len() implies match #[trigger] m0[i].1 {
                FieldModel::Table(t) => well_formed_block(t),
                _ => true,
            } by {
                assert(m0[i] == m[i]);
            }
        }
        lemma_flat_under(m0, root);
        let e = m.last();
        assert(plain_key(m[m.len() - 1].0));
        let a = crate::stat::statblock::entry_fields(e, root);
        let b = crate::stat::statblock::entry_fields(e, Seq::empty());
        match e.1 {
            FieldModel::Table(t) => {
                assert(match m[m.len() - 1].1 {
                    FieldModel::Table(t) => well_formed_block(t),
                    _ => true,
                });
                lemma_flat_under(t, crate::stat::path::join_path(root, e.0));
                lemma_flat_under(t, e.0);
                assert(crate::stat::path::join_path(Seq::<char>::empty(), e.0) == e.0);
                assert forall|i: int| 0 <= i < a.len() implies a[i] == under(root, b)[i] by {
                    let x = flat_of(t)[i].0;
                    assert(crate::stat::path::join_path(root, crate::stat::path::join_path(e.0, x)) =~= crate::stat::path::join_path(
                        crate::stat::path::join_path(root, e.0),
                        x,
                    ));
                }
                assert(a =~= under(root, b));
            },
            _ => {
                assert(a =~= under(root, b));
            },
        }
        assert(under(root, flat_of(m0) + b) =~= under(root, flat_of(m0)) + under(root, b));
    } else {
        assert(crate::stat::statblock::flat_fields(m, root) =~= under(root, flat_of(m)));
    }
}

} // verus!

verus! {

proof fn lemma_well_formed_prefix(m: Seq<(Seq<char>, FieldModel)>)
    requires
        well_formed_block(m),
        m.len() > 0,
    ensures
        well_formed_block(m.drop_last()),
        plain_key(m.last().0),
        forall|j: int| 0 <= j < m.len() - 1 ==> m[j].0 != m.last().0,
        m.last().1 matches FieldModel::Table(t) ==> well_formed_block(t),
{
    let m0 = m.drop_last();
    assert forall|i: int| 0 <= i < m0.len() implies plain_key(#[trigger] m0[i].0) by {
        assert(m0[i] == m[i]);
    }
    assert forall|i: int| 0 <= i < m0.len() implies match #[trigger] m0[i].1 {
        FieldModel::Table(t) => well_formed_block(t),
        _ => true,
    } by {
        assert(m0[i] == m[i]);
    }
    assert(plain_key(m[m.len() - 1].0));
    assert(match m[m.len() - 1].1 {
        FieldModel::Table(t) => well_formed_block(t),
        _ => true,
    });
}

/// Flattening a well-formed block lists each stat, derive and constant once, at a path
/// where the block holds it, and the paths of any two part ways.
pub proof fn lemma_flat_found(m: Seq<(Seq<char>, FieldModel)>)
    requires
        well_formed_block(m),
    ensures
        forall|i: int|
            0 <= i < flat_of(m).len() ==> (field_at(m, #[trigger] flat_of(m)[i].0) matches Some(g) && !(g is Table)
                && flat_of(m)[i].2 == crate::stat::statblock::unbound(g) && flat_of(m)[i].1
                == crate::stat::statblock::field_addr(g)),
        forall|i: int|
            0 <= i < flat_of(m).len() ==> exists|j: int|
                0 <= j < m.len() && m[j].0 == path_head(#[trigger] flat_of(m)[i].0),
        paths_diverge(flat_of(m)),
    decreases m,
{
    if m.len() > 0 {
        let m0 = m.drop_last();
        let e = m.last();
        let k = e.0;
        lemma_well_formed_prefix(m);
        lemma_flat_found(m0);
        lemma_lookup_push_new(m0, e);
        assert(m0.push(e) =~= m);
        let a = flat_of(m0);
        let b = crate::stat::statblock::entry_fields(e, Seq::empty());
        assert(flat_of(m) == a + b);
        let n0 = a.len() as int;
        // Entries of the earlier part: found as before, under keys other than `k`.
        assert forall|i: int| 0 <= i < n0 implies (field_at(m, #[trigger] flat_of(m)[i].0) matches Some(g) && !(g
            is Table) && flat_of(m)[i].2 == crate::stat::statblock::unbound(g) && flat_of(m)[i].1
            == crate::stat::statblock::field_addr(g)) && exists|j: int|
            0 <= j < m.len() && m[j].0 == path_head(flat_of(m)[i].0) by {
            assert(flat_of(m)[i] == a[i]);
            let j = choose|j: int| 0 <= j < m0.len() && m0[j].0 == path_head(a[i].0);
            assert(m[j] == m0[j]);
            lemma_lookup_push_other(m0, e, path_head(a[i].0));
            lemma_field_at_by_lookup(m, m0, a[i].0);
        }
        match e.1 {
            FieldModel::Table(t) => {
                lemma_flat_found(t);
                lemma_flat_under(t, k);
                assert(crate::stat::path::join_path(Seq::<char>::empty(), k) == k);
                assert(b == under(k, flat_of(t)));
                assert forall|i: int| n0 <= i < flat_of(m).len() implies (field_at(m, #[trigger] flat_of(m)[i].0) matches Some(
                    g,
                ) && !(g is Table) && flat_of(m)[i].2 == crate::stat::statblock::unbound(g) && flat_of(m)[i].1
                    == crate::stat::statblock::field_addr(g)) && exists|j: int|
                    0 <= j < m.len() && m[j].0 == path_head(flat_of(m)[i].0) by {
                    let x = flat_of(t)[i - n0].0;
                    assert(flat_of(m)[i] == b[i - n0]);
                    assert(b[i - n0].0 == k + seq!['.'] + x);
                    lemma_plain_key_path(k, x);
                    assert(m[m.len() - 1].0 == k);
                }
                assert forall|i: int, j: int|
                    0 <= i < flat_of(m).len() && 0 <= j < flat_of(m).len() && i != j implies diverge(
                    #[trigger] flat_of(m)[i].0,
                    #[trigger] flat_of(m)[j].0,
                ) by {
                    if i < n0 && j < n0 {
                        assert(flat_of(m)[i] == a[i] && flat_of(m)[j] == a[j]);
                    } else if i >= n0 && j >= n0 {
                        let x = flat_of(t)[i - n0].0;
                        let y = flat_of(t)[j - n0].0;
                        assert(flat_of(m)[i].0 == k + seq!['.'] + x);
                        assert(flat_of(m)[j].0 == k + seq!['.'] + y);
                        lemma_plain_key_path(k, x);
                        lemma_plain_key_path(k, y);
                        assert(diverge(flat_of(t)[i - n0].0, flat_of(t)[j - n0].0));
                    } else {
                        let (u, w) = if i < n0 {
                            (i, j)
                        } else {
                            (j, i)
                        };
                        let jj = choose|jj: int| 0 <= jj < m.len() && m[jj].0 == path_head(flat_of(m)[u].0);
                        assert(jj < m.len() - 1 || path_head(flat_of(m)[u].0) == k);
                        let x = flat_of(t)[w - n0].0;
                        assert(flat_of(m)[w].0 == k + seq!['.'] + x);
                        lemma_plain_key_path(k, x);
                        assert(path_head(flat_of(m)[u].0) != k) by {
                            assert(flat_of(m)[u] == a[u]);
                            let j0 = choose|j0: int| 0 <= j0 < m0.len() && m0[j0].0 == path_head(a[u].0);
                            assert(m[j0] == m0[j0]);
                        }
                    }
                }
            },
            _ => {
                assert(b == seq![(k, crate::stat::statblock::field_addr(e.1), crate::stat::statblock::unbound(e.1))]);
                lemma_plain_key_path(k, Seq::empty());
                assert(field_at(m, k) == lookup(m, k));
                assert(flat_of(m)[n0] == b[0]);
                assert(m[m.len() - 1].0 == k);
                assert forall|i: int, j: int|
                    0 <= i < flat_of(m).len() && 0 <= j < flat_of(m).len() && i != j implies diverge(
                    #[trigger] flat_of(m)[i].0,
                    #[trigger] flat_of(m)[j].0,
                ) by {
                    if i < n0 && j < n0 {
                        assert(flat_of(m)[i] == a[i] && flat_of(m)[j] == a[j]);
                    } else {
                        let u = if i < n0 {
                            i
                        } else {
                            j
                        };
                        assert(flat_of(m)[u] == a[u]);
                        let j0 = choose|j0: int| 0 <= j0 < m0.len() && m0[j0].0 == path_head(a[u].0);
                        assert(m[j0] == m0[j0]);
                    }
                }
            },
        }
    }
}

/// Every stat, derive and constant of a well-formed block is listed by flattening it.
pub proof fn lemma_flat_complete(m: Seq<(Seq<char>, FieldModel)>, p: Seq<char>)
    requires
        well_formed_block(m),
        field_at(m, p) matches Some(g) && !(g is Table),
    ensures
        exists|i: int| 0 <= i < flat_of(m).len() && #[trigger] flat_of(m)[i].0 == p,
    decreases m,
{
    lemma_tail_shorter(p);
    let h = path_head(p);
    lemma_empty_block(p);
    if m.len() > 0 {
        let m0 = m.drop_last();
        let e = m.last();
        let k = e.0;
        lemma_well_formed_prefix(m);
        lemma_lookup_push_new(m0, e);
        assert(m0.push(e) =~= m);
        let a = flat_of(m0);
        let b = crate::stat::statblock::entry_fields(e, Seq::empty());
        assert(flat_of(m) == a + b);
        let n0 = a.len() as int;
        if h != k {
            lemma_lookup_push_other(m0, e, h);
            lemma_field_at_by_lookup(m, m0, p);
            lemma_flat_complete(m0, p);
            let i = choose|i: int| 0 <= i < a.len() && #[trigger] a[i].0 == p;
            assert(flat_of(m)[i] == a[i]);
        } else {
            match path_tail(p) {
                None => {
                    assert(h == p);
                    match e.1 {
                        FieldModel::Table(_) => {},
                        _ => {
                            assert(b == seq![(k, crate::stat::statblock::field_addr(e.1), crate::stat::statblock::unbound(e.1))]);
                            assert(flat_of(m)[n0] == b[0]);
                            assert(flat_of(m)[n0].0 == p);
                        },
                    }
                },
                Some(tl) => {
                    match e.1 {
                        FieldModel::Table(t) => {
                            lemma_flat_complete(t, tl);
                            lemma_flat_under(t, k);
                            assert(crate::stat::path::join_path(Seq::<char>::empty(), k) == k);
                            let i = choose|i: int| 0 <= i < flat_of(t).len() && #[trigger] flat_of(t)[i].0 == tl;
                            lemma_path_split(p);
                            assert(b[i].0 == k + seq!['.'] + tl);
                            assert(flat_of(m)[n0 + i] == b[i]);
                            assert(flat_of(m)[n0 + i].0 == p);
                        },
                        _ => {},
                    }
                },
            }
        }
    }
}

/// A copy of a well-formed block (see `StatBlock::clone`) holds, at every path where the
/// block holds a stat, a derive or a constant, the same field with its links bound to the
/// copied derives, and so the same value.
pub proof fn law_copy_keeps_every_field(m: Seq<(Seq<char>, FieldModel)>, p: Seq<char>)
    requires
        well_formed_block(m),
        field_at(m, p) matches Some(g) && !(g is Table),
    ensures
        field_at(from_flat_model(flat_of(m)), p) == Some(
            relink_field(crate::stat::statblock::unbound(field_at(m, p)->0), derive_pairs(flat_of(m))),
        ),
        crate::stat::statblock::value_of(field_at(from_flat_model(flat_of(m)), p)->0)
            == crate::stat::statblock::value_of(field_at(m, p)->0),
{
    lemma_flat_complete(m, p);
    lemma_flat_found(m);
    let i = choose|i: int| 0 <= i < flat_of(m).len() && #[trigger] flat_of(m)[i].0 == p;
    law_load_places_every_entry(flat_of(m));
    assert(field_at(from_flat_model(flat_of(m)), flat_of(m)[i].0) == Some(
        relink_field(flat_of(m)[i].2, derive_pairs(flat_of(m))),
    ));
}

} // verus!

verus! {

//==============================================================================================
//        Where the tables of a copy stand
//==============================================================================================

/// `p` names a table on the way to `q`: the segments of `p` are the first segments of `q`,
/// and `q` has more.
pub open spec fn below(p: Seq<char>, q: Seq<char>) -> bool
    decreases q.len(),
{
    path_head(p) == path_head(q) && match (path_tail(p), path_tail(q)) {
        (None, Some(_)) => true,
        (Some(tp), Some(tq)) => if tq.len() < q.len() {
            below(tp, tq)
        } else {
            false
        },
        _ => false,
    }
}

/// The block holds a table at `p`.
pub open spec fn is_table_at(m: Seq<(Seq<char>, FieldModel)>, p: Seq<char>) -> bool {
    field_at(m, p) matches Some(FieldModel::Table(_))
}

/// Every table of the block, at any depth, holds at least one entry.
pub open spec fn tables_nonempty(m: Seq<(Seq<char>, FieldModel)>) -> bool
    decreases m,
{
    forall|i: int|
        0 <= i < m.len() ==> match #[trigger] m[i].1 {
            FieldModel::Table(t) => t.len() > 0 && tables_nonempty(t),
            _ => true,
        }
}

/// Paths that part ways do not lead one through the other.
pub proof fn lemma_diverge_not_below(p: Seq<char>, q: Seq<char>)
    requires
        diverge(p, q),
    ensures
        !below(p, q),
    decreases q.len(),
{
    lemma_tail_shorter(p);
    lemma_tail_shorter(q);
    if path_head(p) == path_head(q) {
        if let (Some(tp), Some(tq)) = (path_tail(p), path_tail(q)) {
            lemma_diverge_not_below(tp, tq);
        }
    }
}

/// Storing a field that is not a table at `q`, where no table stands and nothing but tables
/// are on the way, adds exactly the tables on the way to `q`.
pub proof fn lemma_set_tables(m: Seq<(Seq<char>, FieldModel)>, q: Seq<char>, g: FieldModel, p: Seq<char>)
    requires
        set_reaches(m, q, true),
        !is_table_at(m, q),
        !(g is Table),
    ensures
        is_table_at(set_at(m, q, g, true), p) <==> (is_table_at(m, p) || below(p, q)),
    decreases q.len(),
{
    lemma_tail_shorter(p);
    lemma_tail_shorter(q);
    let hp = path_head(p);
    let hq = path_head(q);
    let r = set_at(m, q, g, true);
    if hp != hq {
        law_set_keeps_other_entries(m, q, g, true, hp);
        lemma_field_at_by_lookup(r, m, p);
    } else {
        match path_tail(q) {
            None => {
                lemma_lookup_insert_same(m, hq, g);
            },
            Some(tq) => {
                match lookup(m, hq) {
                    None => {
                        let sub = set_at(Seq::empty(), tq, g, true);
                        lemma_lookup_insert_same(m, hq, FieldModel::Table(sub));
                        if let Some(tp) = path_tail(p) {
                            lemma_empty_block(tq);
                            lemma_empty_block(tp);
                            lemma_set_tables(Seq::empty(), tq, g, tp);
                        }
                    },
                    Some(FieldModel::Table(t)) => {
                        let sub = set_at(t, tq, g, true);
                        lemma_lookup_insert_same(m, hq, FieldModel::Table(sub));
                        if let Some(tp) = path_tail(p) {
                            lemma_set_tables(t, tq, g, tp);
                        }
                    },
                    _ => {},
                }
            },
        }
    }
}

/// Some entry of a flat list has a path that leads through `p`.
pub open spec fn goes_through(s: Seq<(Seq<char>, u128, FieldModel)>, p: Seq<char>) -> bool {
    exists|i: int| 0 <= i < s.len() && below(p, #[trigger] s[i].0)
}

/// Loading adds exactly the tables on the way to the entries it stores.
pub proof fn lemma_pass_tables(
    m: Seq<(Seq<char>, FieldModel)>,
    s: Seq<(Seq<char>, u128, FieldModel)>,
    ps: Seq<(u128, u128)>,
    p: Seq<char>,
)
    requires
        paths_diverge(s),
        forall|i: int| 0 <= i < s.len() ==> !(#[trigger] s[i].2 is Table),
        forall|i: int| 0 <= i < s.len() ==> set_reaches(m, #[trigger] s[i].0, true) && !is_table_at(m, s[i].0),
    ensures
        is_table_at(load_fields(m, s, ps), p) <==> (is_table_at(m, p) || goes_through(s, p)),
    decreases s.len(),
{
    if s.len() > 0 {
        let n = s.len() - 1;
        let s0 = s.drop_last();
        assert(paths_diverge(s0)) by {
            assert forall|i: int, j: int| 0 <= i < s0.len() && 0 <= j < s0.len() && i != j implies diverge(
                #[trigger] s0[i].0,
                #[trigger] s0[j].0,
            ) by {
                assert(s0[i] == s[i] && s0[j] == s[j]);
            }
        }
        assert forall|i: int| 0 <= i < s0.len() implies !(#[trigger] s0[i].2 is Table) by {
            assert(s0[i] == s[i]);
        }
        assert forall|i: int| 0 <= i < s0.len() implies set_reaches(m, #[trigger] s0[i].0, true) && !is_table_at(
            m,
            s0[i].0,
        ) by {
            assert(s0[i] == s[i]);
        }
        lemma_pass_tables(m, s0, ps, p);
        let r = load_fields(m, s0, ps);
        let q = s[n];
        assert forall|j: int| 0 <= j < s0.len() implies diverge(q.0, #[trigger] s0[j].0) by {
            assert(s0[j] == s[j]);
            assert(diverge(s[n].0, s[j].0));
        }
        lemma_pass_elsewhere(m, s0, ps, q.0);
        assert(!(q.2 is Table));
        lemma_set_tables(r, q.0, relink_field(q.2, ps), p);
        if goes_through(s, p) {
            let i = choose|i: int| 0 <= i < s.len() && below(p, #[trigger] s[i].0);
            if i < n {
                assert(s0[i] == s[i]);
                assert(goes_through(s0, p));
            }
        }
        if goes_through(s0, p) {
            let i = choose|i: int| 0 <= i < s0.len() && below(p, #[trigger] s0[i].0);
            assert(s0[i] == s[i]);
            assert(goes_through(s, p));
        }
        if below(p, q.0) {
            assert(below(p, s[n].0));
            assert(goes_through(s, p));
        }
    }
}

/// Loading a flat list whose paths part ways, and which holds no table, creates a table
/// exactly at each path that leads on to one of its entries.
pub proof fn law_load_puts_tables_on_the_way(s: Seq<(Seq<char>, u128, FieldModel)>, p: Seq<char>)
    requires
        paths_diverge(s),
        forall|i: int| 0 <= i < s.len() ==> !(#[trigger] s[i].2 is Table),
    ensures
        is_table_at(from_flat_model(s), p) <==> exists|i: int| 0 <= i < s.len() && below(p, #[trigger] s[i].0),
{
    let e: Seq<(Seq<char>, FieldModel)> = Seq::empty();
    assert forall|i: int| 0 <= i < s.len() implies set_reaches(e, #[trigger] s[i].0, true) && !is_table_at(
        e,
        s[i].0,
    ) by {
        lemma_empty_block(s[i].0);
    }
    lemma_pass_tables(e, s, derive_pairs(s), p);
    lemma_empty_block(p);
}

/// A field found at a path on the way through `p` means a table stands at `p`.
pub proof fn lemma_found_below_table(m: Seq<(Seq<char>, FieldModel)>, r: Seq<char>, p: Seq<char>)
    requires
        field_at(m, r) is Some,
        below(p, r),
    ensures
        is_table_at(m, p),
    decreases r.len(),
{
    lemma_tail_shorter(p);
    lemma_tail_shorter(r);
    let h = path_head(r);
    let tr = path_tail(r)->0;
    match lookup(m, h) {
        Some(FieldModel::Table(sub)) => {
            if let Some(tp) = path_tail(p) {
                lemma_found_below_table(sub, tr, tp);
            }
        },
        _ => {},
    }
}

/// A non-empty table of a well-formed block whose tables are not empty holds a stat, a
/// derive or a constant somewhere.
pub proof fn lemma_some_leaf(t: Seq<(Seq<char>, FieldModel)>)
    requires
        well_formed_block(t),
        tables_nonempty(t),
        t.len() > 0,
    ensures
        exists|x: Seq<char>| #[trigger] field_at(t, x) matches Some(g) && !(g is Table),
    decreases t,
{
    let k = t[0].0;
    assert(plain_key(t[0].0));
    assert(crate::stat::statblock::is_first_key(t, k, 0));
    crate::stat::statblock::lemma_first_key_unique(t, k, 0);
    lemma_plain_key_path(k, Seq::empty());
    assert(lookup(t, k) == Some(t[0].1));
    assert(match t[0].1 {
        FieldModel::Table(t2) => well_formed_block(t2),
        _ => true,
    });
    assert(match t[0].1 {
        FieldModel::Table(t2) => t2.len() > 0 && tables_nonempty(t2),
        _ => true,
    });
    match t[0].1 {
        FieldModel::Table(t2) => {
            lemma_some_leaf(t2);
            let x2 = choose|x: Seq<char>| #[trigger] field_at(t2, x) matches Some(g) && !(g is Table);
            let x = k + seq!['.'] + x2;
            lemma_plain_key_path(k, x2);
            lemma_tail_shorter(x);
            assert(field_at(t, x) == field_at(t2, x2));
        },
        _ => {
            assert(field_at(t, k) == lookup(t, k));
        },
    }
}

/// A table of a well-formed block whose tables are not empty leads on to a stat, a derive
/// or a constant.
pub proof fn lemma_table_leads_to_leaf(m: Seq<(Seq<char>, FieldModel)>, p: Seq<char>)
    requires
        well_formed_block(m),
        tables_nonempty(m),
        is_table_at(m, p),
    ensures
        exists|q: Seq<char>| #[trigger] field_at(m, q) matches Some(g) && !(g is Table) && below(p, q),
    decreases p.len(),
{
    lemma_tail_shorter(p);
    let h = path_head(p);
    assert(has_key(m, h));
    let k = crate::stat::statblock::key_index(m, h);
    assert(crate::stat::statblock::is_first_key(m, h, k));
    assert(lookup(m, h) == Some(m[k].1));
    assert(plain_key(m[k].0));
    assert(match m[k].1 {
        FieldModel::Table(t) => well_formed_block(t),
        _ => true,
    });
    assert(match m[k].1 {
        FieldModel::Table(t) => t.len() > 0 && tables_nonempty(t),
        _ => true,
    });
    let t = m[k].1->Table_0;
    match path_tail(p) {
        None => {
            lemma_some_leaf(t);
            let x = choose|x: Seq<char>| #[trigger] field_at(t, x) matches Some(g) && !(g is Table);
            let q = h + seq!['.'] + x;
            lemma_plain_key_path(h, x);
            lemma_tail_shorter(q);
            assert(field_at(m, q) == field_at(t, x));
            assert(below(p, q));
        },
        Some(tp) => {
            lemma_table_leads_to_leaf(t, tp);
            let x = choose|x: Seq<char>| #[trigger] field_at(t, x) matches Some(g) && !(g is Table) && below(tp, x);
            let q = h + seq!['.'] + x;
            lemma_plain_key_path(h, x);
            lemma_tail_shorter(q);
            assert(field_at(m, q) == field_at(t, x));
            assert(below(p, q));
        },
    }
}

/// A copy of a well-formed block whose tables are not empty (see `StatBlock::clone`; the
/// same holds of storing and loading it) holds a table exactly where the block holds one.
pub proof fn law_copy_keeps_tables(m: Seq<(Seq<char>, FieldModel)>, p: Seq<char>)
    requires
        well_formed_block(m),
        tables_nonempty(m),
    ensures
        is_table_at(from_flat_model(flat_of(m)), p) <==> is_table_at(m, p),
{
    let s = flat_of(m);
    lemma_flat_found(m);
    crate::stat::statblock::lemma_flat_fields_no_tables(m, Seq::empty());
    law_load_puts_tables_on_the_way(s, p);
    if is_table_at(m, p) {
        lemma_table_leads_to_leaf(m, p);
        let q = choose|q: Seq<char>| #[trigger] field_at(m, q) matches Some(g) && !(g is Table) && below(p, q);
        lemma_flat_complete(m, q);
        let i = choose|i: int| 0 <= i < s.len() && #[trigger] s[i].0 == q;
        assert(below(p, s[i].0));
    }
    if exists|i: int| 0 <= i < s.len() && below(p, #[trigger] s[i].0) {
        let i = choose|i: int| 0 <= i < s.len() && below(p, #[trigger] s[i].0);
        lemma_found_below_table(m, s[i].0, p);
    }
}

} // verus!

verus! {

//==============================================================================================
//        A copy is the block itself, relinked
//==============================================================================================

/// The block with every stat, derive and constant in its place, its links bound through
/// `ps` as loading binds them, and its tables kept in place and in order.
pub open spec fn relinked(m: Seq<(Seq<char>, FieldModel)>, ps: Seq<(u128, u128)>) -> Seq<(Seq<char>, FieldModel)>
    decreases m,
{
    if m.len() == 0 {
        Seq::empty()
    } else {
        relinked(m.drop_last(), ps).push((m.last().0, relinked_field(m.last().1, ps)))
    }
}

pub open spec fn relinked_field(f: FieldModel, ps: Seq<(u128, u128)>) -> FieldModel
    decreases f,
{
    match f {
        FieldModel::Table(t) => FieldModel::Table(relinked(t, ps)),
        _ => relink_field(crate::stat::statblock::unbound(f), ps),
    }
}

pub proof fn lemma_relinked_entries(m: Seq<(Seq<char>, FieldModel)>, ps: Seq<(u128, u128)>)
    ensures
        relinked(m, ps).len() == m.len(),
        forall|i: int| 0 <= i < m.len() ==> #[trigger] relinked(m, ps)[i] == (m[i].0, relinked_field(m[i].1, ps)),
    decreases m.len(),
{
    if m.len() > 0 {
        lemma_relinked_entries(m.drop_last(), ps);
        assert forall|i: int| 0 <= i < m.len() implies #[trigger] relinked(m, ps)[i] == (m[i].0, relinked_field(m[i].1, ps)) by {
            if i < m.len() - 1 {
                assert(m.drop_last()[i] == m[i]);
            }
        }
    }
}

/// Relinking keeps every value.
pub proof fn lemma_relinked_values(m: Seq<(Seq<char>, FieldModel)>, ps: Seq<(u128, u128)>)
    ensures
        crate::stat::statblock::record_of(relinked(m, ps)) == crate::stat::statblock::record_of(m),
    decreases m,
{
    if m.len() > 0 {
        lemma_relinked_values(m.drop_last(), ps);
        lemma_relinked_field_value(m.last().1, ps);
        lemma_relinked_entries(m, ps);
        assert(relinked(m, ps).drop_last() == relinked(m.drop_last(), ps));
    }
}

pub proof fn lemma_relinked_field_value(f: FieldModel, ps: Seq<(u128, u128)>)
    ensures
        crate::stat::statblock::value_of(relinked_field(f, ps)) == crate::stat::statblock::value_of(f),
    decreases f,
{
    match f {
        FieldModel::Table(t) => {
            lemma_relinked_values(t, ps);
        },
        _ => {},
    }
}

/// Relinking keeps what every path finds, relinked.
pub proof fn lemma_relinked_field_at(m: Seq<(Seq<char>, FieldModel)>, ps: Seq<(u128, u128)>, p: Seq<char>)
    ensures
        field_at(relinked(m, ps), p) == match field_at(m, p) {
            Some(f) => Some(relinked_field(f, ps)),
            None => None,
        },
    decreases p.len(),
{
    lemma_tail_shorter(p);
    lemma_relinked_entries(m, ps);
    let r = relinked(m, ps);
    let h = path_head(p);
    if has_key(m, h) {
        let i = crate::stat::statblock::key_index(m, h);
        assert(crate::stat::statblock::is_first_key(m, h, i));
        assert(crate::stat::statblock::is_first_key(r, h, i));
        crate::stat::statblock::lemma_first_key_unique(r, h, i);
        assert(lookup(r, h) == Some(relinked_field(m[i].1, ps)));
        if let Some(t) = path_tail(p) {
            match m[i].1 {
                FieldModel::Table(sub) => {
                    lemma_relinked_field_at(sub, ps, t);
                },
                _ => {},
            }
        }
    } else {
        if has_key(r, h) {
            let i = crate::stat::statblock::key_index(r, h);
            assert(crate::stat::statblock::is_first_key(r, h, i));
            assert(r[i].0 == m[i].0);
            assert forall|j: int| 0 <= j < i implies m[j].0 != h by {
                assert(r[j].0 == m[j].0);
            }
            assert(crate::stat::statblock::is_first_key(m, h, i));
        }
    }
}

/// Loading two lists one after the other is loading them joined.
pub proof fn lemma_load_concat(
    m: Seq<(Seq<char>, FieldModel)>,
    a: Seq<(Seq<char>, u128, FieldModel)>,
    b: Seq<(Seq<char>, u128, FieldModel)>,
    ps: Seq<(u128, u128)>,
)
    ensures
        load_fields(m, a + b, ps) == load_fields(load_fields(m, a, ps), b, ps),
    decreases b.len(),
{
    if b.len() == 0 {
        assert(a + b =~= a);
    } else {
        assert((a + b).drop_last() =~= a + b.drop_last());
        assert((a + b).last() == b.last());
        lemma_load_concat(m, a, b.drop_last(), ps);
    }
}

/// Loading a non-empty list under a key that `m` does not hold adds one table under that
/// key, last, holding what the list loads into.
pub proof fn lemma_load_under(
    m: Seq<(Seq<char>, FieldModel)>,
    k: Seq<char>,
    s: Seq<(Seq<char>, u128, FieldModel)>,
    ps: Seq<(u128, u128)>,
)
    requires
        plain_key(k),
        forall|j: int| 0 <= j < m.len() ==> m[j].0 != k,
        s.len() > 0,
    ensures
        load_fields(m, under(k, s), ps) == m.push((k, FieldModel::Table(load_fields(Seq::empty(), s, ps)))),
    decreases s.len(),
{
    let u = under(k, s);
    let s0 = s.drop_last();
    let x = s.last().0;
    let g = relink_field(s.last().2, ps);
    assert(u.drop_last() =~= under(k, s0));
    assert(u.last() == (k + seq!['.'] + x, s.last().1, s.last().2));
    lemma_plain_key_path(k, x);
    lemma_tail_shorter(k + seq!['.'] + x);
    let n = m.len() as int;
    if s0.len() == 0 {
        assert(under(k, s0) =~= Seq::<(Seq<char>, u128, FieldModel)>::empty());
        assert(load_fields(m, under(k, s0), ps) == m);
        if has_key(m, k) {
            let i = crate::stat::statblock::key_index(m, k);
            assert(crate::stat::statblock::is_first_key(m, k, i));
        }
        assert(lookup(m, k) is None);
        assert(load_fields(Seq::<(Seq<char>, FieldModel)>::empty(), s0, ps) == Seq::<(Seq<char>, FieldModel)>::empty());
    } else {
        lemma_load_under(m, k, s0, ps);
        let l0 = load_fields(Seq::empty(), s0, ps);
        let m1 = m.push((k, FieldModel::Table(l0)));
        lemma_lookup_push_new(m, (k, FieldModel::Table(l0)));
        assert(crate::stat::statblock::is_first_key(m1, k, n));
        crate::stat::statblock::lemma_first_key_unique(m1, k, n);
        assert(m1.update(n, (k, FieldModel::Table(set_at(l0, x, g, true)))) =~= m.push(
            (k, FieldModel::Table(set_at(l0, x, g, true))),
        ));
    }
}

proof fn lemma_tables_nonempty_prefix(m: Seq<(Seq<char>, FieldModel)>)
    requires
        tables_nonempty(m),
        m.len() > 0,
    ensures
        tables_nonempty(m.drop_last()),
        m.last().1 matches FieldModel::Table(t) ==> t.len() > 0 && tables_nonempty(t),
{
    let m0 = m.drop_last();
    assert forall|i: int| 0 <= i < m0.len() implies match #[trigger] m0[i].1 {
        FieldModel::Table(t) => t.len() > 0 && tables_nonempty(t),
        _ => true,
    } by {
        assert(m0[i] == m[i]);
    }
    assert(match m[m.len() - 1].1 {
        FieldModel::Table(t) => t.len() > 0 && tables_nonempty(t),
        _ => true,
    });
}

/// Loading the flat list of a well-formed block whose tables are not empty gives back the
/// block itself, relinked: the same entries in the same order at every depth.
pub proof fn lemma_load_flat_rebuilds(m: Seq<(Seq<char>, FieldModel)>, ps: Seq<(u128, u128)>)
    requires
        well_formed_block(m),
        tables_nonempty(m),
    ensures
        load_fields(Seq::empty(), flat_of(m), ps) == relinked(m, ps),
    decreases m,
{
    if m.len() == 0 {
        assert(flat_of(m) =~= Seq::<(Seq<char>, u128, FieldModel)>::empty());
    } else {
        let m0 = m.drop_last();
        let e = m.last();
        let k = e.0;
        lemma_well_formed_prefix(m);
        lemma_tables_nonempty_prefix(m);
        lemma_load_flat_rebuilds(m0, ps);
        let r0 = relinked(m0, ps);
        lemma_relinked_entries(m0, ps);
        assert forall|j: int| 0 <= j < r0.len() implies r0[j].0 != k by {
            assert(r0[j].0 == m0[j].0);
            assert(m0[j] == m[j]);
        }
        let b = crate::stat::statblock::entry_fields(e, Seq::empty());
        assert(flat_of(m) == flat_of(m0) + b);
        lemma_load_concat(Seq::empty(), flat_of(m0), b, ps);
        assert(crate::stat::path::join_path(Seq::<char>::empty(), k) == k);
        match e.1 {
            FieldModel::Table(t) => {
                lemma_flat_under(t, k);
                assert(b == under(k, flat_of(t)));
                lemma_some_leaf(t);
                let x = choose|x: Seq<char>| #[trigger] field_at(t, x) matches Some(g) && !(g is Table);
                lemma_flat_complete(t, x);
                lemma_load_under(r0, k, flat_of(t), ps);
                lemma_load_flat_rebuilds(t, ps);
                assert(load_fields(Seq::empty(), flat_of(m0), ps) == r0);
                assert(load_fields(Seq::empty(), flat_of(m), ps) == load_fields(r0, b, ps));
                assert(load_fields(r0, b, ps) == r0.push((k, FieldModel::Table(relinked(t, ps)))));
                assert(relinked_field(e.1, ps) == FieldModel::Table(relinked(t, ps)));
                assert(relinked(m, ps) == r0.push((k, relinked_field(e.1, ps))));
            },
            _ => {
                lemma_plain_key_path(k, Seq::empty());
                assert(b == seq![(k, crate::stat::statblock::field_addr(e.1), crate::stat::statblock::unbound(e.1))]);
                assert(b.drop_last() =~= Seq::<(Seq<char>, u128, FieldModel)>::empty());
                if has_key(r0, k) {
                    let i = crate::stat::statblock::key_index(r0, k);
                    assert(crate::stat::statblock::is_first_key(r0, k, i));
                }
                assert(load_fields(Seq::empty(), flat_of(m0), ps) == r0);
                assert(load_fields(Seq::empty(), flat_of(m), ps) == load_fields(r0, b, ps));
                assert(load_fields(r0, b.drop_last(), ps) == r0);
                assert(b.last() == b[0]);
                assert(load_fields(r0, b, ps) == set_at(r0, k, relink_field(crate::stat::statblock::unbound(e.1), ps), true));
                assert(relinked_field(e.1, ps) == relink_field(crate::stat::statblock::unbound(e.1), ps));
                assert(relinked(m, ps) == r0.push((k, relinked_field(e.1, ps))));
            },
        }
    }
}

/// A copy of a well-formed block whose tables are not empty (see `StatBlock::clone`; storing
/// and loading it gives the same) is the block itself with its links bound to the copied
/// derives: every entry keeps its place and its order.
pub proof fn law_copy_is_the_block_relinked(m: Seq<(Seq<char>, FieldModel)>)
    requires
        well_formed_block(m),
        tables_nonempty(m),
    ensures
        from_flat_model(flat_of(m)) == relinked(m, derive_pairs(flat_of(m))),
{
    lemma_load_flat_rebuilds(m, derive_pairs(flat_of(m)));
}

/// A copy of a well-formed block whose tables are not empty reads the same value as the
/// block at every path, at tables too.
pub proof fn law_copy_reads_the_same(m: Seq<(Seq<char>, FieldModel)>, p: Seq<char>)
    requires
        well_formed_block(m),
        tables_nonempty(m),
    ensures
        crate::stat::statblock::value_at(from_flat_model(flat_of(m)), p) == crate::stat::statblock::value_at(m, p),
{
    let ps = derive_pairs(flat_of(m));
    law_copy_is_the_block_relinked(m);
    lemma_relinked_field_at(m, ps, p);
    if let Some(f) = field_at(m, p) {
        lemma_relinked_field_value(f, ps);
    }
}

/// Rebinding links to the copied derives keeps the parameter that every link feeds. A link
/// whose derive is among the copied ones is bound to that copy; any other link is left
/// unbound, leading where it led.
pub proof fn law_relink_keeps_parameters(ls: Seq<crate::stat::statblock::StatDeriveLink>, ps: Seq<(u128, u128)>)
    ensures
        crate::stat::statblock::relink_links(ls, ps).len() == ls.len(),
        forall|i: int|
            0 <= i < ls.len() ==> #[trigger] crate::stat::statblock::relink_links(ls, ps)[i].param() == ls[i].param(),
        forall|i: int|
            0 <= i < ls.len() ==> match crate::stat::statblock::pair_lookup(ps, ls[i].target()) {
                Some(id) => #[trigger] crate::stat::statblock::relink_links(ls, ps)[i]
                    == crate::stat::statblock::StatDeriveLink::Valid { link: id, index: ls[i].param() },
                None => crate::stat::statblock::relink_links(ls, ps)[i] is Invalid
                    && crate::stat::statblock::relink_links(ls, ps)[i].target() == ls[i].target(),
            },
{
}

/// In a copy of a well-formed block, each stat keeps its links in order, each feeding the
/// same parameter as before: a change of the copied stat reaches the same parameters of the
/// copied derives.
pub proof fn law_copy_keeps_link_parameters(m: Seq<(Seq<char>, FieldModel)>, p: Seq<char>)
    requires
        well_formed_block(m),
        field_at(m, p) matches Some(FieldModel::Stat(_)),
    ensures
        field_at(from_flat_model(flat_of(m)), p) matches Some(FieldModel::Stat(c)) && c.derives.len()
            == field_at(m, p)->0->Stat_0.derives.len() && forall|i: int|
            0 <= i < c.derives.len() ==> #[trigger] c.derives[i].param() == field_at(m, p)->0->Stat_0.derives[i].param(),
{
    let s = field_at(m, p)->0->Stat_0;
    let ps = derive_pairs(flat_of(m));
    law_copy_keeps_every_field(m, p);
    let u = crate::stat::statblock::unbind_links(s.derives);
    law_relink_keeps_parameters(u, ps);
    let c = field_at(from_flat_model(flat_of(m)), p)->0->Stat_0;
    assert(c.derives == crate::stat::statblock::relink_links(u, ps));
    assert forall|i: int| 0 <= i < c.derives.len() implies #[trigger] c.derives[i].param() == s.derives[i].param() by {
        assert(u[i].param() == s.derives[i].param());
    }
}

} // verus!
