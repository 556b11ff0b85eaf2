use vstd::prelude::*;

use crate::stat::path::{path_head, path_tail};
use crate::stat::statblock::{
    DeriveModel, FieldModel, at_loc, derive_loc, derive_loc_from, entry_loc, field_at, find_derive, has_key,
    insert_entry, is_first_key, key_index, lemma_first_key_unique, lemma_loc_from_found,
    lemma_tail_shorter, lookup, replace_derive, send_all_pending, send_model, send_ok, send_pending, sends_ok,
    set_at, set_would_fail, stat_set, update_loc,
};
use crate::stat::value::ValueModel;

verus! {

//==============================================================================================
//        What a write to a stat block does to later reads
//==============================================================================================

/// Storing at `p` reaches its place: every table on the way is there, or is missing and
/// `force` allows creating it.
pub open spec fn set_reaches(m: Seq<(Seq<char>, FieldModel)>, p: Seq<char>, force: bool) -> bool
    decreases p.len(),
{
    match path_tail(p) {
        None => true,
        Some(t) => {
            if t.len() < p.len() {
                match lookup(m, path_head(p)) {
                    None => force,
                    Some(FieldModel::Table(sub)) => set_reaches(sub, t, force),
                    _ => false,
                }
            } else {
                false
            }
        },
    }
}

pub proof fn lemma_lookup_insert_same(m: Seq<(Seq<char>, FieldModel)>, k: Seq<char>, f: FieldModel)
    ensures
        lookup(insert_entry(m, k, f), k) == Some(f),
{
    let r = insert_entry(m, k, f);
    if has_key(m, k) {
        let i = key_index(m, k);
        assert(is_first_key(m, k, i));
        assert(is_first_key(r, k, i));
        lemma_first_key_unique(r, k, i);
    } else {
        let n = m.len() as int;
        assert forall|j: int| 0 <= j < n implies r[j].0 != k by {
            if m[j].0 == k {
                lemma_no_first_key(m, k, j);
            }
        }
        assert(is_first_key(r, k, n));
        lemma_first_key_unique(r, k, n);
    }
}

/// A key that occurs has a first occurrence.
pub proof fn lemma_no_first_key(m: Seq<(Seq<char>, FieldModel)>, k: Seq<char>, j: int)
    requires
        0 <= j < m.len(),
        m[j].0 == k,
    ensures
        has_key(m, k),
    decreases j,
{
    if exists|a: int| 0 <= a < j && m[a].0 == k {
        let a = choose|a: int| 0 <= a < j && m[a].0 == k;
        lemma_no_first_key(m, k, a);
    } else {
        assert(is_first_key(m, k, j));
    }
}

pub proof fn lemma_lookup_insert_other(
    m: Seq<(Seq<char>, FieldModel)>,
    k: Seq<char>,
    f: FieldModel,
    other: Seq<char>,
)
    requires
        other != k,
    ensures
        lookup(insert_entry(m, k, f), other) == lookup(m, other),
{
    let r = insert_entry(m, k, f);
    if has_key(m, other) {
        let i = key_index(m, other);
        assert(is_first_key(m, other, i));
        assert(is_first_key(r, other, i));
        lemma_first_key_unique(r, other, i);
    } else {
        if has_key(r, other) {
            let i = key_index(r, other);
            assert(is_first_key(r, other, i));
            if i < m.len() {
                assert(m[i].0 == other);
                lemma_no_first_key(m, other, i);
            }
        }
    }
}

/// Reading a path right after storing a field there gives that field back, whenever the
/// store reaches its place.
pub proof fn law_get_after_set(m: Seq<(Seq<char>, FieldModel)>, p: Seq<char>, f: FieldModel, force: bool)
    requires
        set_reaches(m, p, force),
    ensures
        !set_would_fail(m, p, force),
        field_at(set_at(m, p, f, force), p) == Some(f),
    decreases p.len(),
{
    lemma_tail_shorter(p);
    let h = path_head(p);
    match path_tail(p) {
        None => {
            lemma_lookup_insert_same(m, h, f);
        },
        Some(t) => {
            match lookup(m, h) {
                None => {
                    lemma_tail_shorter(t);
                    assert(set_reaches(Seq::empty(), t, force)) by {
                        if path_tail(t) is Some {
                            assert(!has_key(Seq::<(Seq<char>, FieldModel)>::empty(), path_head(t)));
                        }
                    }
                    law_get_after_set(Seq::empty(), t, f, force);
                    lemma_lookup_insert_same(m, h, FieldModel::Table(set_at(Seq::empty(), t, f, force)));
                },
                Some(FieldModel::Table(sub)) => {
                    law_get_after_set(sub, t, f, force);
                    lemma_lookup_insert_same(m, h, FieldModel::Table(set_at(sub, t, f, force)));
                },
                _ => {},
            }
        },
    }
}

/// Storing at a path leaves every top-level entry under another name as it was.
pub proof fn law_set_keeps_other_entries(
    m: Seq<(Seq<char>, FieldModel)>,
    p: Seq<char>,
    f: FieldModel,
    force: bool,
    other: Seq<char>,
)
    requires
        other != path_head(p),
    ensures
        lookup(set_at(m, p, f, force), other) == lookup(m, other),
{
    lemma_tail_shorter(p);
    let h = path_head(p);
    match path_tail(p) {
        None => {
            lemma_lookup_insert_other(m, h, f, other);
        },
        Some(t) => {
            match lookup(m, h) {
                None => {
                    if force {
                        lemma_lookup_insert_other(m, h, FieldModel::Table(set_at(Seq::empty(), t, f, force)), other);
                    }
                },
                Some(FieldModel::Table(sub)) => {
                    lemma_lookup_insert_other(m, h, FieldModel::Table(set_at(sub, t, f, force)), other);
                },
                _ => {},
            }
        },
    }
}

} // verus!

verus! {

//==============================================================================================
//        What a change of a stat tells the derives that read it
//==============================================================================================

/// Replacing the field at the location of a derive by a derive of the same identity leaves
/// every search for a derive finding the same location.
pub proof fn lemma_update_keeps_loc_from(
    m: Seq<(Seq<char>, FieldModel)>,
    loc: Seq<int>,
    d: DeriveModel,
    x: u128,
    i: int,
)
    requires
        at_loc(m, loc) matches Some(FieldModel::Derive(d0)) && d0.id == d.id,
    ensures
        derive_loc_from(update_loc(m, loc, FieldModel::Derive(d)), x, i) == derive_loc_from(m, x, i),
    decreases m, m.len() - i,
{
    let u = update_loc(m, loc, FieldModel::Derive(d));
    assert(u.len() == m.len());
    if 0 <= i < m.len() {
        if i != loc[0] {
            assert(u[i] == m[i]);
        } else if loc.len() == 1 {
            assert(u[i].1 == FieldModel::Derive(d));
            assert(entry_loc(u[i].1, x) == entry_loc(m[i].1, x));
        } else {
            match m[i].1 {
                FieldModel::Table(t) => {
                    lemma_update_keeps_loc_from(t, loc.drop_first(), d, x, 0);
                    assert(u[i].1 == FieldModel::Table(update_loc(t, loc.drop_first(), FieldModel::Derive(d))));
                    assert(entry_loc(u[i].1, x) == entry_loc(m[i].1, x));
                },
                _ => {},
            }
        }
        lemma_update_keeps_loc_from(m, loc, d, x, i + 1);
        assert(entry_loc(u[i].1, x) == entry_loc(m[i].1, x));
    }
}

/// The field at a location of a derive stays where it is when another leaf is replaced.
pub proof fn lemma_update_other_leaf(
    m: Seq<(Seq<char>, FieldModel)>,
    l1: Seq<int>,
    f: FieldModel,
    l2: Seq<int>,
)
    requires
        at_loc(m, l1) matches Some(g) && !(g is Table),
        at_loc(m, l2) matches Some(h) && !(h is Table),
        l1 != l2,
    ensures
        at_loc(update_loc(m, l1, f), l2) == at_loc(m, l2),
    decreases l2.len(),
{
    let u = update_loc(m, l1, f);
    if l1[0] != l2[0] {
        if l2.len() > 1 {
            assert(u[l2[0]] == m[l2[0]]);
        }
    } else if l1.len() == 1 {
        if l2.len() == 1 {
            assert(l1 =~= seq![l1[0]]);
            assert(l2 =~= seq![l2[0]]);
        }
    } else if l2.len() == 1 {
    } else {
        match m[l1[0]].1 {
            FieldModel::Table(t) => {
                assert(l1.drop_first() != l2.drop_first()) by {
                    if l1.drop_first() =~= l2.drop_first() {
                        assert(l1.len() > 1 && l2.len() > 1);
                        assert(l1.drop_first().len() == l1.len() - 1);
                        assert(l2.drop_first().len() == l2.len() - 1);
                        assert(l1.len() == l2.len());
                        assert forall|j: int| 0 <= j < l1.len() implies l1[j] == l2[j] by {
                            if j > 0 {
                                assert(l1[j] == l1.drop_first()[j - 1]);
                                assert(l2[j] == l2.drop_first()[j - 1]);
                            }
                        }
                        assert(l1 =~= l2);
                    }
                }
                lemma_update_other_leaf(t, l1.drop_first(), f, l2.drop_first());
            },
            _ => {},
        }
    }
}

/// Sending a value to a derive keeps every derive of the block findable.
pub proof fn lemma_send_keeps_derives(
    m: Seq<(Seq<char>, FieldModel)>,
    id: u128,
    index: usize,
    v: ValueModel,
    x: u128,
)
    ensures
        find_derive(m, x) is Some ==> (find_derive(send_model(m, id, index, v), x) matches Some(e)
            && e.id == x && e.callback == find_derive(m, x)->0.callback),
{
    lemma_loc_from_found(m, x, 0);
    lemma_loc_from_found(m, id, 0);
    if let Some(d) = find_derive(m, id) {
        let l1 = derive_loc(m, id)->0;
        let nd = DeriveModel { params: d.params.update(index as int, v), ..d };
        lemma_update_keeps_loc_from(m, l1, nd, x, 0);
        if find_derive(m, x) is Some {
            let l2 = derive_loc(m, x)->0;
            if l1 != l2 {
                lemma_update_other_leaf(m, l1, FieldModel::Derive(nd), l2);
            } else {
                lemma_at_updated_loc(m, l1, FieldModel::Derive(nd));
            }
        }
    }
}

/// The field at the location just updated is the new one.
pub proof fn lemma_at_updated_loc(m: Seq<(Seq<char>, FieldModel)>, l: Seq<int>, f: FieldModel)
    requires
        at_loc(m, l) is Some,
    ensures
        at_loc(update_loc(m, l, f), l) == Some(f),
    decreases l.len(),
{
    if l.len() > 1 {
        match m[l[0]].1 {
            FieldModel::Table(t) => lemma_at_updated_loc(t, l.drop_first(), f),
            _ => {},
        }
    }
}

/// When a value is sent along links, every derive a link names that the block holds is
/// among those to run again, and the parameter the link names holds the value sent.
pub proof fn lemma_pending_reaches(
    m: Seq<(Seq<char>, FieldModel)>,
    links: Seq<(u128, usize)>,
    v: ValueModel,
    k: int,
)
    requires
        0 <= k < links.len(),
        sends_ok(m, links, v),
        find_derive(m, links[k].0) is Some,
    ensures
        exists|j: int|
            0 <= j < send_all_pending(m, links, v).len() && #[trigger] send_all_pending(m, links, v)[j].0
                == links[k].0 && send_all_pending(m, links, v)[j].2[links[k].1 as int] == v,
    decreases links.len(),
{
    let m1 = send_model(m, links[0].0, links[0].1, v);
    let rest = send_all_pending(m1, links.drop_first(), v);
    let all = send_all_pending(m, links, v);
    if k == 0 {
        let d = find_derive(m, links[0].0)->0;
        assert(send_pending(m, links[0].0, links[0].1, v) == Some((links[0].0, d.callback, d.params.update(links[0].1 as int, v))));
        assert(all[0].0 == links[0].0);
        assert(all[0].2[links[0].1 as int] == v);
    } else {
        lemma_send_keeps_derives(m, links[0].0, links[0].1, v, links[k].0);
        assert(links.drop_first()[k - 1] == links[k]);
        lemma_pending_reaches(m1, links.drop_first(), v, k - 1);
        let j = choose|j: int|
            0 <= j < rest.len() && #[trigger] rest[j].0 == links[k].0 && rest[j].2[links[k].1 as int] == v;
        match send_pending(m, links[0].0, links[0].1, v) {
            Some(p) => {
                assert(all == seq![p] + rest);
                assert(all[j + 1] == rest[j]);
            },
            None => {
                assert(all == rest);
            },
        }
    }
}

/// Setting a stat tells each derive that reads it: every derive the stat has a bound link
/// to, and that the block holds, is among the derives `set_stat` hands back to be run
/// again, with the new value in the parameter the link names.
pub proof fn law_set_stat_notifies_readers(m: Seq<(Seq<char>, FieldModel)>, p: Seq<char>, v: ValueModel, k: int)
    requires
        field_at(m, p) matches Some(FieldModel::Stat(_)),
        0 <= k < stat_set(m, p, v).1.len(),
        sends_ok(stat_set(m, p, v).0, stat_set(m, p, v).1, v),
        find_derive(stat_set(m, p, v).0, stat_set(m, p, v).1[k].0) is Some,
    ensures
        exists|j: int|
            0 <= j < send_all_pending(stat_set(m, p, v).0, stat_set(m, p, v).1, v).len()
                && #[trigger] send_all_pending(stat_set(m, p, v).0, stat_set(m, p, v).1, v)[j].0
                == stat_set(m, p, v).1[k].0 && send_all_pending(stat_set(m, p, v).0, stat_set(m, p, v).1, v)[j].2[stat_set(
                m,
                p,
                v,
            ).1[k].1 as int] == v,
{
    lemma_pending_reaches(stat_set(m, p, v).0, stat_set(m, p, v).1, v, k);
}

//==============================================================================================
//        Which sends find their parameter
//==============================================================================================

/// Replacing the derive `id` by one of the same identity with as many parameters keeps, for
/// every derive, whether the block holds it and how many parameters it takes.
pub proof fn lemma_replace_keeps_param_counts(m: Seq<(Seq<char>, FieldModel)>, id: u128, nd: DeriveModel, x: u128)
    requires
        find_derive(m, id) matches Some(d) && nd.id == id && nd.params.len() == d.params.len(),
    ensures
        find_derive(replace_derive(m, id, nd), x) is Some <==> find_derive(m, x) is Some,
        find_derive(m, x) is Some ==> find_derive(replace_derive(m, id, nd), x)->0.params.len()
            == find_derive(m, x)->0.params.len(),
{
    lemma_loc_from_found(m, x, 0);
    lemma_loc_from_found(m, id, 0);
    let l1 = derive_loc(m, id)->0;
    let u = update_loc(m, l1, FieldModel::Derive(nd));
    assert(replace_derive(m, id, nd) == u);
    lemma_update_keeps_loc_from(m, l1, nd, x, 0);
    lemma_loc_from_found(u, x, 0);
    if let Some(l2) = derive_loc(m, x) {
        if l1 != l2 {
            lemma_update_other_leaf(m, l1, FieldModel::Derive(nd), l2);
        } else {
            lemma_at_updated_loc(m, l1, FieldModel::Derive(nd));
        }
    }
}

/// Sending along `links` finds every parameter exactly when each link, taken on its own in
/// the block as it is, names a parameter its derive has: a send changes no derive's number
/// of parameters.
pub proof fn lemma_sends_ok_iff(m: Seq<(Seq<char>, FieldModel)>, links: Seq<(u128, usize)>, v: ValueModel)
    ensures
        sends_ok(m, links, v) <==> forall|i: int| 0 <= i < links.len() ==> #[trigger] send_ok(m, links[i].0, links[i].1),
    decreases links.len(),
{
    if links.len() > 0 {
        let m1 = send_model(m, links[0].0, links[0].1, v);
        let rest = links.drop_first();
        lemma_sends_ok_iff(m1, rest, v);
        if send_ok(m, links[0].0, links[0].1) {
            assert forall|x: u128, k: usize| #[trigger] send_ok(m1, x, k) == send_ok(m, x, k) by {
                lemma_loc_from_found(m, links[0].0, 0);
                if let Some(d) = find_derive(m, links[0].0) {
                    assert(d.id == links[0].0);
                    assert(links[0].1 < d.params.len());
                    assert(d.params.update(links[0].1 as int, v).len() == d.params.len());
                    lemma_replace_keeps_param_counts(
                        m,
                        links[0].0,
                        DeriveModel { params: d.params.update(links[0].1 as int, v), ..d },
                        x,
                    );
                }
            }
            if forall|i: int| 0 <= i < links.len() ==> #[trigger] send_ok(m, links[i].0, links[i].1) {
                assert forall|j: int| 0 <= j < rest.len() implies #[trigger] send_ok(m1, rest[j].0, rest[j].1) by {
                    assert(rest[j] == links[j + 1]);
                    assert(send_ok(m, links[j + 1].0, links[j + 1].1));
                }
            }
            if sends_ok(m, links, v) {
                assert forall|i: int| 0 <= i < links.len() implies #[trigger] send_ok(m, links[i].0, links[i].1) by {
                    if i > 0 {
                        assert(links[i] == rest[i - 1]);
                        assert(send_ok(m1, rest[i - 1].0, rest[i - 1].1));
                    }
                }
            }
        } else {
            assert(!send_ok(m, links[0].0, links[0].1));
        }
    }
}

/// Searching entries that tell the same about the derive `x` finds it at the same place,
/// and the place found is an entry holding it.
pub proof fn lemma_same_entry_locs(m1: Seq<(Seq<char>, FieldModel)>, m2: Seq<(Seq<char>, FieldModel)>, x: u128, i: int)
    requires
        m1.len() == m2.len(),
        forall|j: int| 0 <= j < m1.len() ==> #[trigger] entry_loc(m1[j].1, x) == entry_loc(m2[j].1, x),
    ensures
        derive_loc_from(m1, x, i) == derive_loc_from(m2, x, i),
        derive_loc_from(m1, x, i) matches Some(l) ==> l.len() >= 1 && 0 <= l[0] < m1.len() && entry_loc(
            m1[l[0]].1,
            x,
        ) == Some(l.drop_first()),
    decreases m1.len() - i,
{
    if 0 <= i < m1.len() {
        assert(entry_loc(m1[i].1, x) == entry_loc(m2[i].1, x));
        match entry_loc(m1[i].1, x) {
            Some(p) => {
                assert((seq![i] + p).drop_first() =~= p);
            },
            None => {
                lemma_same_entry_locs(m1, m2, x, i + 1);
            },
        }
    }
}

/// Giving a stat a new value keeps every derive of the block where it is, as it is.
pub proof fn lemma_stat_set_keeps_derive(m: Seq<(Seq<char>, FieldModel)>, p: Seq<char>, f: FieldModel, x: u128)
    requires
        field_at(m, p) matches Some(FieldModel::Stat(_)),
        f is Stat,
    ensures
        derive_loc(set_at(m, p, f, false), x) == derive_loc(m, x),
        find_derive(set_at(m, p, f, false), x) == find_derive(m, x),
    decreases p.len(),
{
    lemma_tail_shorter(p);
    let k = path_head(p);
    let u = set_at(m, p, f, false);
    let ki = key_index(m, k);
    assert(has_key(m, k));
    lemma_first_key_unique(m, k, ki);
    let g = match path_tail(p) {
        None => f,
        Some(t) => match m[ki].1 {
            FieldModel::Table(sub) => FieldModel::Table(set_at(sub, t, f, false)),
            _ => f,
        },
    };
    assert(u == m.update(ki, (k, g)));
    match path_tail(p) {
        None => {
            assert(m[ki].1 is Stat);
        },
        Some(t) => {
            let sub = m[ki].1->Table_0;
            lemma_stat_set_keeps_derive(sub, t, f, x);
            lemma_loc_from_found(sub, x, 0);
            lemma_loc_from_found(set_at(sub, t, f, false), x, 0);
        },
    }
    assert forall|j: int| 0 <= j < m.len() implies #[trigger] entry_loc(u[j].1, x) == entry_loc(m[j].1, x) by {
        if j == ki {
            assert(u[j].1 == g);
        } else {
            assert(u[j] == m[j]);
        }
    }
    lemma_same_entry_locs(u, m, x, 0);
    lemma_loc_from_found(m, x, 0);
    lemma_loc_from_found(u, x, 0);
    if let Some(l) = derive_loc(m, x) {
        if l[0] != ki {
            assert(u[l[0]] == m[l[0]]);
            assert(at_loc(u, l) == at_loc(m, l));
        } else {
            assert(l.len() > 1);
            assert(at_loc(u, l) == at_loc(u[ki].1->Table_0, l.drop_first()));
        }
    }
}

//==============================================================================================
//        Every reader of a changed value is told
//==============================================================================================

/// The bound links of a list are its `Valid` links, as (derive, parameter), each one there.
pub proof fn lemma_valid_links_members(ls: Seq<crate::stat::statblock::StatDeriveLink>)
    ensures
        forall|k: int|
            #![trigger crate::stat::statblock::valid_links(ls)[k]]
            0 <= k < crate::stat::statblock::valid_links(ls).len() ==> exists|j: int|
                #![trigger ls[j]]
                0 <= j < ls.len() && ls[j] is Valid && crate::stat::statblock::valid_links(ls)[k] == (
                    ls[j].target(),
                    ls[j].param(),
                ),
        forall|j: int|
            0 <= j < ls.len() && #[trigger] ls[j] is Valid ==> exists|k: int|
                0 <= k < crate::stat::statblock::valid_links(ls).len() && crate::stat::statblock::valid_links(ls)[k] == (
                    ls[j].target(),
                    ls[j].param(),
                ),
    decreases ls.len(),
{
    if ls.len() > 0 {
        let l0 = ls.drop_last();
        lemma_valid_links_members(l0);
        let v0 = crate::stat::statblock::valid_links(l0);
        let v = crate::stat::statblock::valid_links(ls);
        let n = ls.len() - 1;
        assert forall|k: int| #![trigger v[k]] 0 <= k < v.len() implies exists|j: int|
            #![trigger ls[j]]
            0 <= j < ls.len() && ls[j] is Valid && v[k] == (ls[j].target(), ls[j].param()) by {
            if k < v0.len() {
                let j = choose|j: int| 0 <= j < l0.len() && l0[j] is Valid && v0[k] == (l0[j].target(), l0[j].param());
                assert(l0[j] == ls[j]);
                assert(v[k] == v0[k]);
                assert(0 <= j < ls.len() && ls[j] is Valid && v[k] == (ls[j].target(), ls[j].param()));
            } else {
                assert(ls[n] is Valid);
                assert(v[k] == (ls[n].target(), ls[n].param()));
                assert(0 <= n < ls.len() && ls[n] is Valid && v[k] == (ls[n].target(), ls[n].param()));
            }
        }
        assert forall|j: int| 0 <= j < ls.len() && #[trigger] ls[j] is Valid implies exists|k: int|
            0 <= k < v.len() && v[k] == (ls[j].target(), ls[j].param()) by {
            if j < n {
                assert(l0[j] == ls[j]);
                let k = choose|k: int| 0 <= k < v0.len() && v0[k] == (l0[j].target(), l0[j].param());
                assert(v[k] == v0[k]);
            } else {
                assert(v[v0.len() as int] == (ls[n].target(), ls[n].param()));
            }
        }
    } else {
        assert(crate::stat::statblock::valid_links(ls).len() == 0);
    }
}

/// When a derive takes a new value (see `StatBlock::resolve`), every derive that reads it
/// through a bound link, and that the block holds, is among the derives handed back to be
/// run again, with the new value in the parameter the link names. The value travels on
/// down a chain of derives.
pub proof fn law_resolve_notifies_readers(m: Seq<(Seq<char>, FieldModel)>, id: u128, v: ValueModel, j: int)
    requires
        find_derive(m, id) matches Some(d) && 0 <= j < d.source.derives.len() && d.source.derives[j] is Valid,
        find_derive(m, find_derive(m, id)->0.source.derives[j].target()) is Some,
        forall|i: int|
            0 <= i < find_derive(m, id)->0.source.derives.len() && #[trigger] find_derive(m, id)->0.source.derives[i]
                is Valid ==> send_ok(
                m,
                find_derive(m, id)->0.source.derives[i].target(),
                find_derive(m, id)->0.source.derives[i].param(),
            ),
    ensures
        sends_ok(
            crate::stat::statblock::derive_set(m, id, v).0,
            crate::stat::statblock::derive_set(m, id, v).1,
            v,
        ),
        exists|k: int|
            0 <= k < send_all_pending(
                crate::stat::statblock::derive_set(m, id, v).0,
                crate::stat::statblock::derive_set(m, id, v).1,
                v,
            ).len() && #[trigger] send_all_pending(
                crate::stat::statblock::derive_set(m, id, v).0,
                crate::stat::statblock::derive_set(m, id, v).1,
                v,
            )[k].0 == find_derive(m, id)->0.source.derives[j].target() && send_all_pending(
                crate::stat::statblock::derive_set(m, id, v).0,
                crate::stat::statblock::derive_set(m, id, v).1,
                v,
            )[k].2[find_derive(m, id)->0.source.derives[j].param() as int] == v,
{
    let d = find_derive(m, id)->0;
    let ls = d.source.derives;
    lemma_loc_from_found(m, id, 0);
    let nd = DeriveModel { source: crate::stat::statblock::SourceModel { value: v, derives: ls }, ..d };
    let m1 = replace_derive(m, id, nd);
    let links = crate::stat::statblock::valid_links(ls);
    assert(crate::stat::statblock::derive_set(m, id, v) == (m1, links));
    lemma_valid_links_members(ls);
    lemma_sends_ok_iff(m1, links, v);
    assert forall|k: int| 0 <= k < links.len() implies #[trigger] send_ok(m1, links[k].0, links[k].1) by {
        let i = choose|i: int| 0 <= i < ls.len() && ls[i] is Valid && links[k] == (ls[i].target(), ls[i].param());
        lemma_replace_keeps_param_counts(m, id, nd, ls[i].target());
        assert(send_ok(m, ls[i].target(), ls[i].param()));
    }
    let k = choose|k: int| 0 <= k < links.len() && links[k] == (ls[j].target(), ls[j].param());
    lemma_replace_keeps_param_counts(m, id, nd, ls[j].target());
    lemma_pending_reaches(m1, links, v, k);
}

/// When a stat takes a new value (see `StatBlock::set_stat`), every derive that reads it
/// through a bound link, and that the block holds, is among the derives handed back to be
/// run again, with the new value in the parameter the link names.
pub proof fn law_set_stat_reaches_every_reader(m: Seq<(Seq<char>, FieldModel)>, p: Seq<char>, v: ValueModel, j: int)
    requires
        field_at(m, p) matches Some(FieldModel::Stat(s)) && 0 <= j < s.derives.len() && s.derives[j] is Valid,
        find_derive(m, field_at(m, p)->0->Stat_0.derives[j].target()) is Some,
        forall|i: int|
            0 <= i < field_at(m, p)->0->Stat_0.derives.len() && #[trigger] field_at(m, p)->0->Stat_0.derives[i]
                is Valid ==> send_ok(
                m,
                field_at(m, p)->0->Stat_0.derives[i].target(),
                field_at(m, p)->0->Stat_0.derives[i].param(),
            ),
    ensures
        sends_ok(stat_set(m, p, v).0, stat_set(m, p, v).1, v),
        exists|k: int|
            0 <= k < send_all_pending(stat_set(m, p, v).0, stat_set(m, p, v).1, v).len() && #[trigger] send_all_pending(
                stat_set(m, p, v).0,
                stat_set(m, p, v).1,
                v,
            )[k].0 == field_at(m, p)->0->Stat_0.derives[j].target() && send_all_pending(
                stat_set(m, p, v).0,
                stat_set(m, p, v).1,
                v,
            )[k].2[field_at(m, p)->0->Stat_0.derives[j].param() as int] == v,
{
    let s = field_at(m, p)->0->Stat_0;
    let ls = s.derives;
    let f = FieldModel::Stat(crate::stat::statblock::SourceModel { value: v, derives: ls });
    let m1 = set_at(m, p, f, false);
    let links = crate::stat::statblock::valid_links(ls);
    assert(stat_set(m, p, v) == (m1, links));
    lemma_valid_links_members(ls);
    lemma_sends_ok_iff(m1, links, v);
    assert forall|k: int| 0 <= k < links.len() implies #[trigger] send_ok(m1, links[k].0, links[k].1) by {
        let i = choose|i: int| 0 <= i < ls.len() && ls[i] is Valid && links[k] == (ls[i].target(), ls[i].param());
        lemma_stat_set_keeps_derive(m, p, f, ls[i].target());
        assert(send_ok(m, ls[i].target(), ls[i].param()));
    }
    let k = choose|k: int| 0 <= k < links.len() && links[k] == (ls[j].target(), ls[j].param());
    lemma_stat_set_keeps_derive(m, p, f, ls[j].target());
    lemma_pending_reaches(m1, links, v, k);
}

} // verus!
