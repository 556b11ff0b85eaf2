use vstd::prelude::*;

use crate::asset::{Asset, AssetModel};
use crate::rulebook::{RulebookMeta, RulesetInfo, RulesetModel, ruleset_named};

verus! {

//==============================================================================================
//        Choosing among rulebooks
//==============================================================================================

/// The rulebooks of the ruleset that goes by `ruleset` (short name or title), in order.
pub open spec fn in_ruleset<T>(s: Seq<(RulebookMeta, T)>, ruleset: Seq<char>) -> Seq<(RulebookMeta, T)>
    decreases s.len(),
{
    if s.len() == 0 {
        Seq::empty()
    } else if ruleset_named(s.last().0.ruleset@, ruleset) {
        in_ruleset(s.drop_last(), ruleset).push(s.last())
    } else {
        in_ruleset(s.drop_last(), ruleset)
    }
}

/// The rulebooks, each with what goes with it, whose ruleset goes by `ruleset`.
pub fn rulebooks_in_ruleset<T>(rulebooks: Vec<(RulebookMeta, T)>, ruleset: &str) -> (r: Vec<(RulebookMeta, T)>)
    ensures
        r@ == in_ruleset(rulebooks@, ruleset@),
{
    let ghost all = rulebooks@;
    let mut rest = rulebooks;
    let mut rev: Vec<(RulebookMeta, T)> = Vec::new();
    while rest.len() > 0
        invariant
            rest@ + rev@.reverse() == all,
        decreases rest@.len(),
    {
        let ghost before = rest@;
        let x = rest.pop().unwrap();
        proof {
            assert(before =~= rest@.push(x));
        }
        rev.push(x);
        proof {
            assert(rest@ + rev@.reverse() =~= all);
        }
    }
    let mut out: Vec<(RulebookMeta, T)> = Vec::new();
    let mut k: usize = 0;
    let n = rev.len();
    proof {
        assert(rev@.reverse() =~= all);
        assert(in_ruleset(all.take(0), ruleset@) =~= Seq::<(RulebookMeta, T)>::empty());
    }
    while rev.len() > 0
        invariant
            n == all.len(),
            rev@.len() + k == n,
            rev@.reverse() == all.skip(k as int),
            out@ == in_ruleset(all.take(k as int), ruleset@),
        decreases rev@.len(),
    {
        let ghost before = rev@;
        let x = rev.pop().unwrap();
        proof {
            assert(before =~= rev@.push(x));
            assert(before.reverse()[0] == x);
            assert(all.skip(k as int)[0] == all[k as int]);
            assert(all.take(k + 1) =~= all.take(k as int).push(x));
            assert(before.reverse() =~= seq![x] + rev@.reverse());
            assert(all.skip(k + 1) =~= all.skip(k as int).drop_first());
            assert(rev@.reverse() =~= all.skip(k + 1));
            assert(all.take(k + 1).drop_last() =~= all.take(k as int));
            assert(all.take(k + 1).last() == x);
            assert(in_ruleset(all.take(k + 1), ruleset@) == if ruleset_named(x.0.ruleset@, ruleset@) {
                in_ruleset(all.take(k as int), ruleset@).push(x)
            } else {
                in_ruleset(all.take(k as int), ruleset@)
            });
        }
        if x.0.ruleset.is_named(ruleset) {
            out.push(x);
        }
        k = k + 1;
    }
    proof {
        assert(all.take(n as int) =~= all);
    }
    out
}

/// The rulesets, the first of each title, in order.
pub open spec fn first_of_each_title(s: Seq<RulesetModel>) -> Seq<RulesetModel>
    decreases s.len(),
{
    if s.len() == 0 {
        Seq::empty()
    } else {
        let r = first_of_each_title(s.drop_last());
        if r.map_values(|m: RulesetModel| m.title).contains(s.last().title) {
            r
        } else {
            r.push(s.last())
        }
    }
}

pub open spec fn ruleset_views(s: Seq<RulebookMeta>) -> Seq<RulesetModel> {
    s.map_values(|m: RulebookMeta| m.ruleset@)
}

/// The rulesets the rulebooks belong to, each title once, first come first kept.
pub fn available_rulesets(metas: &Vec<RulebookMeta>) -> (r: Vec<RulesetInfo>)
    ensures
        r@.map_values(|i: RulesetInfo| i@) == first_of_each_title(ruleset_views(metas@)),
{
    let mut out: Vec<RulesetInfo> = Vec::new();
    let mut titles: Vec<String> = Vec::new();
    let mut k: usize = 0;
    proof {
        assert(ruleset_views(metas@.take(0)) =~= Seq::<RulesetModel>::empty());
        assert(out@.map_values(|i: RulesetInfo| i@) =~= Seq::<RulesetModel>::empty());
    }
    while k < metas.len()
        invariant
            0 <= k <= metas@.len(),
            out@.map_values(|i: RulesetInfo| i@) == first_of_each_title(ruleset_views(metas@.take(k as int))),
            crate::common::entries::text_views(titles@) == out@.map_values(|i: RulesetInfo| i@).map_values(
                |m: RulesetModel| m.title,
            ),
        decreases metas@.len() - k,
    {
        let info = &metas[k].ruleset;
        proof {
            assert(ruleset_views(metas@.take(k + 1)).drop_last() =~= ruleset_views(metas@.take(k as int)));
            assert(ruleset_views(metas@.take(k + 1)).last() == metas@[k as int].ruleset@);
        }
        if !crate::common::entries::contains_text(&titles, info.title()) {
            let ghost before = out@;
            let ghost before_titles = titles@;
            titles.push(info.title().to_owned());
            out.push(info.clone());
            proof {
                assert(out@.map_values(|i: RulesetInfo| i@) =~= before.map_values(|i: RulesetInfo| i@).push(
                    info@,
                ));
                assert(crate::common::entries::text_views(titles@) =~= crate::common::entries::text_views(
                    before_titles,
                ).push(info@.title));
                assert(out@.map_values(|i: RulesetInfo| i@).map_values(|m: RulesetModel| m.title) =~= before.map_values(
                    |i: RulesetInfo| i@,
                ).map_values(|m: RulesetModel| m.title).push(info@.title));
            }
        }
        k = k + 1;
    }
    proof {
        assert(metas@.take(metas@.len() as int) =~= metas@);
    }
    out
}

/// The covers of the rulebooks that have one, in order.
pub open spec fn covers_of<T>(s: Seq<(RulebookMeta, T)>) -> Seq<AssetModel>
    decreases s.len(),
{
    if s.len() == 0 {
        Seq::empty()
    } else {
        match s.last().0.cover {
            Some(c) => covers_of(s.drop_last()).push(c@),
            None => covers_of(s.drop_last()),
        }
    }
}

/// The covers of the rulebooks that have one, in order.
pub fn rulebook_covers<T>(rulebooks: &Vec<(RulebookMeta, T)>) -> (r: Vec<Asset>)
    ensures
        r@.map_values(|a: Asset| a@) == covers_of(rulebooks@),
{
    let mut out: Vec<Asset> = Vec::new();
    let mut k: usize = 0;
    proof {
        assert(out@.map_values(|a: Asset| a@) =~= Seq::<AssetModel>::empty());
    }
    while k < rulebooks.len()
        invariant
            0 <= k <= rulebooks@.len(),
            out@.map_values(|a: Asset| a@) == covers_of(rulebooks@.take(k as int)),
        decreases rulebooks@.len() - k,
    {
        proof {
            assert(rulebooks@.take(k + 1).drop_last() =~= rulebooks@.take(k as int));
        }
        match &rulebooks[k].0.cover {
            Some(c) => {
                let ghost before = out@;
                out.push(c.clone());
                proof {
                    assert(out@.map_values(|a: Asset| a@) =~= before.map_values(|a: Asset| a@).push(c@));
                }
            },
            None => {},
        }
        k = k + 1;
    }
    proof {
        assert(rulebooks@.take(rulebooks@.len() as int) =~= rulebooks@);
    }
    out
}

/// The covers of two lists of rulebooks joined are the covers of the first followed by
/// those of the second: no cover is dropped, added or moved.
pub proof fn law_covers_of_joined<T>(s1: Seq<(RulebookMeta, T)>, s2: Seq<(RulebookMeta, T)>)
    ensures
        covers_of(s1 + s2) == covers_of(s1) + covers_of(s2),
    decreases s2.len(),
{
    if s2.len() == 0 {
        assert(s1 + s2 =~= s1);
        assert(covers_of(s1) + covers_of(s2) =~= covers_of(s1));
    } else {
        assert((s1 + s2).drop_last() =~= s1 + s2.drop_last());
        assert((s1 + s2).last() == s2.last());
        law_covers_of_joined(s1, s2.drop_last());
        match s2.last().0.cover {
            Some(c) => {
                assert(covers_of(s1) + covers_of(s2.drop_last()).push(c@) =~= (covers_of(s1) + covers_of(
                    s2.drop_last(),
                )).push(c@));
            },
            None => {},
        }
    }
}

/// One rulebook offers its cover, if it has one, and nothing else.
pub proof fn law_covers_of_one<T>(m: RulebookMeta, t: T)
    ensures
        covers_of(seq![(m, t)]) == match m.cover {
            Some(c) => seq![c@],
            None => Seq::<AssetModel>::empty(),
        },
{
    assert(seq![(m, t)].drop_last() =~= Seq::<(RulebookMeta, T)>::empty());
    assert(seq![(m, t)].last() == (m, t));
    assert(covers_of(Seq::<(RulebookMeta, T)>::empty()) == Seq::<AssetModel>::empty());
    match m.cover {
        Some(c) => {
            assert(Seq::<AssetModel>::empty().push(c@) =~= seq![c@]);
        },
        None => {},
    }
}

/// Adding a rulebook with a cover adds that cover last; adding one without a cover adds
/// nothing.
pub proof fn law_covers_of_push<T>(s: Seq<(RulebookMeta, T)>, m: RulebookMeta, t: T)
    ensures
        covers_of(s.push((m, t))) == match m.cover {
            Some(c) => covers_of(s).push(c@),
            None => covers_of(s),
        },
{
    assert(s.push((m, t)) =~= s + seq![(m, t)]);
    law_covers_of_joined(s, seq![(m, t)]);
    law_covers_of_one(m, t);
    match m.cover {
        Some(c) => {
            assert(covers_of(s) + seq![c@] =~= covers_of(s).push(c@));
        },
        None => {
            assert(covers_of(s) + Seq::<AssetModel>::empty() =~= covers_of(s));
        },
    }
}

} // verus!
