use vstd::prelude::*;

use crate::backend::cache::{Cache, counted, released};
use crate::backend::error::FamiliarError;
use crate::common::choice::{Input, InputModel};
use crate::common::ids::{parse_uuid, uuid_hyphenated, uuid_parsed, uuid_to_string};
use crate::common::meta::HasItemMeta;
use crate::constructor::{Constructor, ConstructorModel};
use crate::error::{ConstructorError, FreError};

verus! {

//==============================================================================================
//        Constructor commands
//==============================================================================================

/// The tag that marks the constructor that makes characters.
pub open spec fn character_creator_tag() -> Seq<char> {
    "Character Creator"@
}

/// The position of the first constructor tagged as the character creator.
pub open spec fn is_first_creator(s: Seq<ConstructorModel>, i: int) -> bool {
    &&& 0 <= i < s.len()
    &&& s[i].meta.tags.contains(character_creator_tag())
    &&& forall|j: int| 0 <= j < i ==> !s[j].meta.tags.contains(character_creator_tag())
}

pub open spec fn constructor_views(s: Seq<Constructor>) -> Seq<ConstructorModel> {
    s.map_values(|c: Constructor| c@)
}

/// The first of `constructors` tagged `Character Creator`, or the error that the ruleset
/// has none.
pub fn find_character_creator(constructors: Vec<Constructor>, ruleset: &str) -> (r: Result<Constructor, FamiliarError>)
    ensures
        match r {
            Ok(c) => exists|i: int| is_first_creator(constructor_views(constructors@), i) && c == constructors@[i],
            Err(e) => (forall|j: int| 0 <= j < constructors@.len() ==> !(#[trigger] constructors@[j]@).meta.tags.contains(
                character_creator_tag(),
            )) && (e matches FamiliarError::UnableToFindCharacterConstructorForRuleset(n) && n@ == ruleset@),
        },
{
    let ghost all = constructors@;
    let n = constructors.len();
    let mut rest = constructors;
    let mut rev: Vec<Constructor> = Vec::new();
    while rest.len() > 0
        invariant
            rest@ + rev@.reverse() == all,
        decreases rest@.len(),
    {
        let ghost before = rest@;
        let x = rest.pop().unwrap();
        proof {
            assert(before =~= rest@.push(x));
        }
        rev.push(x);
        proof {
            assert(rest@ + rev@.reverse() =~= all);
        }
    }
    let mut k: usize = 0;
    proof {
        assert(rev@.reverse() =~= all);
        reveal_strlit("Character Creator");
    }
    while rev.len() > 0
        invariant
            rev@.len() + k == all.len(),
            all.len() == n,
            all == constructors@,
            rev@.reverse() == all.skip(k as int),
            forall|j: int| 0 <= j < k ==> !(#[trigger] all[j]@).meta.tags.contains(character_creator_tag()),
        decreases rev@.len(),
    {
        let ghost before = rev@;
        let x = rev.pop().unwrap();
        proof {
            assert(before =~= rev@.push(x));
            assert(before.reverse() =~= seq![x] + rev@.reverse());
            assert(all.skip(k as int)[0] == x);
            assert(all.skip(k + 1) =~= all.skip(k as int).drop_first());
            reveal_strlit("Character Creator");
        }
        if x.get_meta().has_tag("Character Creator") {
            proof {
                assert(is_first_creator(constructor_views(all), k as int));
                assert(x == constructors@[k as int]);
            }
            return Ok(x);
        }
        k = k + 1;
    }
    Err(FamiliarError::missing_character_constructor(ruleset))
}

/// Holds the character creator among `constructors` in `cache` and gives its identifier as
/// text; without one, the error that the ruleset has none.
pub fn constructor_cache_character_creator(
    ruleset: &str,
    constructors: Vec<Constructor>,
    cache: &mut Cache<Constructor>,
) -> (r: Result<String, FamiliarError>)
    requires
        forall|i: int|
            #![trigger is_first_creator(constructor_views(constructors@), i)]
            is_first_creator(constructor_views(constructors@), i) && old(cache).counts().contains_key(
                constructors@[i]@.meta.uuid,
            ) ==> old(cache).counts()[constructors@[i]@.meta.uuid] < usize::MAX,
    ensures
        match r {
            Ok(text) => exists|i: int| {
                &&& is_first_creator(constructor_views(constructors@), i)
                &&& text@ == uuid_hyphenated(constructors@[i]@.meta.uuid)
                &&& final(cache).counts() == counted(old(cache).counts(), constructors@[i]@.meta.uuid)
                &&& final(cache).items() == (if old(cache).items().contains_key(constructors@[i]@.meta.uuid) {
                    old(cache).items()
                } else {
                    old(cache).items().insert(constructors@[i]@.meta.uuid, constructors@[i])
                })
            },
            Err(e) => {
                &&& forall|j: int|
                    0 <= j < constructors@.len() ==> !(#[trigger] constructors@[j]@).meta.tags.contains(
                        character_creator_tag(),
                    )
                &&& e matches FamiliarError::UnableToFindCharacterConstructorForRuleset(n) && n@ == ruleset@
                &&& final(cache).items() == old(cache).items()
                &&& final(cache).counts() == old(cache).counts()
            },
        },
{
    let creator = match find_character_creator(constructors, ruleset) {
        Ok(c) => c,
        Err(e) => return Err(e),
    };
    let uuid = creator.get_meta().uuid();
    cache.cache(creator);
    Ok(uuid_to_string(uuid))
}

/// The step at `index` of the constructor held in `cache` under the identifier written as
/// `uuid`; a text that is no identifier, an identifier not held, or a step that is not
/// there is reported.
pub fn constructor_get_step(uuid: &str, index: usize, cache: &Cache<Constructor>) -> (r: Result<Input, FamiliarError>)
    ensures
        match uuid_parsed(uuid@) {
            Err(e) => r matches Err(FamiliarError::UuidError(m)) && m@ == e,
            Ok(id) => if !cache.items().contains_key(id) {
                r matches Err(FamiliarError::CacheObjectNotFound { cache_name: n, uuid: u }) && n@ == "Constructor"@
                    && u == id
            } else if index < cache.items()[id]@.steps.len() {
                r is Ok && r->Ok_0@ == cache.items()[id]@.steps[index as int].1
            } else {
                r matches Err(FamiliarError::FreError(FreError::ConstructorError(
                    ConstructorError::ConstructorAttemptToIndexEmptyStep(i),
                ))) && i == index
            },
        },
{
    let id = match parse_uuid(uuid) {
        Ok(id) => id,
        Err(e) => return Err(FamiliarError::UuidError(e)),
    };
    let constructor = match cache.get(id) {
        Some(c) => c,
        None => {
            proof {
                reveal_strlit("Constructor");
            }
            return Err(FamiliarError::cache_object_not_found("Constructor", id));
        },
    };
    match constructor.get_step(index) {
        Ok(input) => Ok(input.clone()),
        Err(e) => Err(FamiliarError::FreError(e)),
    }
}

/// Releases one reference to the constructor held under the identifier written as `uuid`.
pub fn constructor_release_ref(uuid: &str, cache: &mut Cache<Constructor>) -> (r: Result<(), FamiliarError>)
    ensures
        match uuid_parsed(uuid@) {
            Err(e) => (r matches Err(FamiliarError::UuidError(m)) && m@ == e) && final(cache).items()
                == old(cache).items() && final(cache).counts() == old(cache).counts(),
            Ok(id) => r is Ok && (final(cache).items(), final(cache).counts()) == released(
                old(cache).items(),
                old(cache).counts(),
                id,
            ),
        },
{
    let id = match parse_uuid(uuid) {
        Ok(id) => id,
        Err(e) => return Err(FamiliarError::UuidError(e)),
    };
    cache.decrement_count(id);
    Ok(())
}

} // verus!
