use vstd::prelude::*;

use crate::error::FreError;

verus! {

/// The errors of the application's commands.
#[derive(Debug)]
pub enum FamiliarError {
    FreError(FreError),
    UuidError(String),
    InvalidRulebook(String),
    CacheObjectNotFound { cache_name: String, uuid: u128 },
    UnableToFindCharacterConstructorForRuleset(String),
}

impl FamiliarError {
    pub fn cache_object_not_found(cache_name: &str, uuid: u128) -> (r: FamiliarError)
        ensures
            r matches FamiliarError::CacheObjectNotFound { cache_name: n, uuid: u } && n@ == cache_name@
                && u == uuid,
    {
        FamiliarError::CacheObjectNotFound { cache_name: cache_name.to_owned(), uuid }
    }

    pub fn missing_character_constructor(ruleset: &str) -> (r: FamiliarError)
        ensures
            r matches FamiliarError::UnableToFindCharacterConstructorForRuleset(n) && n@ == ruleset@,
    {
        FamiliarError::UnableToFindCharacterConstructorForRuleset(ruleset.to_owned())
    }
}

} // verus!
