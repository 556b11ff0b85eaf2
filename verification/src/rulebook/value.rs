use vstd::prelude::*;

use crate::common::identifier::{Identifier, IdentifierModel};
use crate::error::FreError;

verus! {

//==============================================================================================
//        RulebookValue
//==============================================================================================

/// An item held in place, or a reference to one stored in a rulebook.
#[derive(Debug)]
pub enum RulebookValue<T> {
    Value(T),
    Ref(Identifier),
}

impl<T> RulebookValue<T> {
    /// Takes the item out to be stored, leaving a reference (the default identifier) in its
    /// place; a reference stays as it is and nothing is taken.
    pub fn take_value(&mut self) -> (r: Option<T>)
        ensures
            match *old(self) {
                RulebookValue::Value(v) => r == Some(v) && (*final(self) matches RulebookValue::Ref(id)
                    && id@ == (IdentifierModel { rulebook: None, uuid: 0, kind: Seq::empty() })),
                RulebookValue::Ref(_) => r is None && *final(self) == *old(self),
            },
    {
        if self.is_value() {
            let mut taken = RulebookValue::Ref(Identifier::default());
            std::mem::swap(&mut taken, self);
            match taken {
                RulebookValue::Value(v) => Some(v),
                RulebookValue::Ref(_) => None,
            }
        } else {
            None
        }
    }

    pub fn is_value(&self) -> (r: bool)
        ensures
            r == (*self is Value),
    {
        matches!(self, RulebookValue::Value(..))
    }

    pub fn is_ref(&self) -> (r: bool)
        ensures
            r == (*self is Ref),
    {
        matches!(self, RulebookValue::Ref(..))
    }

    pub fn as_value(&self) -> (r: Option<&T>)
        ensures
            match *self {
                RulebookValue::Value(v) => r == Some(&v),
                RulebookValue::Ref(_) => r is None,
            },
    {
        match self {
            RulebookValue::Value(v) => Some(v),
            RulebookValue::Ref(_) => None,
        }
    }

    /// A reference to the item `id` names, which must be of kind `kind`; otherwise
    /// `IdentifierTypeMismatch` with the kind found and the kind expected.
    pub fn try_from_identifier(id: Identifier, kind: &str) -> (r: Result<RulebookValue<T>, FreError>)
        ensures
            id@.kind == kind@ ==> r is Ok && (r->Ok_0 matches RulebookValue::Ref(i) && i@ == id@),
            id@.kind != kind@ ==> r is Err && (r->Err_0 matches FreError::IdentifierTypeMismatch(found, expected)
                && found@ == id@.kind && expected@ == kind@),
    {
        if !id.is_kind(kind) {
            return Err(FreError::IdentifierTypeMismatch(id.kind().to_owned(), kind.to_owned()));
        }
        Ok(RulebookValue::Ref(id))
    }
}

impl<T> From<T> for RulebookValue<T> {
    fn from(value: T) -> (r: Self) {
        RulebookValue::Value(value)
    }
}

impl<T> vstd::std_specs::convert::FromSpecImpl<T> for RulebookValue<T> {
    open spec fn obeys_from_spec() -> bool {
        true
    }

    open spec fn from_spec(v: T) -> Self {
        RulebookValue::Value(v)
    }
}

} // verus!
