use vstd::prelude::*;

use crate::common::ids::{uuid_hyphenated, uuid_to_string};
use crate::stat::statblock::index_pairs;
use crate::stat::value::{IndexModel, IndexValue};

verus! {

//==============================================================================================
//        Identifier
//==============================================================================================

/// Names an item of a rulebook: the rulebook it comes from, when it is a foreign one, its
/// identifier and its kind.
#[derive(Debug, PartialEq, Eq, PartialOrd, Ord)]
pub struct Identifier {
    rulebook: Option<u128>,
    uuid: u128,
    kind: String,
}

/// The content of an `Identifier`.
pub struct IdentifierModel {
    pub rulebook: Option<u128>,
    pub uuid: u128,
    pub kind: Seq<char>,
}

impl View for Identifier {
    type V = IdentifierModel;

    closed spec fn view(&self) -> IdentifierModel {
        IdentifierModel { rulebook: self.rulebook, uuid: self.uuid, kind: self.kind@ }
    }
}

/// The index entries of an identifier: its rulebook, its identifier and its kind.
pub open spec fn identifier_index(m: IdentifierModel) -> Seq<(Seq<char>, IndexModel)> {
    seq![
        ("rulebook"@, match m.rulebook {
            Some(r) => IndexModel::String(uuid_hyphenated(r)),
            None => IndexModel::Void,
        }),
        ("id"@, IndexModel::String(uuid_hyphenated(m.uuid))),
        ("type"@, IndexModel::String(m.kind)),
    ]
}

impl Identifier {
    /// The identifier of an item of kind `kind`, from no rulebook in particular.
    pub fn new(uuid: u128, kind: &str) -> (r: Identifier)
        ensures
            r@ == (IdentifierModel { rulebook: None, uuid, kind: kind@ }),
    {
        Identifier { rulebook: None, uuid, kind: kind.to_owned() }
    }

    pub fn from_rulebook(self, rulebook: u128) -> (r: Identifier)
        ensures
            r@ == (IdentifierModel { rulebook: Some(rulebook), ..self@ }),
    {
        let mut this = self;
        this.rulebook = Some(rulebook);
        this
    }

    pub fn set_rulebook(&mut self, rulebook: u128)
        ensures
            final(self)@ == (IdentifierModel { rulebook: Some(rulebook), ..old(self)@ }),
    {
        self.rulebook = Some(rulebook);
    }

    /// Whether the item named is of kind `kind`.
    pub fn is_kind(&self, kind: &str) -> (r: bool)
        ensures
            r == (self@.kind == kind@),
    {
        self.kind == kind.to_owned()
    }

    pub fn kind(&self) -> (r: &str)
        ensures
            r@ == self@.kind,
    {
        self.kind.as_str()
    }

    pub fn uuid(&self) -> (r: u128)
        ensures
            r == self@.uuid,
    {
        self.uuid
    }

    pub fn rulebook(&self) -> (r: Option<u128>)
        ensures
            r == self@.rulebook,
    {
        self.rulebook
    }

    /// Adds the index entries of the identifier: rulebook, identifier and kind.
    pub fn get_indices(&self, indices: &mut Vec<(String, IndexValue)>)
        ensures
            index_pairs(final(indices)@) == index_pairs(old(indices)@) + identifier_index(self@),
    {
        let ghost start = indices@;
        let rulebook = match self.rulebook {
            Some(r) => IndexValue::String(uuid_to_string(r)),
            None => IndexValue::Void,
        };
        indices.push(("rulebook".to_owned(), rulebook));
        indices.push(("id".to_owned(), IndexValue::String(uuid_to_string(self.uuid))));
        indices.push(("type".to_owned(), IndexValue::String(self.kind.clone())));
        proof {
            reveal_strlit("rulebook");
            reveal_strlit("id");
            reveal_strlit("type");
            assert(index_pairs(indices@) =~= index_pairs(start) + identifier_index(self@));
        }
    }
}

impl Clone for Identifier {
    fn clone(&self) -> (r: Self)
        ensures
            r@ == self@,
    {
        Identifier { rulebook: self.rulebook, uuid: self.uuid, kind: self.kind.clone() }
    }
}

impl Default for Identifier {
    fn default() -> (r: Self)
        ensures
            r@ == (IdentifierModel { rulebook: None, uuid: 0, kind: Seq::empty() }),
    {
        Identifier { rulebook: None, uuid: 0, kind: String::new() }
    }
}

} // verus!
