use vstd::prelude::*;

use crate::common::choice::{Input, InputModel, copy_input_entries, input_entries};
use crate::common::entries::{entry_keys, find_key, insert_ordered};
use crate::common::identifier::{Identifier, IdentifierModel};
use crate::common::meta::{HasItemMeta, ItemMeta, MetaModel, meta_index};
use crate::error::{ConstructorError, FreError};
use crate::feature::{bytes_option, copy_bytes_option};
use crate::stat::statblock::index_pairs;
use crate::stat::value::IndexValue;

verus! {

//==============================================================================================
//        Constructor
//==============================================================================================

/// A guided way of making an item: named steps, each asking an `Input`, and a compiled
/// callback that finishes the item.
#[derive(Debug)]
pub struct Constructor {
    meta: ItemMeta,
    finalize: Option<Vec<u8>>,
    steps: Vec<(String, Input)>,
}

/// The content of a `Constructor`.
pub struct ConstructorModel {
    pub meta: MetaModel,
    pub finalize: Option<Seq<u8>>,
    pub steps: Seq<(Seq<char>, Seq<(Seq<char>, InputModel)>)>,
}

pub open spec fn step_entries(s: Seq<(String, Input)>) -> Seq<(Seq<char>, Seq<(Seq<char>, InputModel)>)> {
    s.map_values(|e: (String, Input)| (e.0@, e.1@))
}

impl View for Constructor {
    type V = ConstructorModel;

    closed spec fn view(&self) -> ConstructorModel {
        ConstructorModel {
            meta: self.meta@,
            finalize: bytes_option(self.finalize),
            steps: step_entries(self.steps@),
        }
    }
}

impl Constructor {
    /// A constructor named `name`, with no steps.
    pub fn new(name: &str) -> (r: Constructor)
        ensures
            r@.meta.name == name@,
            r@.meta.kind == "Constructor"@,
            r@.meta.desc.len() == 0,
            r@.meta.tags.len() == 0,
            r@.finalize is None,
            r@.steps.len() == 0,
    {
        proof {
            reveal_strlit("Constructor");
        }
        Constructor { meta: ItemMeta::new(name, "Constructor"), finalize: None, steps: Vec::new() }
    }

    /// A constructor made of the parts it was stored as.
    pub fn from_parts(meta: ItemMeta, finalize: Option<Vec<u8>>, steps: Vec<(String, Input)>) -> (r: Constructor)
        ensures
            r@ == (ConstructorModel { meta: meta@, finalize: bytes_option(finalize), steps: step_entries(steps@) }),
    {
        Constructor { meta, finalize, steps }
    }

    /// The steps, in order.
    pub fn steps(&self) -> (r: &Vec<(String, Input)>)
        ensures
            step_entries(r@) == self@.steps,
    {
        &self.steps
    }

    /// The steps, to be changed in place.
    pub fn steps_mut(&mut self) -> (r: &mut Vec<(String, Input)>)
        ensures
            step_entries(r@) == old(self)@.steps,
            final(self)@ == (ConstructorModel { steps: step_entries(final(r)@), ..old(self)@ }),
    {
        &mut self.steps
    }

    /// Adds the step `name`, asking `input`; a step of that name is replaced in its place.
    pub fn step(&mut self, name: String, input: Input)
        ensures
            final(self)@ == (ConstructorModel {
                steps: insert_ordered(old(self)@.steps, name@, input@),
                ..old(self)@
            }),
    {
        let ghost k = name@;
        let ghost v = input@;
        proof {
            assert(step_entries(self.steps@).map_values(|e: (Seq<char>, Seq<(Seq<char>, InputModel)>)| e.0)
                =~= entry_keys(self.steps@));
        }
        match find_key(&self.steps, name.as_str()) {
            Some(i) => {
                self.steps.set(i, (name, input));
            },
            None => {
                self.steps.push((name, input));
            },
        }
        proof {
            assert(step_entries(self.steps@) =~= insert_ordered(step_entries(old(self).steps@), k, v));
        }
    }

    /// The step at position `index`, or `ConstructorAttemptToIndexEmptyStep` when there is none.
    pub fn get_step(&self, index: usize) -> (r: Result<&Input, FreError>)
        ensures
            index < self@.steps.len() ==> r is Ok && r->Ok_0@ == self@.steps[index as int].1,
            index >= self@.steps.len() ==> r is Err && (r->Err_0 matches FreError::ConstructorError(
                ConstructorError::ConstructorAttemptToIndexEmptyStep(i),
            ) && i == index),
    {
        if index < self.steps.len() {
            Ok(&self.steps[index].1)
        } else {
            Err(FreError::ConstructorError(ConstructorError::ConstructorAttemptToIndexEmptyStep(index)))
        }
    }

    /// Keeps the compiled callback that finishes the item.
    pub fn set_finalize(&mut self, callback: Vec<u8>)
        ensures
            final(self)@ == (ConstructorModel { finalize: Some(callback@), ..old(self)@ }),
    {
        self.finalize = Some(callback);
    }

    pub fn finalize(&self) -> (r: Option<&Vec<u8>>)
        ensures
            match r {
                Some(v) => self@.finalize == Some(v@),
                None => self@.finalize is None,
            },
    {
        match &self.finalize {
            Some(v) => Some(v),
            None => None,
        }
    }

    pub fn id(&self) -> (r: Identifier)
        ensures
            r@ == (IdentifierModel { rulebook: None, uuid: self@.meta.uuid, kind: self@.meta.kind }),
    {
        Identifier::new(self.meta.uuid(), self.meta.kind())
    }

    /// Adds the index entries of the constructor's meta.
    pub fn get_indices(&self, indices: &mut Vec<(String, IndexValue)>)
        ensures
            index_pairs(final(indices)@) == index_pairs(old(indices)@) + meta_index(self@.meta),
    {
        self.meta.get_indices(indices)
    }
}

impl Clone for Constructor {
    fn clone(&self) -> (r: Self)
        ensures
            r@ == self@,
    {
        let mut steps: Vec<(String, Input)> = Vec::new();
        let mut i: usize = 0;
        while i < self.steps.len()
            invariant
                0 <= i <= self.steps@.len(),
                steps@.len() == i,
                forall|j: int| 0 <= j < i ==> (#[trigger] steps@[j]).0@ == self.steps@[j].0@ && steps@[j].1@ == self.steps@[j].1@,
            decreases self.steps@.len() - i,
        {
            steps.push((self.steps[i].0.clone(), self.steps[i].1.clone()));
            i = i + 1;
        }
        let r = Constructor { meta: self.meta.clone(), finalize: copy_bytes_option(&self.finalize), steps };
        proof {
            assert(step_entries(r.steps@) =~= step_entries(self.steps@));
        }
        r
    }
}

impl HasItemMeta for Constructor {
    open spec fn meta_view(&self) -> MetaModel {
        self@.meta
    }

    fn get_meta(&self) -> (r: &ItemMeta) {
        &self.meta
    }

    fn get_meta_mut(&mut self) -> (r: &mut ItemMeta) {
        &mut self.meta
    }
}

} // verus!
