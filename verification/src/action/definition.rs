use vstd::prelude::*;

use crate::common::meta::{HasItemMeta, ItemMeta, MetaModel, meta_index};
use crate::feature::{bytes_option, copy_bytes_option};
use crate::stat::statblock::index_pairs;
use crate::stat::value::IndexValue;

verus! {

//===============================================================================================
//          ActionDefinition
//===============================================================================================

/// The definition of an action: its meta and, once given, the compiled callback that
/// resolves it.
#[derive(Debug, PartialEq)]
pub struct ActionDef {
    meta: ItemMeta,
    resolver: Option<Vec<u8>>,
}

/// The content of an `ActionDef`.
pub struct ActionDefModel {
    pub meta: MetaModel,
    pub resolver: Option<Seq<u8>>,
}

impl View for ActionDef {
    type V = ActionDefModel;

    closed spec fn view(&self) -> ActionDefModel {
        ActionDefModel { meta: self.meta@, resolver: bytes_option(self.resolver) }
    }
}

impl ActionDef {
    pub fn new(name: &str) -> (r: ActionDef)
        ensures
            r@.meta.name == name@,
            r@.meta.kind == "Action"@,
            r@.meta.desc.len() == 0,
            r@.meta.tags.len() == 0,
            r@.resolver is None,
    {
        proof {
            reveal_strlit("Action");
        }
        ActionDef { meta: ItemMeta::new(name, "Action"), resolver: None }
    }

    /// Keeps the compiled callback that resolves the action.
    pub fn set_resolver(&mut self, callback: Vec<u8>)
        ensures
            final(self)@ == (ActionDefModel { resolver: Some(callback@), ..old(self)@ }),
    {
        self.resolver = Some(callback);
    }

    pub fn resolver(&self) -> (r: Option<&Vec<u8>>)
        ensures
            match r {
                Some(v) => self@.resolver == Some(v@),
                None => self@.resolver is None,
            },
    {
        match &self.resolver {
            Some(v) => Some(v),
            None => None,
        }
    }

    /// Adds the index entries of the action's meta.
    pub fn get_indices(&self, indices: &mut Vec<(String, IndexValue)>)
        ensures
            index_pairs(final(indices)@) == index_pairs(old(indices)@) + meta_index(self@.meta),
    {
        self.meta.get_indices(indices)
    }
}

impl Clone for ActionDef {
    fn clone(&self) -> (r: Self)
        ensures
            r@ == self@,
    {
        ActionDef { meta: self.meta.clone(), resolver: copy_bytes_option(&self.resolver) }
    }
}

impl HasItemMeta for ActionDef {
    open spec fn meta_view(&self) -> MetaModel {
        self@.meta
    }

    fn get_meta(&self) -> (r: &ItemMeta) {
        &self.meta
    }

    fn get_meta_mut(&mut self) -> (r: &mut ItemMeta) {
        &mut self.meta
    }
}

} // verus!
