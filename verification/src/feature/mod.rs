use vstd::prelude::*;

use crate::common::identifier::{Identifier, IdentifierModel};
use crate::common::meta::{HasItemMeta, ItemMeta, MetaModel, meta_index};
use crate::stat::statblock::index_pairs;
use crate::stat::value::IndexValue;

verus! {

//==============================================================================================
//        Feature
//==============================================================================================

/// A feature of a rulebook: the compiled Lua callbacks that set it up, tell how often it
/// repeats and apply it, with its meta.
#[derive(Debug, PartialEq)]
pub struct Feature {
    setup: Option<Vec<u8>>,
    repeats: (Option<Vec<u8>>, Option<u32>),
    apply: Option<Vec<u8>>,
    meta: ItemMeta,
}

/// The content of a `Feature`.
pub struct FeatureModel {
    pub setup: Option<Seq<u8>>,
    pub repeats: (Option<Seq<u8>>, Option<u32>),
    pub apply: Option<Seq<u8>>,
    pub meta: MetaModel,
}

pub open spec fn bytes_option(o: Option<Vec<u8>>) -> Option<Seq<u8>> {
    match o {
        Some(v) => Some(v@),
        None => None,
    }
}

impl View for Feature {
    type V = FeatureModel;

    closed spec fn view(&self) -> FeatureModel {
        FeatureModel {
            setup: bytes_option(self.setup),
            repeats: (bytes_option(self.repeats.0), self.repeats.1),
            apply: bytes_option(self.apply),
            meta: self.meta@,
        }
    }
}

pub fn copy_bytes_option(o: &Option<Vec<u8>>) -> (r: Option<Vec<u8>>)
    ensures
        bytes_option(r) == bytes_option(*o),
{
    match o {
        Some(v) => Some(v.clone()),
        None => None,
    }
}

impl Feature {
    /// A feature named `name`, with no callbacks yet.
    pub fn new(name: String) -> (r: Feature)
        ensures
            r@.setup is None,
            r@.repeats == (None::<Seq<u8>>, None::<u32>),
            r@.apply is None,
            r@.meta.name == name@,
            r@.meta.kind == "Feature"@,
            r@.meta.desc.len() == 0,
            r@.meta.tags.len() == 0,
    {
        proof {
            reveal_strlit("Feature");
        }
        Feature { setup: None, repeats: (None, None), apply: None, meta: ItemMeta::new(name.as_str(), "Feature") }
    }

    /// Keeps the compiled callback that tells how often the feature repeats.
    pub fn set_repeats_function(&mut self, callback: Vec<u8>)
        ensures
            final(self)@ == (FeatureModel { repeats: (Some(callback@), old(self)@.repeats.1), ..old(self)@ }),
    {
        self.repeats.0 = Some(callback);
    }

    /// Keeps the compiled callback that applies the feature.
    pub fn set_apply(&mut self, callback: Vec<u8>)
        ensures
            final(self)@ == (FeatureModel { apply: Some(callback@), ..old(self)@ }),
    {
        self.apply = Some(callback);
    }

    /// Keeps the compiled callback that sets the feature up.
    pub fn set_setup(&mut self, callback: Vec<u8>)
        ensures
            final(self)@ == (FeatureModel { setup: Some(callback@), ..old(self)@ }),
    {
        self.setup = Some(callback);
    }

    pub fn setup(&self) -> (r: Option<&Vec<u8>>)
        ensures
            match r {
                Some(v) => self@.setup == Some(v@),
                None => self@.setup is None,
            },
    {
        match &self.setup {
            Some(v) => Some(v),
            None => None,
        }
    }

    pub fn apply(&self) -> (r: Option<&Vec<u8>>)
        ensures
            match r {
                Some(v) => self@.apply == Some(v@),
                None => self@.apply is None,
            },
    {
        match &self.apply {
            Some(v) => Some(v),
            None => None,
        }
    }

    /// A feature made of the parts it was stored as.
    pub fn from_parts(
        setup: Option<Vec<u8>>,
        repeats: (Option<Vec<u8>>, Option<u32>),
        apply: Option<Vec<u8>>,
        meta: ItemMeta,
    ) -> (r: Feature)
        ensures
            r@ == (FeatureModel {
                setup: bytes_option(setup),
                repeats: (bytes_option(repeats.0), repeats.1),
                apply: bytes_option(apply),
                meta: meta@,
            }),
    {
        Feature { setup, repeats, apply, meta }
    }

    /// The compiled callback that tells how often the feature repeats, and the count.
    pub fn repeats(&self) -> (r: (Option<&Vec<u8>>, Option<u32>))
        ensures
            match r.0 {
                Some(v) => self@.repeats.0 == Some(v@),
                None => self@.repeats.0 is None,
            },
            r.1 == self@.repeats.1,
    {
        let f = match &self.repeats.0 {
            Some(v) => Some(v),
            None => None,
        };
        (f, self.repeats.1)
    }

    pub fn id(&self) -> (r: Identifier)
        ensures
            r@ == (IdentifierModel { rulebook: None, uuid: self@.meta.uuid, kind: self@.meta.kind }),
    {
        Identifier::new(self.meta.uuid(), self.meta.kind())
    }

    /// Adds the index entries of the feature's meta.
    pub fn get_indices(&self, indices: &mut Vec<(String, IndexValue)>)
        ensures
            index_pairs(final(indices)@) == index_pairs(old(indices)@) + meta_index(self@.meta),
    {
        self.meta.get_indices(indices)
    }
}

impl Clone for Feature {
    fn clone(&self) -> (r: Self)
        ensures
            r@ == self@,
    {
        Feature {
            setup: copy_bytes_option(&self.setup),
            repeats: (copy_bytes_option(&self.repeats.0), self.repeats.1),
            apply: copy_bytes_option(&self.apply),
            meta: self.meta.clone(),
        }
    }
}

impl Default for Feature {
    fn default() -> (r: Self)
        ensures
            r@.setup is None && r@.apply is None && r@.repeats == (None::<Seq<u8>>, None::<u32>),
    {
        Feature { setup: None, repeats: (None, None), apply: None, meta: ItemMeta::default() }
    }
}

impl HasItemMeta for Feature {
    open spec fn meta_view(&self) -> MetaModel {
        self@.meta
    }

    fn get_meta(&self) -> (r: &ItemMeta) {
        &self.meta
    }

    fn get_meta_mut(&mut self) -> (r: &mut ItemMeta) {
        &mut self.meta
    }
}

} // verus!
