use std::collections::HashMap;

use vstd::prelude::*;

use crate::asset::Asset;
use crate::common::identifier::{Identifier, IdentifierModel};
use crate::common::meta::HasItemMeta;
use crate::constructor::Constructor;
use crate::error::FreError;
use crate::feature::Feature;
use crate::object::Object;

verus! {

broadcast use vstd::std_specs::hash::group_hash_axioms;

//==============================================================================================
//        Build References
//==============================================================================================

/// The items registered while a rulebook is built, by identifier.
pub struct RulebookRegistry {
    pub objects: HashMap<u128, Object>,
    pub features: HashMap<u128, Feature>,
    pub assets: HashMap<u128, Asset>,
    pub constructors: HashMap<u128, Constructor>,
}

/// An item handed to `register`.
pub enum RegistryItem {
    Object(Object),
    Feature(Feature),
    Asset(Asset),
    Constructor(Constructor),
    /// Anything else, by the name of its type.
    Other(String),
}

/// `m` with `v` added under `k`, unless `k` is taken: the first registration stays.
pub open spec fn keep_first<V>(m: Map<u128, V>, k: u128, v: V) -> Map<u128, V> {
    if m.contains_key(k) {
        m
    } else {
        m.insert(k, v)
    }
}

pub open spec fn id_model(uuid: u128, kind: Seq<char>) -> IdentifierModel {
    IdentifierModel { rulebook: None, uuid, kind }
}

impl RulebookRegistry {
    pub fn new() -> (r: RulebookRegistry)
        ensures
            r.objects@ == Map::<u128, Object>::empty(),
            r.features@ == Map::<u128, Feature>::empty(),
            r.assets@ == Map::<u128, Asset>::empty(),
            r.constructors@ == Map::<u128, Constructor>::empty(),
    {
        RulebookRegistry {
            objects: HashMap::new(),
            features: HashMap::new(),
            assets: HashMap::new(),
            constructors: HashMap::new(),
        }
    }

    /// The registered items, by kind.
    pub fn explode(self) -> (r: (
        HashMap<u128, Object>,
        HashMap<u128, Feature>,
        HashMap<u128, Asset>,
        HashMap<u128, Constructor>,
    ))
        ensures
            r.0@ == self.objects@,
            r.1@ == self.features@,
            r.2@ == self.assets@,
            r.3@ == self.constructors@,
    {
        (self.objects, self.features, self.assets, self.constructors)
    }

    /// Registers an object under its identifier, unless one is registered there already.
    pub fn register_object(&mut self, object: Object) -> (r: Identifier)
        ensures
            final(self).objects@ == keep_first(old(self).objects@, object@.meta.uuid, object),
            final(self).features@ == old(self).features@,
            final(self).assets@ == old(self).assets@,
            final(self).constructors@ == old(self).constructors@,
            r@ == id_model(object@.meta.uuid, object@.meta.kind),
    {
        let uuid = object.get_meta().uuid();
        let id = object.id();
        if !self.objects.contains_key(&uuid) {
            self.objects.insert(uuid, object);
        }
        id
    }

    /// Registers a feature under its identifier, unless one is registered there already.
    pub fn register_feature(&mut self, feature: Feature) -> (r: Identifier)
        ensures
            final(self).features@ == keep_first(old(self).features@, feature@.meta.uuid, feature),
            final(self).objects@ == old(self).objects@,
            final(self).assets@ == old(self).assets@,
            final(self).constructors@ == old(self).constructors@,
            r@ == id_model(feature@.meta.uuid, feature@.meta.kind),
    {
        let uuid = feature.get_meta().uuid();
        let id = feature.id();
        if !self.features.contains_key(&uuid) {
            self.features.insert(uuid, feature);
        }
        id
    }

    /// Registers an asset under its identifier, unless one is registered there already.
    pub fn register_asset(&mut self, asset: Asset) -> (r: Identifier)
        ensures
            final(self).assets@ == keep_first(old(self).assets@, asset@.meta.uuid, asset),
            final(self).objects@ == old(self).objects@,
            final(self).features@ == old(self).features@,
            final(self).constructors@ == old(self).constructors@,
            r@ == id_model(asset@.meta.uuid, asset@.meta.kind),
    {
        let uuid = asset.get_meta().uuid();
        let id = asset.id();
        if !self.assets.contains_key(&uuid) {
            self.assets.insert(uuid, asset);
        }
        id
    }

    /// Registers a constructor under its identifier, unless one is registered there already.
    pub fn register_constructor(&mut self, constructor: Constructor) -> (r: Identifier)
        ensures
            final(self).constructors@ == keep_first(
                old(self).constructors@,
                constructor@.meta.uuid,
                constructor,
            ),
            final(self).objects@ == old(self).objects@,
            final(self).features@ == old(self).features@,
            final(self).assets@ == old(self).assets@,
            r@ == id_model(constructor@.meta.uuid, constructor@.meta.kind),
    {
        let uuid = constructor.get_meta().uuid();
        let id = constructor.id();
        if !self.constructors.contains_key(&uuid) {
            self.constructors.insert(uuid, constructor);
        }
        id
    }

    /// Registers an object, feature, asset or constructor; anything else is refused with
    /// `CannotRegisterType` and the name of its type.
    pub fn register(&mut self, item: RegistryItem) -> (r: Result<Identifier, FreError>)
        ensures
            match item {
                RegistryItem::Object(o) => r is Ok && r->Ok_0@ == id_model(o@.meta.uuid, o@.meta.kind)
                    && final(self).objects@ == keep_first(old(self).objects@, o@.meta.uuid, o)
                    && final(self).features@ == old(self).features@
                    && final(self).assets@ == old(self).assets@
                    && final(self).constructors@ == old(self).constructors@,
                RegistryItem::Feature(f) => r is Ok && r->Ok_0@ == id_model(f@.meta.uuid, f@.meta.kind)
                    && final(self).features@ == keep_first(old(self).features@, f@.meta.uuid, f)
                    && final(self).objects@ == old(self).objects@
                    && final(self).assets@ == old(self).assets@
                    && final(self).constructors@ == old(self).constructors@,
                RegistryItem::Asset(a) => r is Ok && r->Ok_0@ == id_model(a@.meta.uuid, a@.meta.kind)
                    && final(self).assets@ == keep_first(old(self).assets@, a@.meta.uuid, a)
                    && final(self).objects@ == old(self).objects@
                    && final(self).features@ == old(self).features@
                    && final(self).constructors@ == old(self).constructors@,
                RegistryItem::Constructor(c) => r is Ok && r->Ok_0@ == id_model(c@.meta.uuid, c@.meta.kind)
                    && final(self).constructors@ == keep_first(old(self).constructors@, c@.meta.uuid, c)
                    && final(self).objects@ == old(self).objects@
                    && final(self).features@ == old(self).features@
                    && final(self).assets@ == old(self).assets@,
                RegistryItem::Other(name) => r is Err && (r->Err_0 matches FreError::CannotRegisterType(n)
                    && n@ == name@)
                    && final(self).objects@ == old(self).objects@
                    && final(self).features@ == old(self).features@
                    && final(self).assets@ == old(self).assets@
                    && final(self).constructors@ == old(self).constructors@,
            },
    {
        match item {
            RegistryItem::Object(o) => Ok(self.register_object(o)),
            RegistryItem::Feature(f) => Ok(self.register_feature(f)),
            RegistryItem::Asset(a) => Ok(self.register_asset(a)),
            RegistryItem::Constructor(c) => Ok(self.register_constructor(c)),
            RegistryItem::Other(name) => Err(FreError::CannotRegisterType(name)),
        }
    }
}

/// Registering an item whose identifier is taken leaves the registry as it was: the first
/// registration stays.
pub proof fn law_first_registration_stays<V>(m: Map<u128, V>, k: u128, first: V, second: V)
    ensures
        keep_first(keep_first(m, k, first), k, second) == keep_first(m, k, first),
        keep_first(keep_first(m, k, first), k, second).contains_key(k),
{
}

} // verus!
