use vstd::prelude::*;

use crate::asset::Asset;
use crate::common::identifier::{Identifier, IdentifierModel};
use crate::common::meta::{HasItemMeta, ItemMeta, MetaModel, meta_index};
use crate::feature::Feature;
use crate::stat::path::{StatBlockPath, join_path, join_paths};
use crate::stat::statblock::{
    FieldModel, PendingDerive, StatBlock, StatBlockField, field_at, flat_fields, flat_index,
    derive_set, from_flat_model, index_pairs, lemma_force_never_fails, pendings_model, send_all,
    send_all_pending, sends_ok, set_at, stat_set, value_of,
};
use crate::stat::value::{IndexValue, StatValue, ValueModel};

verus! {

//==============================================================================================
//        Object
//==============================================================================================

/// An object of a rulebook: its stats as defined, its stats once its features are applied,
/// and the features and assets it has, by identifier.
pub struct Object {
    meta: ItemMeta,
    statblock: StatBlock,
    applied_statblock: StatBlock,
    features: Vec<u128>,
    assets: Vec<u128>,
}

/// The content of an `Object`.
pub struct ObjectModel {
    pub meta: MetaModel,
    pub statblock: Seq<(Seq<char>, FieldModel)>,
    pub applied: Seq<(Seq<char>, FieldModel)>,
    pub features: Seq<u128>,
    pub assets: Seq<u128>,
}

impl View for Object {
    type V = ObjectModel;

    closed spec fn view(&self) -> ObjectModel {
        ObjectModel {
            meta: self.meta@,
            statblock: self.statblock@,
            applied: self.applied_statblock@,
            features: self.features@,
            assets: self.assets@,
        }
    }
}

/// What reading `key` under `root` from an object's applied stats finds, for the Lua side
/// to hand out: nothing, a handle on a stat, a derive or a table at the full path, or the
/// value of a constant.
pub enum ObjectIndex {
    Nil,
    Stat(String),
    Derive(String),
    Constant(StatValue),
    Table(String),
}

pub open spec fn features_ids(features: Seq<&Feature>) -> Seq<u128> {
    features.map_values(|f: &Feature| f@.meta.uuid)
}

pub open spec fn asset_ids(assets: Seq<&Asset>) -> Seq<u128> {
    assets.map_values(|a: &Asset| a@.meta.uuid)
}

impl Object {
    /// An object named `name` with the stats `stats`; until features are applied its applied
    /// stats are a copy of them.
    pub fn new(name: &str, stats: StatBlock) -> (r: Object)
        ensures
            r@.meta.name == name@,
            r@.meta.kind == "Object"@,
            r@.meta.desc.len() == 0,
            r@.meta.tags.len() == 0,
            r@.statblock == from_flat_model(flat_fields(stats@, Seq::empty())),
            r@.applied == stats@,
            r@.features.len() == 0,
            r@.assets.len() == 0,
    {
        proof {
            reveal_strlit("Object");
        }
        Object {
            meta: ItemMeta::new(name, "Object"),
            statblock: stats.clone(),
            applied_statblock: stats,
            features: Vec::new(),
            assets: Vec::new(),
        }
    }

    /// An object made of the parts it was stored as.
    pub fn from_parts(
        meta: ItemMeta,
        statblock: StatBlock,
        applied_statblock: StatBlock,
        features: Vec<u128>,
        assets: Vec<u128>,
    ) -> (r: Object)
        ensures
            r@ == (ObjectModel {
                meta: meta@,
                statblock: statblock@,
                applied: applied_statblock@,
                features: features@,
                assets: assets@,
            }),
    {
        Object { meta, statblock, applied_statblock, features, assets }
    }

    /// Adds the features, by identifier, after those it has.
    pub fn add_features(&mut self, features: Vec<&Feature>)
        ensures
            final(self)@ == (ObjectModel { features: old(self)@.features + features_ids(features@), ..old(self)@ }),
    {
        let ghost start = self.features@;
        let mut i: usize = 0;
        while i < features.len()
            invariant
                0 <= i <= features@.len(),
                self.features@ == start + features_ids(features@).take(i as int),
                self.meta == old(self).meta,
                self.statblock == old(self).statblock,
                self.applied_statblock == old(self).applied_statblock,
                self.assets == old(self).assets,
                start == old(self).features@,
            decreases features@.len() - i,
        {
            self.features.push(features[i].get_meta().uuid());
            proof {
                assert(features_ids(features@).take(i + 1) =~= features_ids(features@).take(i as int).push(
                    features@[i as int]@.meta.uuid,
                ));
            }
            i = i + 1;
        }
        proof {
            assert(features_ids(features@).take(features@.len() as int) =~= features_ids(features@));
        }
    }

    /// Adds the assets, by identifier, after those it has.
    pub fn add_assets(&mut self, assets: Vec<&Asset>)
        ensures
            final(self)@ == (ObjectModel { assets: old(self)@.assets + asset_ids(assets@), ..old(self)@ }),
    {
        let ghost start = self.assets@;
        let mut i: usize = 0;
        while i < assets.len()
            invariant
                0 <= i <= assets@.len(),
                self.assets@ == start + asset_ids(assets@).take(i as int),
                self.meta == old(self).meta,
                self.statblock == old(self).statblock,
                self.applied_statblock == old(self).applied_statblock,
                self.features == old(self).features,
                start == old(self).assets@,
            decreases assets@.len() - i,
        {
            self.assets.push(assets[i].get_meta().uuid());
            proof {
                assert(asset_ids(assets@).take(i + 1) =~= asset_ids(assets@).take(i as int).push(
                    assets@[i as int]@.meta.uuid,
                ));
            }
            i = i + 1;
        }
        proof {
            assert(asset_ids(assets@).take(assets@.len() as int) =~= asset_ids(assets@));
        }
    }

    pub fn stats(&self) -> (r: &StatBlock)
        ensures
            r@ == self@.statblock,
    {
        &self.statblock
    }

    pub fn stats_mut(&mut self) -> (r: &mut StatBlock)
        ensures
            r@ == old(self)@.statblock,
            final(self)@ == (ObjectModel { statblock: final(r)@, ..old(self)@ }),
    {
        &mut self.statblock
    }

    pub fn applied_stats(&self) -> (r: &StatBlock)
        ensures
            r@ == self@.applied,
    {
        &self.applied_statblock
    }

    pub fn assets(&self) -> (r: &Vec<u128>)
        ensures
            r@ == self@.assets,
    {
        &self.assets
    }

    pub fn features(&self) -> (r: &Vec<u128>)
        ensures
            r@ == self@.features,
    {
        &self.features
    }

    pub fn id(&self) -> (r: Identifier)
        ensures
            r@ == (IdentifierModel { rulebook: None, uuid: self@.meta.uuid, kind: self@.meta.kind }),
    {
        Identifier::new(self.meta.uuid(), self.meta.kind())
    }

    /// What the Lua side finds reading `key` under the table path `root` of the applied stats.
    pub fn index(&self, root: &str, key: &str) -> (r: ObjectIndex)
        ensures
            match field_at(self@.applied, join_path(root@, key@)) {
                None => r is Nil,
                Some(FieldModel::Stat(_)) => r matches ObjectIndex::Stat(p) && p@ == join_path(root@, key@),
                Some(FieldModel::Derive(_)) => r matches ObjectIndex::Derive(p) && p@ == join_path(root@, key@),
                Some(FieldModel::Constant(c)) => r matches ObjectIndex::Constant(v) && v@ == c,
                Some(FieldModel::Table(_)) => r matches ObjectIndex::Table(p) && p@ == join_path(root@, key@),
            },
    {
        let path = join_paths(root, key);
        match self.applied_statblock.get_field(&path) {
            None => ObjectIndex::Nil,
            Some(field) => {
                proof {
                    crate::stat::statblock::reveal_field_variants(*field);
                }
                if field.is_stat() {
                    ObjectIndex::Stat(path)
                } else if field.is_derive() {
                    ObjectIndex::Derive(path)
                } else if field.is_table() {
                    ObjectIndex::Table(path)
                } else {
                    ObjectIndex::Constant(field.get())
                }
            },
        }
    }

    /// What the Lua side stores as `key` under the table path `root`: the field goes to the
    /// applied stats, with the tables on the way created as needed.
    pub fn index_new(&mut self, root: &str, key: &str, field: StatBlockField)
        ensures
            final(self)@ == (ObjectModel {
                applied: set_at(old(self)@.applied, join_path(root@, key@), field@, true),
                ..old(self)@
            }),
    {
        let path = join_paths(root, key);
        proof {
            lemma_force_never_fails(self.applied_statblock@, path@);
        }
        self.applied_statblock.set_field(&path, field, true);
    }

    /// The value of the field at `path` of the applied stats, if there is one.
    pub fn provider_get(&self, path: &str) -> (r: Option<StatValue>)
        ensures
            match field_at(self@.applied, path@) {
                Some(f) => r is Some && r->0@ == value_of(f),
                None => r is None,
            },
    {
        match self.applied_statblock.get_field(path) {
            Some(field) => Some(field.get()),
            None => None,
        }
    }

    /// Gives the stat at `path` of the applied stats a new value, as `StatBlock::set_stat`
    /// does; returns the derives to run again.
    pub fn stat_set(&mut self, path: &str, value: StatValue) -> (r: Vec<PendingDerive>)
        requires
            sends_ok(
                stat_set(old(self)@.applied, path@, value@).0,
                stat_set(old(self)@.applied, path@, value@).1,
                value@,
            ),
        ensures
            final(self)@ == (ObjectModel {
                applied: send_all(
                    stat_set(old(self)@.applied, path@, value@).0,
                    stat_set(old(self)@.applied, path@, value@).1,
                    value@,
                ),
                ..old(self)@
            }),
            pendings_model(r@) == send_all_pending(
                stat_set(old(self)@.applied, path@, value@).0,
                stat_set(old(self)@.applied, path@, value@).1,
                value@,
            ),
    {
        self.applied_statblock.set_stat(path, value)
    }

    /// Whether giving the stat at `path` of the applied stats the value `value` sends it only
    /// to parameters that exist, as `stat_set` requires.
    pub fn can_stat_set(&self, path: &str, value: &StatValue) -> (r: bool)
        ensures
            r == sends_ok(
                stat_set(self@.applied, path@, value@).0,
                stat_set(self@.applied, path@, value@).1,
                value@,
            ),
    {
        self.applied_statblock.can_set_stat(path, value)
    }

    /// Whether the value `value` that derive `id` of the applied stats computed goes only to
    /// parameters that exist, as `resolve` requires.
    pub fn can_resolve(&self, id: u128, value: &StatValue) -> (r: bool)
        ensures
            r == sends_ok(derive_set(self@.applied, id, value@).0, derive_set(self@.applied, id, value@).1, value@),
    {
        self.applied_statblock.can_resolve(id, value)
    }

    /// Stores the value that the callback of derive `id` of the applied stats computed, as
    /// `StatBlock::resolve` does; returns the derives to run again.
    pub fn resolve(&mut self, id: u128, value: StatValue) -> (r: Vec<PendingDerive>)
        requires
            sends_ok(derive_set(old(self)@.applied, id, value@).0, derive_set(old(self)@.applied, id, value@).1, value@),
        ensures
            final(self)@ == (ObjectModel {
                applied: send_all(derive_set(old(self)@.applied, id, value@).0, derive_set(old(self)@.applied, id, value@).1, value@),
                ..old(self)@
            }),
            pendings_model(r@) == send_all_pending(
                derive_set(old(self)@.applied, id, value@).0,
                derive_set(old(self)@.applied, id, value@).1,
                value@,
            ),
    {
        self.applied_statblock.resolve(id, value)
    }

    /// Adds the index entries of the object: those of its meta, then those of its applied
    /// stats.
    pub fn get_indices(&self, indices: &mut Vec<(String, IndexValue)>)
        ensures
            index_pairs(final(indices)@) == index_pairs(old(indices)@) + meta_index(self@.meta)
                + flat_index(self@.applied, Seq::empty()),
    {
        self.meta.get_indices(indices);
        self.applied_statblock.get_indices(indices);
    }
}

impl Clone for Object {
    /// A copy of the object; its stat blocks are copied as `StatBlock::clone` does.
    fn clone(&self) -> (r: Self)
        ensures
            r@.meta == self@.meta,
            r@.statblock == from_flat_model(flat_fields(self@.statblock, Seq::empty())),
            r@.applied == from_flat_model(flat_fields(self@.applied, Seq::empty())),
            r@.features == self@.features,
            r@.assets == self@.assets,
    {
        Object {
            meta: self.meta.clone(),
            statblock: self.statblock.clone(),
            applied_statblock: self.applied_statblock.clone(),
            features: self.features.clone(),
            assets: self.assets.clone(),
        }
    }
}

impl HasItemMeta for Object {
    open spec fn meta_view(&self) -> MetaModel {
        self@.meta
    }

    fn get_meta(&self) -> (r: &ItemMeta) {
        &self.meta
    }

    fn get_meta_mut(&mut self) -> (r: &mut ItemMeta) {
        &mut self.meta
    }
}

} // verus!
