use vstd::prelude::*;

use crate::stat::path::{StatBlockPath, split_first_dot, path_head, path_tail, join_path};
use crate::stat::value::{StatValue, ValueModel, IndexValue, IndexModel, values_model, index_of};

verus! {

broadcast use vstd::std_specs::vec::axiom_vec_index_decreases;

//==============================================================================================
//        Links from a source to the derives that read it
//==============================================================================================

/// A link from a stat to one parameter of a derive. `link` identifies the derive; a link
/// is valid once it has been bound to a derive that is present.
pub enum StatDeriveLink {
    Valid { link: u128, index: usize },
    Invalid { link: u128, index: usize },
}

impl StatDeriveLink {
    pub open spec fn target(self) -> u128 {
        match self {
            StatDeriveLink::Valid { link, .. } => link,
            StatDeriveLink::Invalid { link, .. } => link,
        }
    }

    pub open spec fn param(self) -> usize {
        match self {
            StatDeriveLink::Valid { index, .. } => index,
            StatDeriveLink::Invalid { index, .. } => index,
        }
    }

    /// The derive the link leads to.
    pub fn get_pointer(&self) -> (r: u128)
        ensures
            r == self.target(),
    {
        match self {
            StatDeriveLink::Valid { link, .. } => *link,
            StatDeriveLink::Invalid { link, .. } => *link,
        }
    }

    /// The parameter of the derive that the link feeds.
    pub fn get_index(&self) -> (r: usize)
        ensures
            r == self.param(),
    {
        match self {
            StatDeriveLink::Valid { index, .. } => *index,
            StatDeriveLink::Invalid { index, .. } => *index,
        }
    }

    /// Binds the link to the derive `link`, keeping its parameter.
    pub fn revalidate(&mut self, link: u128)
        ensures
            *final(self) == (StatDeriveLink::Valid { link, index: old(self).param() }),
    {
        let index = self.get_index();
        *self = StatDeriveLink::Valid { link, index };
    }
}

impl Clone for StatDeriveLink {
    /// A copy of a link is not bound: it has to be bound again to the copy of its derive.
    fn clone(&self) -> (r: Self)
        ensures
            r == (StatDeriveLink::Invalid { link: self.target(), index: self.param() }),
    {
        StatDeriveLink::Invalid { link: self.get_pointer(), index: self.get_index() }
    }
}

//==============================================================================================
//        Models
//==============================================================================================

/// The content of a `StatSource`.
pub struct SourceModel {
    pub value: ValueModel,
    pub derives: Seq<StatDeriveLink>,
}

/// The content of a `StatDerive`.
pub struct DeriveModel {
    pub id: u128,
    pub source: SourceModel,
    pub callback: Seq<u8>,
    pub params: Seq<ValueModel>,
    pub current_param: usize,
}

/// The content of a `StatBlockField`.
pub enum FieldModel {
    Stat(SourceModel),
    Derive(DeriveModel),
    Constant(ValueModel),
    Table(Seq<(Seq<char>, FieldModel)>),
}

//==============================================================================================
//        StatSource
//==============================================================================================

/// A stat that holds a value and the links to the derives that read it.
pub struct StatSource {
    value: StatValue,
    derives: Vec<StatDeriveLink>,
}

pub closed spec fn source_model(s: StatSource) -> SourceModel {
    SourceModel { value: s.value@, derives: s.derives@ }
}

impl View for StatSource {
    type V = SourceModel;

    open spec fn view(&self) -> SourceModel {
        source_model(*self)
    }
}

//==============================================================================================
//        StatDerive
//==============================================================================================

/// What a derive computes from: its callback, its parameters and its current value.
pub struct StatDeriveCore {
    source: StatSource,
    callback: Vec<u8>,
    params: Vec<StatValue>,
    current_param: usize,
}

/// A stat whose value a callback computes from the values of other stats. `id` stands
/// for the derive's identity, by which links find it.
pub struct StatDerive {
    id: u128,
    core: StatDeriveCore,
}

pub closed spec fn derive_model(d: StatDerive) -> DeriveModel {
    DeriveModel {
        id: d.id,
        source: source_model(d.core.source),
        callback: d.core.callback@,
        params: values_model(d.core.params@),
        current_param: d.core.current_param,
    }
}

impl View for StatDerive {
    type V = DeriveModel;

    open spec fn view(&self) -> DeriveModel {
        derive_model(*self)
    }
}

//==============================================================================================
//        StatBlockField and StatBlock
//==============================================================================================

/// One entry of a stat block.
pub enum StatBlockField {
    Stat(StatSource),
    Derive(StatDerive),
    Constant(StatValue),
    Table(StatBlock),
}

/// A table of named fields; a field may itself be a table, reached by a dotted path.
pub struct StatBlock {
    map: Vec<(String, StatBlockField)>,
}

pub closed spec fn field_model(f: StatBlockField) -> FieldModel
    decreases f,
{
    match f {
        StatBlockField::Stat(s) => FieldModel::Stat(source_model(s)),
        StatBlockField::Derive(d) => FieldModel::Derive(derive_model(d)),
        StatBlockField::Constant(c) => FieldModel::Constant(c@),
        StatBlockField::Table(t) => FieldModel::Table(entries_model(t.map@)),
    }
}

pub closed spec fn entries_model(s: Seq<(String, StatBlockField)>) -> Seq<(Seq<char>, FieldModel)>
    decreases s,
{
    if s.len() == 0 {
        Seq::empty()
    } else {
        entries_model(s.drop_last()).push((s.last().0@, field_model(s.last().1)))
    }
}

impl View for StatBlockField {
    type V = FieldModel;

    open spec fn view(&self) -> FieldModel {
        field_model(*self)
    }
}

impl View for StatBlock {
    type V = Seq<(Seq<char>, FieldModel)>;

    closed spec fn view(&self) -> Seq<(Seq<char>, FieldModel)> {
        entries_model(self.map@)
    }
}

pub proof fn lemma_entries_model(s: Seq<(String, StatBlockField)>)
    ensures
        entries_model(s).len() == s.len(),
        forall|i: int|
            0 <= i < s.len() ==> #[trigger] entries_model(s)[i] == (s[i].0@, field_model(s[i].1)),
    decreases s.len(),
{
    if s.len() > 0 {
        lemma_entries_model(s.drop_last());
    }
}

} // verus!

verus! {

//==============================================================================================
//        Navigation over the model
//==============================================================================================

/// `i` is the first entry of `m` under key `k`.
pub open spec fn is_first_key(m: Seq<(Seq<char>, FieldModel)>, k: Seq<char>, i: int) -> bool {
    &&& 0 <= i < m.len()
    &&& m[i].0 == k
    &&& forall|j: int| 0 <= j < i ==> m[j].0 != k
}

pub open spec fn has_key(m: Seq<(Seq<char>, FieldModel)>, k: Seq<char>) -> bool {
    exists|i: int| is_first_key(m, k, i)
}

pub open spec fn key_index(m: Seq<(Seq<char>, FieldModel)>, k: Seq<char>) -> int {
    choose|i: int| is_first_key(m, k, i)
}

/// The field stored directly under `k`.
pub open spec fn lookup(m: Seq<(Seq<char>, FieldModel)>, k: Seq<char>) -> Option<FieldModel> {
    if has_key(m, k) {
        Some(m[key_index(m, k)].1)
    } else {
        None
    }
}

/// `m` with the field under `k` replaced by `f`, or with `f` added under `k` at the end.
pub open spec fn insert_entry(m: Seq<(Seq<char>, FieldModel)>, k: Seq<char>, f: FieldModel) -> Seq<
    (Seq<char>, FieldModel),
> {
    if has_key(m, k) {
        m.update(key_index(m, k), (k, f))
    } else {
        m.push((k, f))
    }
}

/// The field that the dotted path `p` names, going down through tables.
pub open spec fn field_at(m: Seq<(Seq<char>, FieldModel)>, p: Seq<char>) -> Option<FieldModel>
    decreases p.len(),
{
    match path_tail(p) {
        None => lookup(m, path_head(p)),
        Some(t) => {
            if t.len() < p.len() {
                match lookup(m, path_head(p)) {
                    Some(FieldModel::Table(sub)) => field_at(sub, t),
                    _ => None,
                }
            } else {
                None
            }
        },
    }
}

/// Setting `p` would need a table that is missing, and `force` does not allow creating it.
pub open spec fn set_would_fail(m: Seq<(Seq<char>, FieldModel)>, p: Seq<char>, force: bool) -> bool
    decreases p.len(),
{
    match path_tail(p) {
        None => false,
        Some(t) => {
            if t.len() < p.len() {
                match lookup(m, path_head(p)) {
                    None => !force,
                    Some(FieldModel::Table(sub)) => set_would_fail(sub, t, force),
                    _ => false,
                }
            } else {
                false
            }
        },
    }
}

/// The block after storing `f` at the dotted path `p`. Missing tables on the way are created
/// when `force` holds; a segment on the way that names a field that is not a table leaves
/// the block unchanged.
pub open spec fn set_at(
    m: Seq<(Seq<char>, FieldModel)>,
    p: Seq<char>,
    f: FieldModel,
    force: bool,
) -> Seq<(Seq<char>, FieldModel)>
    decreases p.len(),
{
    match path_tail(p) {
        None => insert_entry(m, path_head(p), f),
        Some(t) => {
            if t.len() < p.len() {
                match lookup(m, path_head(p)) {
                    None => if force {
                        insert_entry(
                            m,
                            path_head(p),
                            FieldModel::Table(set_at(Seq::empty(), t, f, force)),
                        )
                    } else {
                        m
                    },
                    Some(FieldModel::Table(sub)) => insert_entry(
                        m,
                        path_head(p),
                        FieldModel::Table(set_at(sub, t, f, force)),
                    ),
                    _ => m,
                }
            } else {
                m
            }
        },
    }
}

/// The value a field provides: the value of a stat or derive, a constant itself, or a
/// record of the values of a table.
pub open spec fn value_of(f: FieldModel) -> ValueModel
    decreases f,
{
    match f {
        FieldModel::Stat(s) => s.value,
        FieldModel::Derive(d) => d.source.value,
        FieldModel::Constant(c) => c,
        FieldModel::Table(m) => ValueModel::Record(record_of(m)),
    }
}

pub open spec fn record_of(m: Seq<(Seq<char>, FieldModel)>) -> Seq<(Seq<char>, ValueModel)>
    decreases m,
{
    if m.len() == 0 {
        Seq::empty()
    } else {
        record_of(m.drop_last()).push((m.last().0, value_of(m.last().1)))
    }
}

/// The value at path `p`: the value of the field there, or `Empty` when there is none.
pub open spec fn value_at(m: Seq<(Seq<char>, FieldModel)>, p: Seq<char>) -> ValueModel {
    match field_at(m, p) {
        Some(f) => value_of(f),
        None => ValueModel::Empty,
    }
}

pub proof fn lemma_tail_shorter(p: Seq<char>)
    ensures
        path_tail(p) is Some ==> path_tail(p)->0.len() < p.len(),
{
    if path_tail(p) is Some {
        assert(crate::stat::path::is_first_dot(p, crate::stat::path::first_dot(p)));
    }
}

pub proof fn lemma_first_key_unique(m: Seq<(Seq<char>, FieldModel)>, k: Seq<char>, i: int)
    requires
        is_first_key(m, k, i),
    ensures
        has_key(m, k),
        key_index(m, k) == i,
{
    let j = key_index(m, k);
    assert(is_first_key(m, k, j));
    if j < i {
        assert(m[j].0 != k);
    } else if i < j {
        assert(m[i].0 != k);
    }
}

pub proof fn lemma_record_of(m: Seq<(Seq<char>, FieldModel)>)
    ensures
        record_of(m).len() == m.len(),
        forall|i: int| 0 <= i < m.len() ==> #[trigger] record_of(m)[i] == (m[i].0, value_of(m[i].1)),
    decreases m.len(),
{
    if m.len() > 0 {
        lemma_record_of(m.drop_last());
    }
}

} // verus!

verus! {

/// Position of the first entry under `key`.
fn find_entry(map: &Vec<(String, StatBlockField)>, key: &str) -> (r: Option<usize>)
    ensures
        r is Some ==> is_first_key(entries_model(map@), key@, r->0 as int),
        r is Some ==> has_key(entries_model(map@), key@) && key_index(entries_model(map@), key@)
            == r->0,
        r is None ==> !has_key(entries_model(map@), key@),
{
    proof {
        lemma_entries_model(map@);
    }
    let owned = key.to_owned();
    let mut i: usize = 0;
    while i < map.len()
        invariant
            0 <= i <= map@.len(),
            entries_model(map@).len() == map@.len(),
            forall|j: int|
                0 <= j < map@.len() ==> #[trigger] entries_model(map@)[j] == (
                    map@[j].0@,
                    field_model(map@[j].1),
                ),
            forall|j: int| 0 <= j < i ==> entries_model(map@)[j].0 != key@,
            owned@ == key@,
        decreases map@.len() - i,
    {
        if map[i].0 == owned {
            proof {
                assert(entries_model(map@)[i as int].0 == key@);
                lemma_first_key_unique(entries_model(map@), key@, i as int);
            }
            return Some(i);
        }
        assert(entries_model(map@)[i as int].0 != key@);
        i = i + 1;
    }
    proof {
        if has_key(entries_model(map@), key@) {
            let k = key_index(entries_model(map@), key@);
            assert(is_first_key(entries_model(map@), key@, k));
        }
    }
    None
}

impl StatBlock {
    pub fn new() -> (r: StatBlock)
        ensures
            r@ == Seq::<(Seq<char>, FieldModel)>::empty(),
    {
        StatBlock { map: Vec::new() }
    }

    /// The field stored directly under `index`.
    pub fn get_local_field(&self, index: &str) -> (r: Option<&StatBlockField>)
        ensures
            r is Some <==> lookup(self@, index@) is Some,
            r is Some ==> r->0@ == lookup(self@, index@)->0,
    {
        proof {
            lemma_entries_model(self.map@);
        }
        match find_entry(&self.map, index) {
            Some(i) => Some(&self.map[i].1),
            None => None,
        }
    }

    /// The field at a dotted path.
    pub fn get_field<P: StatBlockPath>(&self, path: P) -> (r: Option<&StatBlockField>)
        ensures
            r is Some <==> field_at(self@, path.path_view()) is Some,
            r is Some ==> r->0@ == field_at(self@, path.path_view())->0,
    {
        self.field_at_path(path.as_str())
    }

    fn field_at_path(&self, path: &str) -> (r: Option<&StatBlockField>)
        ensures
            r is Some <==> field_at(self@, path@) is Some,
            r is Some ==> r->0@ == field_at(self@, path@)->0,
        decreases path@.len(),
    {
        proof {
            lemma_tail_shorter(path@);
            lemma_entries_model(self.map@);
        }
        let (head, tail) = split_first_dot(path);
        match tail {
            None => self.get_local_field(head),
            Some(t) => {
                match find_entry(&self.map, head) {
                    Some(i) => match &self.map[i].1 {
                        StatBlockField::Table(table) => table.field_at_path(t),
                        _ => None,
                    },
                    None => None,
                }
            },
        }
    }

    /// The field at a dotted path, for reading its value.
    pub fn get_provider<P: StatBlockPath>(&self, path: P) -> (r: Option<&StatBlockField>)
        ensures
            r is Some <==> field_at(self@, path.path_view()) is Some,
            r is Some ==> r->0@ == field_at(self@, path.path_view())->0,
    {
        self.get_field(path)
    }

    /// The value at a dotted path, or `Empty` when nothing is there.
    pub fn get<P: StatBlockPath>(&self, path: P) -> (r: StatValue)
        ensures
            r@ == value_at(self@, path.path_view()),
    {
        match self.get_provider(path) {
            Some(provider) => provider.get(),
            None => StatValue::Empty,
        }
    }

    /// The values of all fields, as a record.
    pub fn as_value(&self) -> (r: StatValue)
        ensures
            r@ == ValueModel::Record(record_of(self@)),
        decreases self,
    {
        proof {
            lemma_entries_model(self.map@);
        }
        let mut out: Vec<(String, StatValue)> = Vec::new();
        let mut i: usize = 0;
        while i < self.map.len()
            invariant
                0 <= i <= self.map@.len(),
                crate::stat::value::record_model(out@) == record_of(entries_model(self.map@.take(i as int))),
            decreases self.map@.len() - i,
        {
            proof {
                assert(self.map@.take(i + 1).drop_last() =~= self.map@.take(i as int));
                assert(decreases_to!(*self => self.map));
                assert(decreases_to!(self.map => self.map[i as int]));
                assert(decreases_to!(self.map[i as int] => self.map[i as int].1));
            }
            let key = self.map[i].0.clone();
            let value = self.map[i].1.get();
            let ghost before = out@;
            out.push((key, value));
            proof {
                assert(out@.drop_last() =~= before);
                let em = entries_model(self.map@.take(i + 1));
                assert(em.drop_last() == entries_model(self.map@.take(i as int)));
                assert(em.last() == (self.map@[i as int].0@, field_model(self.map@[i as int].1)));
                assert(crate::stat::value::record_model(out@) == crate::stat::value::record_model(before).push((key@, value@)));
            }
            i = i + 1;
        }
        proof {
            assert(self.map@.take(self.map@.len() as int) =~= self.map@);
        }
        StatValue::Record(out)
    }
}

impl StatBlockField {
    /// The value the field provides.
    pub fn get(&self) -> (r: StatValue)
        ensures
            r@ == value_of(self@),
        decreases self,
    {
        match self {
            StatBlockField::Stat(s) => s.value.clone(),
            StatBlockField::Derive(d) => d.core.source.value.clone(),
            StatBlockField::Constant(c) => c.clone(),
            StatBlockField::Table(t) => {
                proof {
                    assert(decreases_to!(*self => self->Table_0));
                }
                t.as_value()
            },
        }
    }
}

} // verus!

verus! {

pub proof fn lemma_entries_update(s: Seq<(String, StatBlockField)>, i: int, e: (String, StatBlockField))
    requires
        0 <= i < s.len(),
    ensures
        entries_model(s.update(i, e)) == entries_model(s).update(i, (e.0@, field_model(e.1))),
{
    lemma_entries_model(s);
    lemma_entries_model(s.update(i, e));
    assert(entries_model(s.update(i, e)) =~= entries_model(s).update(i, (e.0@, field_model(e.1))));
}

pub proof fn lemma_entries_push(s: Seq<(String, StatBlockField)>, e: (String, StatBlockField))
    ensures
        entries_model(s.push(e)) == entries_model(s).push((e.0@, field_model(e.1))),
{
    assert(s.push(e).drop_last() =~= s);
}

impl StatBlock {
    /// The entries of the block, in order.
    pub fn entries(&self) -> (r: &Vec<(String, StatBlockField)>)
        ensures
            entries_model(r@) == self@,
    {
        &self.map
    }

    /// Stores `field` directly under `key`, in place of the field there if there is one.
    pub fn insert_local(&mut self, key: &str, field: StatBlockField)
        ensures
            final(self)@ == insert_entry(old(self)@, key@, field@),
    {
        proof {
            lemma_entries_model(self.map@);
        }
        let owned = key.to_owned();
        match find_entry(&self.map, key) {
            Some(i) => {
                proof {
                    lemma_entries_update(self.map@, i as int, (owned, field));
                }
                self.map.set(i, (owned, field));
            },
            None => {
                proof {
                    lemma_entries_push(self.map@, (owned, field));
                }
                self.map.push((owned, field));
            },
        }
    }

    /// Stores `field` at a dotted path. With `force`, missing tables on the way are created;
    /// a segment on the way that names a field that is not a table leaves the block as it was.
    pub fn set_field<P: StatBlockPath>(&mut self, path: P, field: StatBlockField, force: bool)
        requires
            !set_would_fail(old(self)@, path.path_view(), force),
        ensures
            final(self)@ == set_at(old(self)@, path.path_view(), field@, force),
    {
        self.set_at_path(path.as_str(), field, force)
    }

    fn set_at_path(&mut self, path: &str, field: StatBlockField, force: bool)
        requires
            !set_would_fail(old(self)@, path@, force),
        ensures
            final(self)@ == set_at(old(self)@, path@, field@, force),
        decreases path@.len(),
    {
        proof {
            lemma_tail_shorter(path@);
            lemma_entries_model(self.map@);
        }
        let ghost m = self@;
        let ghost fm = field@;
        let (head, tail) = split_first_dot(path);
        match tail {
            None => {
                self.insert_local(head, field);
                assert(self@ == set_at(m, path@, fm, force));
            },
            Some(t) => {
                match find_entry(&self.map, head) {
                    None => {
                        assert(lookup(m, path_head(path@)) is None);
                        if force {
                            let mut table = StatBlock::new();
                            table.set_at_path(t, field, force);
                            self.insert_local(head, StatBlockField::Table(table));
                            assert(self@ == set_at(m, path@, fm, force));
                        }
                    },
                    Some(i) => {
                        if !self.map[i].1.is_table() {
                            assert(self@ == set_at(m, path@, fm, force));
                            return ;
                        }
                        let ghost orig = self.map@;
                        proof {
                            assert(m[i as int] == (orig[i as int].0@, field_model(orig[i as int].1)));
                            assert(orig[i as int].1 is Table) by {
                                reveal_field_variants(orig[i as int].1);
                            }
                        }
                        let mut entry = (String::new(), StatBlockField::Constant(StatValue::Empty));
                        self.map.set_and_swap(i, &mut entry);
                        let (key, old_field) = entry;
                        proof {
                            assert(key@ == path_head(path@));
                            assert(lookup(m, path_head(path@)) == Some(field_model(old_field)));
                        }
                        let new_field = match old_field {
                            StatBlockField::Table(mut table) => {
                                table.set_at_path(t, field, force);
                                StatBlockField::Table(table)
                            },
                            other => other,
                        };
                        proof {
                            lemma_entries_update(orig, i as int, (key, new_field));
                        }
                        self.map.set(i, (key, new_field));
                        proof {
                            assert(self.map@ =~= orig.update(i as int, (key, new_field)));
                        }
                        assert(self@ == set_at(m, path@, fm, force));
                    },
                }
            },
        }
    }
}

impl StatBlockField {
    pub fn is_stat(&self) -> (r: bool)
        ensures
            r == (self@ is Stat),
    {
        proof {
            reveal_field_variants(*self);
        }
        matches!(self, StatBlockField::Stat(_))
    }

    pub fn is_derive(&self) -> (r: bool)
        ensures
            r == (self@ is Derive),
    {
        proof {
            reveal_field_variants(*self);
        }
        matches!(self, StatBlockField::Derive(_))
    }

    pub fn is_constant(&self) -> (r: bool)
        ensures
            r == (self@ is Constant),
    {
        proof {
            reveal_field_variants(*self);
        }
        matches!(self, StatBlockField::Constant(_))
    }

    pub fn is_table(&self) -> (r: bool)
        ensures
            r == (self@ is Table),
    {
        proof {
            reveal_field_variants(*self);
        }
        matches!(self, StatBlockField::Table(_))
    }
}

/// The model of a field has the field's own variant.
pub proof fn reveal_field_variants(f: StatBlockField)
    ensures
        (f is Stat) == (field_model(f) is Stat),
        (f is Derive) == (field_model(f) is Derive),
        (f is Constant) == (field_model(f) is Constant),
        (f is Table) == (field_model(f) is Table),
        f is Stat ==> field_model(f) == FieldModel::Stat(source_model(f->Stat_0)),
        f is Derive ==> field_model(f) == FieldModel::Derive(derive_model(f->Derive_0)),
        f is Constant ==> field_model(f) == FieldModel::Constant(f->Constant_0@),
        f is Table ==> field_model(f) == FieldModel::Table(f->Table_0@),
{
}

} // verus!

verus! {

impl StatBlock {
    /// The field stored directly under `index`, for changing it in place.
    pub fn get_local_field_mut(&mut self, index: &str) -> (r: Option<&mut StatBlockField>)
        ensures
            r is Some <==> lookup(old(self)@, index@) is Some,
            match r {
                Some(f) => {
                    &&& (*f)@ == lookup(old(self)@, index@)->0
                    &&& final(self)@ == insert_entry(old(self)@, index@, (*final(f))@)
                },
                None => final(self)@ == old(self)@,
            },
    {
        proof {
            lemma_entries_model(self.map@);
        }
        match find_entry(&self.map, index) {
            Some(i) => {
                let ghost orig = self.map@;
                proof {
                    assert forall|e: (String, StatBlockField)| #[trigger]
                        entries_model(orig.update(i as int, e)) == entries_model(orig).update(
                            i as int,
                            (e.0@, field_model(e.1)),
                        ) by {
                        lemma_entries_update(orig, i as int, e);
                    }
                }
                let entry = &mut self.map[i];
                Some(&mut entry.1)
            },
            None => None,
        }
    }
}

} // verus!

verus! {

impl StatBlock {
    /// The field at a dotted path, for changing it in place.
    pub fn get_field_mut<P: StatBlockPath>(&mut self, path: P) -> (r: Option<&mut StatBlockField>)
        ensures
            r is Some <==> field_at(old(self)@, path.path_view()) is Some,
            match r {
                Some(f) => {
                    &&& (*f)@ == field_at(old(self)@, path.path_view())->0
                    &&& final(self)@ == set_at(old(self)@, path.path_view(), (*final(f))@, false)
                },
                None => final(self)@ == old(self)@,
            },
    {
        self.field_at_path_mut(path.as_str())
    }

    fn field_at_path_mut(&mut self, path: &str) -> (r: Option<&mut StatBlockField>)
        ensures
            r is Some <==> field_at(old(self)@, path@) is Some,
            match r {
                Some(f) => {
                    &&& (*f)@ == field_at(old(self)@, path@)->0
                    &&& final(self)@ == set_at(old(self)@, path@, (*final(f))@, false)
                },
                None => final(self)@ == old(self)@,
            },
        decreases path@.len(),
    {
        proof {
            lemma_tail_shorter(path@);
            lemma_entries_model(self.map@);
        }
        let (head, tail) = split_first_dot(path);
        match tail {
            None => self.get_local_field_mut(head),
            Some(t) => {
                match find_entry(&self.map, head) {
                    Some(i) => {
                        let ghost orig = self.map@;
                        proof {
                            assert forall|e: (String, StatBlockField)| #[trigger]
                                entries_model(orig.update(i as int, e)) == entries_model(
                                    orig,
                                ).update(i as int, (e.0@, field_model(e.1))) by {
                                lemma_entries_update(orig, i as int, e);
                            }
                            assert(entries_model(orig)[i as int] == (
                                orig[i as int].0@,
                                field_model(orig[i as int].1),
                            ));
                            reveal_field_variants(orig[i as int].1);
                        }
                        let entry = &mut self.map[i];
                        match &mut entry.1 {
                            StatBlockField::Table(table) => table.field_at_path_mut(t),
                            _ => None,
                        }
                    },
                    None => None,
                }
            },
        }
    }
}

} // verus!

verus! {

//==============================================================================================
//        Operations on links
//==============================================================================================

/// The links that are bound, as (derive, parameter), in order.
pub open spec fn valid_links(s: Seq<StatDeriveLink>) -> Seq<(u128, usize)>
    decreases s.len(),
{
    if s.len() == 0 {
        Seq::empty()
    } else if s.last() is Valid {
        valid_links(s.drop_last()).push((s.last().target(), s.last().param()))
    } else {
        valid_links(s.drop_last())
    }
}

/// Every link as (parameter, derive), in order.
pub open spec fn link_pairs(s: Seq<StatDeriveLink>) -> Seq<(usize, u128)> {
    Seq::new(s.len(), |i: int| (s[i].param(), s[i].target()))
}

/// Some link leads to the derive `addr`.
pub open spec fn links_to(s: Seq<StatDeriveLink>, addr: u128) -> bool {
    exists|i: int| 0 <= i < s.len() && s[i].target() == addr
}

/// `i` is the first link to `addr` that is not bound yet.
pub open spec fn is_first_unbound(s: Seq<StatDeriveLink>, addr: u128, i: int) -> bool {
    &&& 0 <= i < s.len()
    &&& s[i] is Invalid
    &&& s[i].target() == addr
    &&& forall|j: int| 0 <= j < i ==> !(s[j] is Invalid && s[j].target() == addr)
}

/// The links after binding the first unbound link to `addr` to the derive `id`.
pub open spec fn bind_links(s: Seq<StatDeriveLink>, addr: u128, id: u128) -> Seq<StatDeriveLink> {
    if exists|i: int| is_first_unbound(s, addr, i) {
        let i = choose|i: int| is_first_unbound(s, addr, i);
        s.update(i, StatDeriveLink::Valid { link: id, index: s[i].param() })
    } else {
        s
    }
}

/// The links a field holds: those of a stat or derive, none for the rest.
pub open spec fn field_links(f: FieldModel) -> Seq<StatDeriveLink> {
    match f {
        FieldModel::Stat(s) => s.derives,
        FieldModel::Derive(d) => d.source.derives,
        _ => Seq::empty(),
    }
}

/// The identity of a field: that of a derive, 0 for the rest.
pub open spec fn field_addr(f: FieldModel) -> u128 {
    match f {
        FieldModel::Derive(d) => d.id,
        _ => 0,
    }
}

/// `d` after its next free parameter has been given `value`.
pub open spec fn with_next_param(d: DeriveModel, value: ValueModel) -> DeriveModel {
    DeriveModel {
        params: d.params.update(d.current_param as int, value),
        current_param: (d.current_param + 1) as usize,
        ..d
    }
}

fn collect_valid_links(s: &Vec<StatDeriveLink>) -> (r: Vec<(u128, usize)>)
    ensures
        r@ == valid_links(s@),
{
    let mut out: Vec<(u128, usize)> = Vec::new();
    let mut i: usize = 0;
    while i < s.len()
        invariant
            0 <= i <= s@.len(),
            out@ == valid_links(s@.take(i as int)),
        decreases s@.len() - i,
    {
        proof {
            assert(s@.take(i + 1).drop_last() =~= s@.take(i as int));
        }
        match &s[i] {
            StatDeriveLink::Valid { link, index } => {
                out.push((*link, *index));
            },
            StatDeriveLink::Invalid { .. } => {},
        }
        i = i + 1;
    }
    proof {
        assert(s@.take(s@.len() as int) =~= s@);
    }
    out
}

fn collect_link_pairs(s: &Vec<StatDeriveLink>) -> (r: Vec<(usize, u128)>)
    ensures
        r@ == link_pairs(s@),
{
    let mut out: Vec<(usize, u128)> = Vec::new();
    let mut i: usize = 0;
    while i < s.len()
        invariant
            0 <= i <= s@.len(),
            out@ =~= link_pairs(s@.take(i as int)),
        decreases s@.len() - i,
    {
        out.push((s[i].get_index(), s[i].get_pointer()));
        i = i + 1;
    }
    proof {
        assert(s@.take(s@.len() as int) =~= s@);
    }
    out
}

fn any_link_to(s: &Vec<StatDeriveLink>, addr: u128) -> (r: bool)
    ensures
        r == links_to(s@, addr),
{
    let mut i: usize = 0;
    while i < s.len()
        invariant
            0 <= i <= s@.len(),
            forall|j: int| 0 <= j < i ==> s@[j].target() != addr,
        decreases s@.len() - i,
    {
        if s[i].get_pointer() == addr {
            return true;
        }
        i = i + 1;
    }
    false
}

fn bind_first_unbound(s: &mut Vec<StatDeriveLink>, addr: u128, id: u128)
    ensures
        final(s)@ == bind_links(old(s)@, addr, id),
{
    let mut i: usize = 0;
    while i < s.len()
        invariant
            0 <= i <= s@.len(),
            s@ == old(s)@,
            forall|j: int| 0 <= j < i ==> !(s@[j] is Invalid && s@[j].target() == addr),
        decreases s@.len() - i,
    {
        let unbound = match &s[i] {
            StatDeriveLink::Invalid { link, .. } => *link == addr,
            StatDeriveLink::Valid { .. } => false,
        };
        if unbound {
            proof {
                let k = choose|k: int| is_first_unbound(old(s)@, addr, k);
                assert(is_first_unbound(old(s)@, addr, i as int));
                if k < i {
                    assert(!(old(s)@[k] is Invalid && old(s)@[k].target() == addr));
                } else if i < k {
                    assert(!(old(s)@[i as int] is Invalid && old(s)@[i as int].target() == addr));
                }
            }
            s[i].revalidate(id);
            return ;
        }
        i = i + 1;
    }
    proof {
        if exists|k: int| is_first_unbound(old(s)@, addr, k) {
            let k = choose|k: int| is_first_unbound(old(s)@, addr, k);
            assert(!(s@[k] is Invalid && s@[k].target() == addr));
        }
    }
}

//==============================================================================================
//        StatSource
//==============================================================================================

impl StatSource {
    pub fn new(value: StatValue) -> (r: StatSource)
        ensures
            r@ == (SourceModel { value: value@, derives: Seq::empty() }),
    {
        StatSource { value, derives: Vec::new() }
    }

    /// The value of the stat.
    pub fn get(&self) -> (r: StatValue)
        ensures
            r@ == self@.value,
    {
        self.value.clone()
    }

    /// Gives the stat a new value. Returns the bound links, as (derive, parameter): each of
    /// those derive parameters has to receive the new value.
    pub fn set(&mut self, value: StatValue) -> (r: Vec<(u128, usize)>)
        ensures
            final(self)@ == (SourceModel { value: value@, derives: old(self)@.derives }),
            r@ == valid_links(old(self)@.derives),
    {
        let r = collect_valid_links(&self.derives);
        self.value = value;
        r
    }

    /// Whether a link leads to the derive `addr`.
    pub fn has_derivative(&self, addr: u128) -> (r: bool)
        ensures
            r == links_to(self@.derives, addr),
    {
        any_link_to(&self.derives, addr)
    }

    pub fn derivative_count(&self) -> (r: usize)
        ensures
            r == self@.derives.len(),
    {
        self.derives.len()
    }

    /// Every link, as (parameter, derive).
    pub fn links(&self) -> (r: Vec<(usize, u128)>)
        ensures
            r@ == link_pairs(self@.derives),
    {
        collect_link_pairs(&self.derives)
    }

    /// Binds the first unbound link to `addr` to `derivative`, when `derivative` is a derive.
    pub fn bind(&mut self, derivative: &StatBlockField, addr: u128)
        ensures
            final(self)@ == (SourceModel {
                derives: match derivative@ {
                    FieldModel::Derive(d) => bind_links(old(self)@.derives, addr, d.id),
                    _ => old(self)@.derives,
                },
                ..old(self)@
            }),
    {
        proof {
            reveal_field_variants(*derivative);
        }
        match derivative {
            StatBlockField::Derive(d) => bind_first_unbound(&mut self.derives, addr, d.id),
            _ => {},
        }
    }

    /// The value as it is stored in an index.
    pub fn as_pak_value(&self) -> (r: IndexValue)
        ensures
            r@ == index_of(self@.value),
    {
        self.value.to_index_value()
    }

    /// Makes `derive` read this stat: its next free parameter takes the stat's value and
    /// the stat gains a bound link to that parameter.
    pub fn push_derive(&mut self, derive: &mut StatDerive)
        requires
            old(derive)@.current_param < old(derive)@.params.len(),
        ensures
            final(derive)@ == with_next_param(old(derive)@, old(self)@.value),
            final(self)@ == (SourceModel {
                derives: old(self)@.derives.push(
                    StatDeriveLink::Valid { link: old(derive)@.id, index: old(derive)@.current_param },
                ),
                ..old(self)@
            }),
    {
        let value = self.get();
        let link = derive.bind_link(value);
        self.derives.push(link);
    }
}

impl Clone for StatSource {
    /// A copy of a stat; its links are not bound.
    fn clone(&self) -> (r: Self)
        ensures
            r@.value == self@.value,
            r@.derives == self@.derives.map_values(
                |l: StatDeriveLink| StatDeriveLink::Invalid { link: l.target(), index: l.param() },
            ),
    {
        let mut derives: Vec<StatDeriveLink> = Vec::new();
        let mut i: usize = 0;
        while i < self.derives.len()
            invariant
                0 <= i <= self.derives@.len(),
                derives@ =~= self.derives@.take(i as int).map_values(
                    |l: StatDeriveLink| StatDeriveLink::Invalid { link: l.target(), index: l.param() },
                ),
            decreases self.derives@.len() - i,
        {
            derives.push(self.derives[i].clone());
            i = i + 1;
        }
        proof {
            assert(self.derives@.take(self.derives@.len() as int) =~= self.derives@);
        }
        StatSource { value: self.value.clone(), derives }
    }
}

//==============================================================================================
//        StatDerive
//==============================================================================================

impl StatDerive {
    /// A derive with the identity `id`, the compiled `callback`, its parameters `params`
    /// and the value the callback gave for them. No parameter has been taken by a provider yet.
    pub fn with_id(id: u128, callback: Vec<u8>, params: Vec<StatValue>, value: StatValue) -> (r:
        StatDerive)
        ensures
            r@ == (DeriveModel {
                id,
                source: SourceModel { value: value@, derives: Seq::empty() },
                callback: callback@,
                params: values_model(params@),
                current_param: 0,
            }),
    {
        StatDerive {
            id,
            core: StatDeriveCore {
                source: StatSource::new(value),
                callback,
                params,
                current_param: 0,
            },
        }
    }

    /// A derive with a fresh identity, the compiled `callback`, its parameters and the value
    /// the callback gave for them.
    pub fn new(callback: Vec<u8>, params: Vec<StatValue>, value: StatValue) -> (r: StatDerive)
        ensures
            r@.source == (SourceModel { value: value@, derives: Seq::empty() }),
            r@.callback == callback@,
            r@.params == values_model(params@),
            r@.current_param == 0,
    {
        Self::with_id(crate::common::ids::random_id(), callback, params, value)
    }

    /// The identity by which links find this derive.
    pub fn id(&self) -> (r: u128)
        ensures
            r == self@.id,
    {
        self.id
    }

    /// The compiled callback.
    pub fn callback(&self) -> (r: &Vec<u8>)
        ensures
            r@ == self@.callback,
    {
        &self.core.callback
    }

    /// The parameters the callback is run on.
    pub fn params(&self) -> (r: &Vec<StatValue>)
        ensures
            values_model(r@) == self@.params,
    {
        &self.core.params
    }

    /// Gives the next free parameter the value `value`; returns its position.
    pub fn init_param(&mut self, value: StatValue) -> (r: usize)
        requires
            old(self)@.current_param < old(self)@.params.len(),
        ensures
            r == old(self)@.current_param,
            final(self)@ == with_next_param(old(self)@, value@),
    {
        proof {
            crate::stat::value::lemma_values_model(self.core.params@);
        }
        let index = self.core.current_param;
        let n = self.core.params.len();
        assert(index < n);
        let ghost before = self.core.params@;
        self.core.params.set(index, value);
        proof {
            crate::stat::value::lemma_values_model(self.core.params@);
            assert(values_model(self.core.params@) =~= values_model(before).update(
                index as int,
                value@,
            ));
        }
        self.core.current_param = self.core.current_param + 1;
        index
    }

    /// Takes the next free parameter for a provider holding `value`; returns the bound link
    /// that the provider keeps.
    pub fn bind_link(&mut self, value: StatValue) -> (r: StatDeriveLink)
        requires
            old(self)@.current_param < old(self)@.params.len(),
        ensures
            r == (StatDeriveLink::Valid { link: old(self)@.id, index: old(self)@.current_param }),
            final(self)@ == with_next_param(old(self)@, value@),
    {
        let index = self.init_param(value);
        StatDeriveLink::Valid { link: self.id, index }
    }

    /// Takes the next free parameter for a constant provider.
    pub fn init_constant(&mut self, value: StatValue)
        requires
            old(self)@.current_param < old(self)@.params.len(),
        ensures
            final(self)@ == with_next_param(old(self)@, value@),
    {
        self.init_param(value);
    }

    /// Connects one provider: a constant takes the next free parameter, a stat or derive
    /// takes it and keeps a bound link to it, a table is left out.
    pub fn attach(&mut self, provider: &mut StatBlockField)
        requires
            old(self)@.current_param < old(self)@.params.len(),
        ensures
            match old(provider)@ {
                FieldModel::Constant(c) => final(self)@ == with_next_param(old(self)@, c)
                    && final(provider)@ == old(provider)@,
                FieldModel::Stat(s) => final(self)@ == with_next_param(old(self)@, s.value)
                    && final(provider)@ == FieldModel::Stat(
                    SourceModel {
                        derives: s.derives.push(
                            StatDeriveLink::Valid { link: old(self)@.id, index: old(self)@.current_param },
                        ),
                        ..s
                    },
                ),
                FieldModel::Derive(d) => final(self)@ == with_next_param(old(self)@, d.source.value)
                    && final(provider)@ == FieldModel::Derive(
                    DeriveModel {
                        source: SourceModel {
                            derives: d.source.derives.push(
                                StatDeriveLink::Valid {
                                    link: old(self)@.id,
                                    index: old(self)@.current_param,
                                },
                            ),
                            ..d.source
                        },
                        ..d
                    },
                ),
                FieldModel::Table(_) => final(self)@ == old(self)@ && final(provider)@ == old(provider)@,
            },
    {
        proof {
            reveal_field_variants(*provider);
        }
        match provider {
            StatBlockField::Constant(c) => {
                let value = c.clone();
                self.init_constant(value);
            },
            StatBlockField::Stat(s) => {
                s.push_derive(self);
            },
            StatBlockField::Derive(d) => {
                d.core.source.push_derive(self);
            },
            StatBlockField::Table(_) => {},
        }
    }

    /// The value the derive currently holds.
    pub fn get(&self) -> (r: StatValue)
        ensures
            r@ == self@.source.value,
    {
        self.core.source.get()
    }

    /// Makes `derive` read this derive's value (see `StatSource::push_derive`).
    pub fn push_derive(&mut self, derive: &mut StatDerive)
        requires
            old(derive)@.current_param < old(derive)@.params.len(),
        ensures
            final(derive)@ == with_next_param(old(derive)@, old(self)@.source.value),
            final(self)@ == (DeriveModel {
                source: SourceModel {
                    derives: old(self)@.source.derives.push(
                        StatDeriveLink::Valid { link: old(derive)@.id, index: old(derive)@.current_param },
                    ),
                    ..old(self)@.source
                },
                ..old(self)@
            }),
    {
        self.core.source.push_derive(derive);
    }

    /// Gives parameter `index` a new value. The callback then has to be run again on the
    /// parameters and its result handed to `resolve`.
    pub fn send(&mut self, index: usize, value: StatValue)
        requires
            index < old(self)@.params.len(),
        ensures
            final(self)@ == (DeriveModel {
                params: old(self)@.params.update(index as int, value@),
                ..old(self)@
            }),
    {
        proof {
            crate::stat::value::lemma_values_model(self.core.params@);
        }
        let ghost before = self.core.params@;
        self.core.params.set(index, value);
        proof {
            crate::stat::value::lemma_values_model(self.core.params@);
            assert(values_model(self.core.params@) =~= values_model(before).update(
                index as int,
                value@,
            ));
        }
    }

    /// Stores the value the callback computed; returns the bound links to notify in turn.
    pub fn resolve(&mut self, value: StatValue) -> (r: Vec<(u128, usize)>)
        ensures
            final(self)@ == (DeriveModel {
                source: SourceModel { value: value@, derives: old(self)@.source.derives },
                ..old(self)@
            }),
            r@ == valid_links(old(self)@.source.derives),
    {
        self.core.source.set(value)
    }

    pub fn derivative_count(&self) -> (r: usize)
        ensures
            r == self@.source.derives.len(),
    {
        self.core.source.derivative_count()
    }

    pub fn has_derivative(&self, addr: u128) -> (r: bool)
        ensures
            r == links_to(self@.source.derives, addr),
    {
        self.core.source.has_derivative(addr)
    }

    pub fn links(&self) -> (r: Vec<(usize, u128)>)
        ensures
            r@ == link_pairs(self@.source.derives),
    {
        self.core.source.links()
    }

    /// Binds the first unbound link to `addr` to `derivative`, when `derivative` is a derive.
    pub fn bind(&mut self, derivative: &StatBlockField, addr: u128)
        ensures
            final(self)@ == (DeriveModel {
                source: SourceModel {
                    derives: match derivative@ {
                        FieldModel::Derive(d) => bind_links(old(self)@.source.derives, addr, d.id),
                        _ => old(self)@.source.derives,
                    },
                    ..old(self)@.source
                },
                ..old(self)@
            }),
    {
        self.core.source.bind(derivative, addr)
    }

    /// The value as it is stored in an index.
    pub fn as_pak_value(&self) -> (r: IndexValue)
        ensures
            r@ == index_of(self@.source.value),
    {
        self.core.source.as_pak_value()
    }
}

} // verus!

verus! {

//==============================================================================================
//        StatBlockField
//==============================================================================================

impl StatBlockField {
    pub fn as_stat(&self) -> (r: Option<&StatSource>)
        ensures
            r is Some <==> self@ is Stat,
            r is Some ==> self@ == FieldModel::Stat(r->0@),
    {
        proof {
            reveal_field_variants(*self);
        }
        match self {
            StatBlockField::Stat(stat) => Some(stat),
            _ => None,
        }
    }

    pub fn as_derive(&self) -> (r: Option<&StatDerive>)
        ensures
            r is Some <==> self@ is Derive,
            r is Some ==> self@ == FieldModel::Derive(r->0@),
    {
        proof {
            reveal_field_variants(*self);
        }
        match self {
            StatBlockField::Derive(derive) => Some(derive),
            _ => None,
        }
    }

    pub fn as_derive_mut(&mut self) -> (r: Option<&mut StatDerive>)
        ensures
            r is Some <==> old(self)@ is Derive,
            match r {
                Some(d) => old(self)@ == FieldModel::Derive((*d)@) && final(self)@
                    == FieldModel::Derive((*final(d))@),
                None => final(self)@ == old(self)@,
            },
    {
        proof {
            reveal_field_variants(*self);
            assert forall|d: StatDerive| #[trigger]
                field_model(StatBlockField::Derive(d)) == FieldModel::Derive(derive_model(d)) by {
                reveal_field_variants(StatBlockField::Derive(d));
            }
        }
        match self {
            StatBlockField::Derive(derive) => Some(derive),
            _ => None,
        }
    }

    pub fn as_table_mut(&mut self) -> (r: Option<&mut StatBlock>)
        ensures
            r is Some <==> old(self)@ is Table,
            match r {
                Some(t) => old(self)@ == FieldModel::Table((*t)@) && final(self)@ == FieldModel::Table(
                    (*final(t))@,
                ),
                None => final(self)@ == old(self)@,
            },
    {
        proof {
            reveal_field_variants(*self);
            assert forall|t: StatBlock| #[trigger]
                field_model(StatBlockField::Table(t)) == FieldModel::Table(t@) by {
                reveal_field_variants(StatBlockField::Table(t));
            }
        }
        match self {
            StatBlockField::Table(table) => Some(table),
            _ => None,
        }
    }

    /// The identity of the field: that of a derive, 0 for the rest.
    pub fn addr(&self) -> (r: u128)
        ensures
            r == field_addr(self@),
    {
        proof {
            reveal_field_variants(*self);
        }
        match self {
            StatBlockField::Derive(derive) => derive.id(),
            _ => 0,
        }
    }

    /// Whether a link of the field leads to the derive `addr`.
    pub fn has_derivative(&self, addr: u128) -> (r: bool)
        ensures
            r == links_to(field_links(self@), addr),
    {
        proof {
            reveal_field_variants(*self);
        }
        match self {
            StatBlockField::Stat(s) => s.has_derivative(addr),
            StatBlockField::Derive(d) => d.has_derivative(addr),
            _ => false,
        }
    }

    /// Every link of the field, as (parameter, derive).
    pub fn links(&self) -> (r: Vec<(usize, u128)>)
        ensures
            r@ == link_pairs(field_links(self@)),
    {
        proof {
            reveal_field_variants(*self);
        }
        match self {
            StatBlockField::Stat(s) => s.links(),
            StatBlockField::Derive(d) => d.links(),
            _ => {
                let r = Vec::new();
                proof {
                    assert(r@ =~= link_pairs(field_links(self@)));
                }
                r
            },
        }
    }

    pub fn derivative_count(&self) -> (r: usize)
        ensures
            r == field_links(self@).len(),
    {
        proof {
            reveal_field_variants(*self);
        }
        match self {
            StatBlockField::Stat(s) => s.derivative_count(),
            StatBlockField::Derive(d) => d.derivative_count(),
            _ => 0,
        }
    }

    /// Binds the first unbound link to `addr` to `derivative`, for a stat or derive field.
    pub fn bind(&mut self, derivative: &StatBlockField, addr: u128)
        ensures
            final(self)@ == bind_field(old(self)@, derivative@, addr),
    {
        proof {
            reveal_field_variants(*self);
            assert forall|s: StatSource| #[trigger]
                field_model(StatBlockField::Stat(s)) == FieldModel::Stat(s@) by {
                reveal_field_variants(StatBlockField::Stat(s));
            }
            assert forall|d: StatDerive| #[trigger]
                field_model(StatBlockField::Derive(d)) == FieldModel::Derive(d@) by {
                reveal_field_variants(StatBlockField::Derive(d));
            }
        }
        match self {
            StatBlockField::Stat(s) => s.bind(derivative, addr),
            StatBlockField::Derive(d) => d.bind(derivative, addr),
            _ => {},
        }
    }

    /// Makes `derive` read this field, when it is a stat or a derive.
    pub fn push_derive(&mut self, derive: &mut StatDerive)
        requires
            (old(self)@ is Stat || old(self)@ is Derive) ==> old(derive)@.current_param < old(
                derive,
            )@.params.len(),
        ensures
            match old(self)@ {
                FieldModel::Stat(s) => final(derive)@ == with_next_param(old(derive)@, s.value)
                    && final(self)@ == FieldModel::Stat(
                    SourceModel {
                        derives: s.derives.push(
                            StatDeriveLink::Valid {
                                link: old(derive)@.id,
                                index: old(derive)@.current_param,
                            },
                        ),
                        ..s
                    },
                ),
                FieldModel::Derive(d) => final(derive)@ == with_next_param(
                    old(derive)@,
                    d.source.value,
                ) && final(self)@ == FieldModel::Derive(
                    DeriveModel {
                        source: SourceModel {
                            derives: d.source.derives.push(
                                StatDeriveLink::Valid {
                                    link: old(derive)@.id,
                                    index: old(derive)@.current_param,
                                },
                            ),
                            ..d.source
                        },
                        ..d
                    },
                ),
                _ => final(derive)@ == old(derive)@ && final(self)@ == old(self)@,
            },
    {
        proof {
            reveal_field_variants(*self);
            assert forall|s: StatSource| #[trigger]
                field_model(StatBlockField::Stat(s)) == FieldModel::Stat(s@) by {
                reveal_field_variants(StatBlockField::Stat(s));
            }
            assert forall|d: StatDerive| #[trigger]
                field_model(StatBlockField::Derive(d)) == FieldModel::Derive(d@) by {
                reveal_field_variants(StatBlockField::Derive(d));
            }
        }
        match self {
            StatBlockField::Stat(s) => s.push_derive(derive),
            StatBlockField::Derive(d) => d.push_derive(derive),
            _ => {},
        }
    }

    /// Gives a stat field a new value and returns its bound links as (derive, parameter);
    /// the other kinds of field are left as they are.
    pub fn set(&mut self, value: StatValue) -> (r: Vec<(u128, usize)>)
        ensures
            match old(self)@ {
                FieldModel::Stat(s) => final(self)@ == FieldModel::Stat(
                    SourceModel { value: value@, derives: s.derives },
                ) && r@ == valid_links(s.derives),
                _ => final(self)@ == old(self)@ && r@.len() == 0,
            },
    {
        proof {
            reveal_field_variants(*self);
            assert forall|s: StatSource| #[trigger]
                field_model(StatBlockField::Stat(s)) == FieldModel::Stat(s@) by {
                reveal_field_variants(StatBlockField::Stat(s));
            }
        }
        match self {
            StatBlockField::Stat(s) => s.set(value),
            _ => Vec::new(),
        }
    }
}

/// A field after binding the first unbound link to `addr` to `derivative`.
pub open spec fn bind_field(f: FieldModel, derivative: FieldModel, addr: u128) -> FieldModel {
    match (f, derivative) {
        (FieldModel::Stat(s), FieldModel::Derive(d)) => FieldModel::Stat(
            SourceModel { derives: bind_links(s.derives, addr, d.id), ..s },
        ),
        (FieldModel::Derive(x), FieldModel::Derive(d)) => FieldModel::Derive(
            DeriveModel {
                source: SourceModel { derives: bind_links(x.source.derives, addr, d.id), ..x.source },
                ..x
            },
        ),
        _ => f,
    }
}

impl From<StatSource> for StatBlockField {
    fn from(value: StatSource) -> (r: Self) {
        StatBlockField::Stat(value)
    }
}

impl From<StatDerive> for StatBlockField {
    fn from(value: StatDerive) -> (r: Self) {
        StatBlockField::Derive(value)
    }
}

impl vstd::std_specs::convert::FromSpecImpl<StatSource> for StatBlockField {
    open spec fn obeys_from_spec() -> bool {
        true
    }

    open spec fn from_spec(v: StatSource) -> Self {
        StatBlockField::Stat(v)
    }
}

impl vstd::std_specs::convert::FromSpecImpl<StatDerive> for StatBlockField {
    open spec fn obeys_from_spec() -> bool {
        true
    }

    open spec fn from_spec(v: StatDerive) -> Self {
        StatBlockField::Derive(v)
    }
}

} // verus!

verus! {

//==============================================================================================
//        Flattening
//==============================================================================================

/// The index entries of a block under `root`: one per stat, derive or constant, at its
/// dotted path, with the index form of its value; tables are walked into.
pub open spec fn flat_index(m: Seq<(Seq<char>, FieldModel)>, root: Seq<char>) -> Seq<
    (Seq<char>, IndexModel),
>
    decreases m,
{
    if m.len() == 0 {
        Seq::empty()
    } else {
        flat_index(m.drop_last(), root) + entry_index(m.last(), root)
    }
}

pub open spec fn entry_index(e: (Seq<char>, FieldModel), root: Seq<char>) -> Seq<
    (Seq<char>, IndexModel),
>
    decreases e,
{
    let path = join_path(root, e.0);
    match e.1 {
        FieldModel::Table(t) => flat_index(t, path),
        FieldModel::Stat(s) => seq![(path, index_of(s.value))],
        FieldModel::Derive(d) => seq![(path, index_of(d.source.value))],
        FieldModel::Constant(c) => seq![(path, index_of(c))],
    }
}

pub open spec fn index_pairs(s: Seq<(String, IndexValue)>) -> Seq<(Seq<char>, IndexModel)> {
    Seq::new(s.len(), |i: int| (s[i].0@, s[i].1@))
}

impl StatBlock {
    /// Adds the index entries of every stat, derive and constant, at its full dotted path.
    pub fn get_indices(&self, indices: &mut Vec<(String, IndexValue)>)
        ensures
            index_pairs(final(indices)@) == index_pairs(old(indices)@) + flat_index(
                self@,
                Seq::empty(),
            ),
    {
        let root = "";
        proof {
            reveal_strlit("");
            assert(root@ =~= Seq::<char>::empty());
        }
        self.to_indices(indices, root)
    }

    fn to_indices(&self, result: &mut Vec<(String, IndexValue)>, root: &str)
        ensures
            index_pairs(final(result)@) == index_pairs(old(result)@) + flat_index(self@, root@),
        decreases self,
    {
        proof {
            lemma_entries_model(self.map@);
        }
        let mut i: usize = 0;
        while i < self.map.len()
            invariant
                0 <= i <= self.map@.len(),
                index_pairs(result@) == index_pairs(old(result)@) + flat_index(
                    entries_model(self.map@.take(i as int)),
                    root@,
                ),
            decreases self.map@.len() - i,
        {
            proof {
                assert(self.map@.take(i + 1).drop_last() =~= self.map@.take(i as int));
                assert(decreases_to!(*self => self.map));
                assert(decreases_to!(self.map => self.map[i as int]));
                assert(decreases_to!(self.map[i as int] => self.map[i as int].1));
                reveal_field_variants(self.map@[i as int].1);
            }
            let ghost before = result@;
            let index = crate::stat::path::join_paths(root, self.map[i].0.as_str());
            match &self.map[i].1 {
                StatBlockField::Stat(s) => {
                    let v = s.as_pak_value();
                    result.push((index, v));
                },
                StatBlockField::Derive(d) => {
                    let v = d.as_pak_value();
                    result.push((index, v));
                },
                StatBlockField::Constant(c) => {
                    let v = c.to_index_value();
                    result.push((index, v));
                },
                StatBlockField::Table(t) => {
                    proof {
                        assert(decreases_to!(self.map[i as int].1 => t));
                    }
                    t.to_indices(result, index.as_str());
                },
            }
            proof {
                let em = entries_model(self.map@.take(i + 1));
                assert(em.drop_last() == entries_model(self.map@.take(i as int)));
                assert(em.last() == (self.map@[i as int].0@, field_model(self.map@[i as int].1)));
                assert(index_pairs(result@) =~= index_pairs(before) + entry_index(em.last(), root@));
                assert(flat_index(em, root@) == flat_index(em.drop_last(), root@) + entry_index(
                    em.last(),
                    root@,
                ));
                assert(index_pairs(result@) =~= index_pairs(old(result)@) + flat_index(em, root@));
            }
            i = i + 1;
        }
        proof {
            assert(self.map@.take(self.map@.len() as int) =~= self.map@);
        }
    }
}

} // verus!

verus! {

/// Links as a copy holds them: none is bound.
pub open spec fn unbind_links(s: Seq<StatDeriveLink>) -> Seq<StatDeriveLink> {
    s.map_values(|l: StatDeriveLink| StatDeriveLink::Invalid { link: l.target(), index: l.param() })
}

/// A stat, derive or constant as a copy of it holds it: the same content, no link bound.
pub open spec fn unbound(f: FieldModel) -> FieldModel {
    match f {
        FieldModel::Stat(s) => FieldModel::Stat(SourceModel { derives: unbind_links(s.derives), ..s }),
        FieldModel::Derive(d) => FieldModel::Derive(
            DeriveModel {
                source: SourceModel { derives: unbind_links(d.source.derives), ..d.source },
                ..d
            },
        ),
        _ => f,
    }
}

fn copy_values(v: &Vec<StatValue>) -> (r: Vec<StatValue>)
    ensures
        values_model(r@) == values_model(v@),
{
    let mut out: Vec<StatValue> = Vec::new();
    let mut i: usize = 0;
    while i < v.len()
        invariant
            0 <= i <= v@.len(),
            values_model(out@) == values_model(v@.take(i as int)),
        decreases v@.len() - i,
    {
        proof {
            assert(v@.take(i + 1).drop_last() =~= v@.take(i as int));
        }
        let ghost before = out@;
        out.push(v[i].clone());
        proof {
            assert(out@.drop_last() =~= before);
        }
        i = i + 1;
    }
    proof {
        assert(v@.take(v@.len() as int) =~= v@);
    }
    out
}

fn copy_bytes(v: &Vec<u8>) -> (r: Vec<u8>)
    ensures
        r@ == v@,
{
    let r = v.clone();
    assert(r@ =~= v@);
    r
}

impl Clone for StatDerive {
    /// A copy of a derive: the same identity, callback, parameters and value; its links are
    /// not bound.
    fn clone(&self) -> (r: Self)
        ensures
            r@ == (DeriveModel {
                source: SourceModel { derives: unbind_links(self@.source.derives), ..self@.source },
                ..self@
            }),
    {
        StatDerive {
            id: self.id,
            core: StatDeriveCore {
                source: self.core.source.clone(),
                callback: copy_bytes(&self.core.callback),
                params: copy_values(&self.core.params),
                current_param: self.core.current_param,
            },
        }
    }
}

impl StatBlockField {
    /// A copy of a stat, derive or constant (see `unbound`).
    pub fn copy_leaf(&self) -> (r: StatBlockField)
        requires
            !(self@ is Table),
        ensures
            r@ == unbound(self@),
    {
        proof {
            reveal_field_variants(*self);
        }
        let r = match self {
            StatBlockField::Stat(s) => StatBlockField::Stat(s.clone()),
            StatBlockField::Derive(d) => StatBlockField::Derive(d.clone()),
            StatBlockField::Constant(c) => StatBlockField::Constant(c.clone()),
            StatBlockField::Table(_) => StatBlockField::Constant(StatValue::Empty),
        };
        proof {
            reveal_field_variants(r);
        }
        r
    }
}

} // verus!

verus! {

/// The stats, derives and constants of a block under `root`, each with its dotted path, its
/// identity (see `field_addr`) and a copy of it (see `unbound`); tables are walked into.
pub open spec fn flat_fields(m: Seq<(Seq<char>, FieldModel)>, root: Seq<char>) -> Seq<
    (Seq<char>, u128, FieldModel),
>
    decreases m,
{
    if m.len() == 0 {
        Seq::empty()
    } else {
        flat_fields(m.drop_last(), root) + entry_fields(m.last(), root)
    }
}

pub open spec fn entry_fields(e: (Seq<char>, FieldModel), root: Seq<char>) -> Seq<
    (Seq<char>, u128, FieldModel),
>
    decreases e,
{
    let path = join_path(root, e.0);
    match e.1 {
        FieldModel::Table(t) => flat_fields(t, path),
        f => seq![(path, field_addr(f), unbound(f))],
    }
}

/// The content of a flat list of fields.
pub open spec fn flat_model(s: Seq<(String, u128, StatBlockField)>) -> Seq<
    (Seq<char>, u128, FieldModel),
> {
    Seq::new(s.len(), |i: int| (s[i].0@, s[i].1, s[i].2@))
}

impl StatBlock {
    /// The block as a flat list (see `flat_fields`): the form in which it is stored.
    pub fn to_flat(&self) -> (r: Vec<(String, u128, StatBlockField)>)
        ensures
            flat_model(r@) == flat_fields(self@, Seq::empty()),
    {
        let mut r: Vec<(String, u128, StatBlockField)> = Vec::new();
        let root = "";
        proof {
            reveal_strlit("");
            assert(root@ =~= Seq::<char>::empty());
            assert(flat_model(r@) =~= Seq::empty());
        }
        self.flatten_into(&mut r, root);
        proof {
            assert(flat_model(r@) =~= Seq::empty() + flat_fields(self@, Seq::empty()));
        }
        r
    }

    fn flatten_into(&self, result: &mut Vec<(String, u128, StatBlockField)>, root: &str)
        ensures
            flat_model(final(result)@) == flat_model(old(result)@) + flat_fields(self@, root@),
        decreases self,
    {
        proof {
            lemma_entries_model(self.map@);
        }
        let mut i: usize = 0;
        while i < self.map.len()
            invariant
                0 <= i <= self.map@.len(),
                flat_model(result@) == flat_model(old(result)@) + flat_fields(
                    entries_model(self.map@.take(i as int)),
                    root@,
                ),
            decreases self.map@.len() - i,
        {
            proof {
                assert(self.map@.take(i + 1).drop_last() =~= self.map@.take(i as int));
                assert(decreases_to!(*self => self.map));
                assert(decreases_to!(self.map => self.map[i as int]));
                assert(decreases_to!(self.map[i as int] => self.map[i as int].1));
                reveal_field_variants(self.map@[i as int].1);
            }
            let ghost before = result@;
            let index = crate::stat::path::join_paths(root, self.map[i].0.as_str());
            match &self.map[i].1 {
                StatBlockField::Table(t) => {
                    proof {
                        assert(decreases_to!(self.map[i as int].1 => t));
                    }
                    t.flatten_into(result, index.as_str());
                },
                other => {
                    let addr = other.addr();
                    let copy = other.copy_leaf();
                    result.push((index, addr, copy));
                },
            }
            proof {
                let em = entries_model(self.map@.take(i + 1));
                assert(em.drop_last() == entries_model(self.map@.take(i as int)));
                assert(em.last() == (self.map@[i as int].0@, field_model(self.map@[i as int].1)));
                assert(flat_model(result@) =~= flat_model(before) + entry_fields(em.last(), root@));
                assert(flat_fields(em, root@) == flat_fields(em.drop_last(), root@) + entry_fields(
                    em.last(),
                    root@,
                ));
                assert(flat_model(result@) =~= flat_model(old(result)@) + flat_fields(em, root@));
            }
            i = i + 1;
        }
        proof {
            assert(self.map@.take(self.map@.len() as int) =~= self.map@);
        }
    }
}

} // verus!

verus! {

//==============================================================================================
//        Loading a flat list back into a block
//==============================================================================================

/// (identity column, derive id) for each entry that holds a derive, in order.
pub open spec fn derive_pairs(s: Seq<(Seq<char>, u128, FieldModel)>) -> Seq<(u128, u128)>
    decreases s.len(),
{
    if s.len() == 0 {
        Seq::empty()
    } else if s.last().2 is Derive {
        derive_pairs(s.drop_last()).push((s.last().1, s.last().2->Derive_0.id))
    } else {
        derive_pairs(s.drop_last())
    }
}

/// The derive id paired first with the identity `t`.
pub open spec fn pair_lookup(ps: Seq<(u128, u128)>, t: u128) -> Option<u128> {
    if exists|j: int| 0 <= j < ps.len() && ps[j].0 == t {
        let j = choose|j: int|
            0 <= j < ps.len() && ps[j].0 == t && forall|k: int| 0 <= k < j ==> ps[k].0 != t;
        Some(ps[j].1)
    } else {
        None
    }
}

/// A link after loading: bound to the derive its identity names, when one was loaded,
/// unbound otherwise.
pub open spec fn relink(l: StatDeriveLink, ps: Seq<(u128, u128)>) -> StatDeriveLink {
    match pair_lookup(ps, l.target()) {
        Some(id) => StatDeriveLink::Valid { link: id, index: l.param() },
        None => StatDeriveLink::Invalid { link: l.target(), index: l.param() },
    }
}

pub open spec fn relink_links(ls: Seq<StatDeriveLink>, ps: Seq<(u128, u128)>) -> Seq<StatDeriveLink> {
    ls.map_values(|l: StatDeriveLink| relink(l, ps))
}

pub open spec fn relink_field(f: FieldModel, ps: Seq<(u128, u128)>) -> FieldModel {
    match f {
        FieldModel::Stat(s) => FieldModel::Stat(SourceModel { derives: relink_links(s.derives, ps), ..s }),
        FieldModel::Derive(d) => FieldModel::Derive(
            DeriveModel {
                source: SourceModel { derives: relink_links(d.source.derives, ps), ..d.source },
                ..d
            },
        ),
        _ => f,
    }
}

/// `m` after storing the entries of `s` in order, creating tables as needed, each relinked
/// against `ps`.
pub open spec fn load_fields(
    m: Seq<(Seq<char>, FieldModel)>,
    s: Seq<(Seq<char>, u128, FieldModel)>,
    ps: Seq<(u128, u128)>,
) -> Seq<(Seq<char>, FieldModel)>
    decreases s.len(),
{
    if s.len() == 0 {
        m
    } else {
        set_at(load_fields(m, s.drop_last(), ps), s.last().0, relink_field(s.last().2, ps), true)
    }
}

/// The block a flat list loads into: its fields in the order of the list, every link bound
/// to the derive of the list that its identity names.
pub open spec fn from_flat_model(s: Seq<(Seq<char>, u128, FieldModel)>) -> Seq<
    (Seq<char>, FieldModel),
> {
    load_fields(Seq::empty(), s, derive_pairs(s))
}

/// Creating the tables on the way means setting a path never fails.
pub proof fn lemma_force_never_fails(m: Seq<(Seq<char>, FieldModel)>, p: Seq<char>)
    ensures
        !set_would_fail(m, p, true),
    decreases p.len(),
{
    lemma_tail_shorter(p);
    match path_tail(p) {
        None => {},
        Some(t) => {
            match lookup(m, path_head(p)) {
                Some(FieldModel::Table(sub)) => lemma_force_never_fails(sub, t),
                _ => {},
            }
        },
    }
}

fn collect_derive_pairs(s: &Vec<(String, u128, StatBlockField)>) -> (r: Vec<(u128, u128)>)
    ensures
        r@ == derive_pairs(flat_model(s@)),
{
    let mut out: Vec<(u128, u128)> = Vec::new();
    let mut i: usize = 0;
    while i < s.len()
        invariant
            0 <= i <= s@.len(),
            out@ == derive_pairs(flat_model(s@).take(i as int)),
        decreases s@.len() - i,
    {
        proof {
            assert(flat_model(s@).take(i + 1).drop_last() =~= flat_model(s@).take(i as int));
            reveal_field_variants(s@[i as int].2);
        }
        match &s[i].2 {
            StatBlockField::Derive(d) => {
                out.push((s[i].1, d.id()));
            },
            _ => {},
        }
        i = i + 1;
    }
    proof {
        assert(flat_model(s@).take(s@.len() as int) =~= flat_model(s@));
    }
    out
}

fn find_pair(ps: &Vec<(u128, u128)>, t: u128) -> (r: Option<u128>)
    ensures
        r == pair_lookup(ps@, t),
{
    let mut i: usize = 0;
    while i < ps.len()
        invariant
            0 <= i <= ps@.len(),
            forall|k: int| 0 <= k < i ==> ps@[k].0 != t,
        decreases ps@.len() - i,
    {
        if ps[i].0 == t {
            proof {
                let j = choose|j: int|
                    0 <= j < ps@.len() && ps@[j].0 == t && forall|k: int| 0 <= k < j ==> ps@[k].0 != t;
                assert(0 <= i < ps@.len() && ps@[i as int].0 == t && forall|k: int|
                    0 <= k < i ==> ps@[k].0 != t);
                if j < i {
                    assert(ps@[j].0 != t);
                } else if i < j {
                    assert(ps@[i as int].0 != t);
                }
            }
            return Some(ps[i].1);
        }
        i = i + 1;
    }
    None
}

fn relink_vec(ls: &Vec<StatDeriveLink>, ps: &Vec<(u128, u128)>) -> (r: Vec<StatDeriveLink>)
    ensures
        r@ == relink_links(ls@, ps@),
{
    let mut out: Vec<StatDeriveLink> = Vec::new();
    let mut i: usize = 0;
    while i < ls.len()
        invariant
            0 <= i <= ls@.len(),
            out@ =~= relink_links(ls@.take(i as int), ps@),
        decreases ls@.len() - i,
    {
        let t = ls[i].get_pointer();
        let p = ls[i].get_index();
        let l = match find_pair(ps, t) {
            Some(id) => StatDeriveLink::Valid { link: id, index: p },
            None => StatDeriveLink::Invalid { link: t, index: p },
        };
        out.push(l);
        i = i + 1;
    }
    proof {
        assert(ls@.take(ls@.len() as int) =~= ls@);
    }
    out
}

impl StatBlockField {
    /// Binds every link of a stat or derive to the derive of `ps` that its identity names,
    /// and unbinds the links whose derive is not there.
    pub fn relink(&mut self, ps: &Vec<(u128, u128)>)
        ensures
            final(self)@ == relink_field(old(self)@, ps@),
    {
        proof {
            reveal_field_variants(*self);
            assert forall|s: StatSource| #[trigger]
                field_model(StatBlockField::Stat(s)) == FieldModel::Stat(s@) by {
                reveal_field_variants(StatBlockField::Stat(s));
            }
            assert forall|d: StatDerive| #[trigger]
                field_model(StatBlockField::Derive(d)) == FieldModel::Derive(d@) by {
                reveal_field_variants(StatBlockField::Derive(d));
            }
        }
        match self {
            StatBlockField::Stat(s) => {
                s.derives = relink_vec(&s.derives, ps);
            },
            StatBlockField::Derive(d) => {
                d.core.source.derives = relink_vec(&d.core.source.derives, ps);
            },
            _ => {},
        }
    }
}

impl StatBlock {
    /// Loads a flat list (see `to_flat`) back into a block: its fields in the order of the
    /// list, each at its path with the tables created as needed; every link is bound to the
    /// derive of the list that its identity names. The list holds no tables.
    pub fn from_flat(entries: Vec<(String, u128, StatBlockField)>) -> (r: StatBlock)
        requires
            forall|i: int| 0 <= i < entries@.len() ==> !(#[trigger] entries@[i].2@ is Table),
        ensures
            r@ == from_flat_model(flat_model(entries@)),
    {
        let ghost s = flat_model(entries@);
        let ps = collect_derive_pairs(&entries);
        let mut result = StatBlock::new();
        let mut i: usize = 0;
        while i < entries.len()
            invariant
                0 <= i <= entries@.len(),
                s == flat_model(entries@),
                ps@ == derive_pairs(s),
                forall|i: int| 0 <= i < entries@.len() ==> !(#[trigger] entries@[i].2@ is Table),
                result@ == load_fields(Seq::empty(), s.take(i as int), ps@),
            decreases entries@.len() - i,
        {
            proof {
                assert(s.take(i + 1).drop_last() =~= s.take(i as int));
                assert(s.take(i + 1).last() == s[i as int]);
            }
            let mut field = entries[i].2.copy_leaf();
            field.relink(&ps);
            proof {
                lemma_force_never_fails(result@, entries@[i as int].0@);
                let f = entries@[i as int].2@;
                assert(relink_field(unbound(f), ps@) =~~= relink_field(f, ps@)) by {
                    match f {
                        FieldModel::Stat(x) => {
                            assert(relink_links(unbind_links(x.derives), ps@) =~= relink_links(x.derives, ps@));
                        },
                        FieldModel::Derive(x) => {
                            assert(relink_links(unbind_links(x.source.derives), ps@) =~= relink_links(x.source.derives, ps@));
                        },
                        _ => {},
                    }
                }
            }
            result.set_field(&entries[i].0, field, true);
            i = i + 1;
        }
        proof {
            assert(s.take(entries@.len() as int) =~= s);
        }
        result
    }
}

} // verus!

verus! {

pub proof fn lemma_flat_fields_no_tables(m: Seq<(Seq<char>, FieldModel)>, root: Seq<char>)
    ensures
        forall|i: int|
            0 <= i < flat_fields(m, root).len() ==> !(#[trigger] flat_fields(m, root)[i].2 is Table),
    decreases m,
{
    if m.len() > 0 {
        lemma_flat_fields_no_tables(m.drop_last(), root);
        lemma_entry_fields_no_tables(m.last(), root);
        let a = flat_fields(m.drop_last(), root);
        let b = entry_fields(m.last(), root);
        assert forall|i: int| 0 <= i < flat_fields(m, root).len() implies !(#[trigger] flat_fields(
            m,
            root,
        )[i].2 is Table) by {
            if i < a.len() {
                assert(flat_fields(m, root)[i] == a[i]);
            } else {
                assert(flat_fields(m, root)[i] == b[i - a.len()]);
            }
        }
    }
}

pub proof fn lemma_entry_fields_no_tables(e: (Seq<char>, FieldModel), root: Seq<char>)
    ensures
        forall|i: int|
            0 <= i < entry_fields(e, root).len() ==> !(#[trigger] entry_fields(e, root)[i].2 is Table),
    decreases e,
{
    match e.1 {
        FieldModel::Table(t) => {
            lemma_flat_fields_no_tables(t, join_path(root, e.0));
        },
        _ => {},
    }
}

/// The length of a flat list does not depend on the path it is formed under.
pub proof fn lemma_flat_len_any_root(m: Seq<(Seq<char>, FieldModel)>, r1: Seq<char>, r2: Seq<char>)
    ensures
        flat_fields(m, r1).len() == flat_fields(m, r2).len(),
    decreases m,
{
    if m.len() > 0 {
        lemma_flat_len_any_root(m.drop_last(), r1, r2);
        lemma_entry_len_any_root(m.last(), r1, r2);
    }
}

pub proof fn lemma_entry_len_any_root(e: (Seq<char>, FieldModel), r1: Seq<char>, r2: Seq<char>)
    ensures
        entry_fields(e, r1).len() == entry_fields(e, r2).len(),
    decreases e,
{
    match e.1 {
        FieldModel::Table(t) => {
            lemma_flat_len_any_root(t, join_path(r1, e.0), join_path(r2, e.0));
        },
        _ => {},
    }
}

/// The flat list of the first entries is no longer than that of all of them.
pub proof fn lemma_flat_prefix_len(m: Seq<(Seq<char>, FieldModel)>, i: int, r: Seq<char>)
    requires
        0 <= i <= m.len(),
    ensures
        flat_fields(m.take(i), r).len() <= flat_fields(m, r).len(),
    decreases m.len(),
{
    if i < m.len() {
        assert(m.drop_last().take(i) =~= m.take(i));
        lemma_flat_prefix_len(m.drop_last(), i, r);
    } else {
        assert(m.take(i) =~= m);
    }
}

impl StatBlock {
    /// How many stats, derives and constants the block holds at every depth: the length of
    /// its flat list (see `to_flat`).
    pub fn flattened_size(&self) -> (r: usize)
        requires
            flat_fields(self@, Seq::empty()).len() <= usize::MAX,
        ensures
            r == flat_fields(self@, Seq::empty()).len(),
        decreases self,
    {
        proof {
            lemma_entries_model(self.map@);
            assert(self@.take(0) =~= Seq::<(Seq<char>, FieldModel)>::empty());
        }
        let mut result: usize = 0;
        let mut i: usize = 0;
        while i < self.map.len()
            invariant
                0 <= i <= self.map@.len(),
                self@.len() == self.map@.len(),
                forall|j: int| 0 <= j < self.map@.len() ==> #[trigger] self@[j] == (self.map@[j].0@, field_model(self.map@[j].1)),
                flat_fields(self@, Seq::empty()).len() <= usize::MAX,
                result == flat_fields(self@.take(i as int), Seq::empty()).len(),
            decreases self.map@.len() - i,
        {
            let ghost m = self@;
            proof {
                assert(decreases_to!(*self => self.map));
                assert(decreases_to!(self.map => self.map[i as int]));
                assert(decreases_to!(self.map[i as int] => self.map[i as int].1));
                reveal_field_variants(self.map@[i as int].1);
                assert(m.take(i + 1).drop_last() =~= m.take(i as int));
                assert(m.take(i + 1).last() == m[i as int]);
                assert(flat_fields(m.take(i + 1), Seq::empty()) == flat_fields(m.take(i as int), Seq::empty())
                    + entry_fields(m[i as int], Seq::empty()));
                lemma_flat_prefix_len(m, i + 1, Seq::empty());
                lemma_entry_len_any_root(m[i as int], Seq::empty(), Seq::empty());
            }
            let n: usize = match &self.map[i].1 {
                StatBlockField::Table(t) => {
                    proof {
                        assert(decreases_to!(self.map[i as int].1 => t));
                        lemma_flat_len_any_root(t@, join_path(Seq::empty(), m[i as int].0), Seq::empty());
                    }
                    t.flattened_size()
                },
                _ => 1,
            };
            result = result + n;
            i = i + 1;
        }
        proof {
            assert(self@.take(self.map@.len() as int) =~= self@);
        }
        result
    }
}

impl Clone for StatBlock {
    /// A copy of the block, made as storing and loading it back would (see `to_flat` and
    /// `from_flat`): its links are bound to the copies of their derives.
    fn clone(&self) -> (r: Self)
        ensures
            r@ == from_flat_model(flat_fields(self@, Seq::empty())),
    {
        let flat = self.to_flat();
        proof {
            lemma_flat_fields_no_tables(self@, Seq::empty());
            assert forall|i: int| 0 <= i < flat@.len() implies !(#[trigger] flat@[i].2@ is Table) by {
                assert(flat_model(flat@).len() == flat@.len());
                assert(flat_model(flat@)[i] == (flat@[i].0@, flat@[i].1, flat@[i].2@));
                assert(!(flat_fields(self@, Seq::empty())[i].2 is Table));
            }
        }
        StatBlock::from_flat(flat)
    }
}

impl Clone for StatBlockField {
    /// A copy of the field: a table is copied as a block is, the rest as `copy_leaf` does.
    fn clone(&self) -> (r: Self)
        ensures
            !(self@ is Table) ==> r@ == unbound(self@),
            self@ is Table ==> r@ == FieldModel::Table(
                from_flat_model(flat_fields(self@->Table_0, Seq::empty())),
            ),
    {
        proof {
            reveal_field_variants(*self);
        }
        match self {
            StatBlockField::Table(t) => {
                let r = StatBlockField::Table(t.clone());
                proof {
                    reveal_field_variants(r);
                }
                r
            },
            _ => self.copy_leaf(),
        }
    }
}

} // verus!

verus! {

//==============================================================================================
//        Finding derives by identity
//==============================================================================================

/// Where the first derive with identity `id` stands among the entries of `m` from `i` on,
/// as the positions to follow down through tables.
pub open spec fn derive_loc_from(m: Seq<(Seq<char>, FieldModel)>, id: u128, i: int) -> Option<Seq<int>>
    decreases m, m.len() - i,
{
    if 0 <= i < m.len() {
        match entry_loc(m[i].1, id) {
            Some(p) => Some(seq![i] + p),
            None => derive_loc_from(m, id, i + 1),
        }
    } else {
        None
    }
}

pub open spec fn entry_loc(f: FieldModel, id: u128) -> Option<Seq<int>>
    decreases f, 0int,
{
    match f {
        FieldModel::Derive(d) => if d.id == id {
            Some(Seq::empty())
        } else {
            None
        },
        FieldModel::Table(t) => derive_loc_from(t, id, 0),
        _ => None,
    }
}

/// Where the first derive with identity `id` stands in `m` (searching entries in order and
/// tables as they come).
pub open spec fn derive_loc(m: Seq<(Seq<char>, FieldModel)>, id: u128) -> Option<Seq<int>> {
    derive_loc_from(m, id, 0)
}

/// The field at a location.
pub open spec fn at_loc(m: Seq<(Seq<char>, FieldModel)>, loc: Seq<int>) -> Option<FieldModel>
    decreases loc.len(),
{
    if loc.len() == 0 || !(0 <= loc[0] < m.len()) {
        None
    } else if loc.len() == 1 {
        Some(m[loc[0]].1)
    } else {
        match m[loc[0]].1 {
            FieldModel::Table(t) => at_loc(t, loc.drop_first()),
            _ => None,
        }
    }
}

/// `m` with the field at a location replaced by `f`.
pub open spec fn update_loc(m: Seq<(Seq<char>, FieldModel)>, loc: Seq<int>, f: FieldModel) -> Seq<
    (Seq<char>, FieldModel),
>
    decreases loc.len(),
{
    if loc.len() == 0 || !(0 <= loc[0] < m.len()) {
        m
    } else if loc.len() == 1 {
        m.update(loc[0], (m[loc[0]].0, f))
    } else {
        match m[loc[0]].1 {
            FieldModel::Table(t) => m.update(
                loc[0],
                (m[loc[0]].0, FieldModel::Table(update_loc(t, loc.drop_first(), f))),
            ),
            _ => m,
        }
    }
}

/// The derive with identity `id`, if the block holds one.
pub open spec fn find_derive(m: Seq<(Seq<char>, FieldModel)>, id: u128) -> Option<DeriveModel> {
    match derive_loc(m, id) {
        Some(loc) => match at_loc(m, loc) {
            Some(FieldModel::Derive(d)) => Some(d),
            _ => None,
        },
        None => None,
    }
}

/// `m` with the derive `id` replaced by `d`.
pub open spec fn replace_derive(m: Seq<(Seq<char>, FieldModel)>, id: u128, d: DeriveModel) -> Seq<
    (Seq<char>, FieldModel),
> {
    match derive_loc(m, id) {
        Some(loc) => update_loc(m, loc, FieldModel::Derive(d)),
        None => m,
    }
}

pub proof fn lemma_entry_loc_found(f: FieldModel, id: u128)
    ensures
        entry_loc(f, id) matches Some(p) ==> at_loc(seq![(Seq::<char>::empty(), f)], seq![0int] + p)
            matches Some(FieldModel::Derive(d)) && d.id == id,
    decreases f, 0int,
{
    match f {
        FieldModel::Table(t) => {
            lemma_loc_from_found(t, id, 0);
            if let Some(p) = entry_loc(f, id) {
                assert((seq![0int] + p).drop_first() =~= p);
            }
        },
        FieldModel::Derive(d) => {},
        _ => {},
    }
}

pub proof fn lemma_loc_from_found(m: Seq<(Seq<char>, FieldModel)>, id: u128, i: int)
    ensures
        derive_loc_from(m, id, i) matches Some(loc) ==> at_loc(m, loc) matches Some(
            FieldModel::Derive(d),
        ) && d.id == id,
    decreases m, m.len() - i,
{
    if 0 <= i < m.len() {
        lemma_entry_loc_found(m[i].1, id);
        match entry_loc(m[i].1, id) {
            Some(p) => {
                let loc = seq![i] + p;
                let one = seq![(Seq::<char>::empty(), m[i].1)];
                assert(loc.drop_first() =~= p);
                assert((seq![0int] + p).drop_first() =~= p);
                assert(at_loc(m, loc) == at_loc(one, seq![0int] + p));
            },
            None => {
                lemma_loc_from_found(m, id, i + 1);
            },
        }
    }
}

} // verus!

verus! {

pub open spec fn loc_model(v: Seq<usize>) -> Seq<int> {
    v.map_values(|x: usize| x as int)
}

fn prepend_index(i: usize, rest: Vec<usize>) -> (r: Vec<usize>)
    ensures
        loc_model(r@) == seq![i as int] + loc_model(rest@),
{
    let mut r: Vec<usize> = Vec::new();
    r.push(i);
    let mut k: usize = 0;
    while k < rest.len()
        invariant
            0 <= k <= rest@.len(),
            r@ =~= seq![i] + rest@.take(k as int),
        decreases rest@.len() - k,
    {
        r.push(rest[k]);
        k = k + 1;
    }
    proof {
        assert(rest@.take(rest@.len() as int) =~= rest@);
        assert(loc_model(r@) =~= seq![i as int] + loc_model(rest@));
    }
    r
}

impl StatBlockField {
    fn locate_derive(&self, id: u128) -> (r: Option<Vec<usize>>)
        ensures
            match r {
                Some(v) => entry_loc(self@, id) == Some(loc_model(v@)),
                None => entry_loc(self@, id) is None,
            },
        decreases self, 0int,
    {
        proof {
            reveal_field_variants(*self);
        }
        match self {
            StatBlockField::Derive(d) => {
                if d.id == id {
                    let v = Vec::new();
                    proof {
                        assert(loc_model(v@) =~= Seq::empty());
                    }
                    Some(v)
                } else {
                    None
                }
            },
            StatBlockField::Table(t) => {
                proof {
                    assert(decreases_to!(*self => self->Table_0));
                }
                t.locate_derive_from(id)
            },
            _ => None,
        }
    }
}

impl StatBlock {
    fn locate_derive_from(&self, id: u128) -> (r: Option<Vec<usize>>)
        ensures
            match r {
                Some(v) => derive_loc_from(self@, id, 0) == Some(loc_model(v@)),
                None => derive_loc_from(self@, id, 0) is None,
            },
        decreases self, 1int,
    {
        proof {
            lemma_entries_model(self.map@);
        }
        let mut i: usize = 0;
        while i < self.map.len()
            invariant
                0 <= i <= self.map@.len(),
                self@.len() == self.map@.len(),
                derive_loc_from(self@, id, 0) == derive_loc_from(self@, id, i as int),
                forall|j: int| 0 <= j < self.map@.len() ==> #[trigger] self@[j] == (self.map@[j].0@, field_model(self.map@[j].1)),
            decreases self.map@.len() - i,
        {
            proof {
                assert(decreases_to!(*self => self.map));
                assert(decreases_to!(self.map => self.map[i as int]));
                assert(decreases_to!(self.map[i as int] => self.map[i as int].1));
                assert(self@[i as int] == (self.map@[i as int].0@, field_model(self.map@[i as int].1)));
            }
            match self.map[i].1.locate_derive(id) {
                Some(p) => {
                    let r = prepend_index(i, p);
                    return Some(r);
                },
                None => {},
            }
            i = i + 1;
        }
        None
    }

    /// Where the first derive with identity `id` stands (see `derive_loc`).
    pub fn locate_derive(&self, id: u128) -> (r: Option<Vec<usize>>)
        ensures
            match r {
                Some(v) => derive_loc(self@, id) == Some(loc_model(v@)),
                None => derive_loc(self@, id) is None,
            },
    {
        self.locate_derive_from(id)
    }

    /// The field at a location, from position `k` of `loc` on, for changing it in place.
    fn field_at_loc_mut(&mut self, loc: &Vec<usize>, k: usize) -> (r: Option<&mut StatBlockField>)
        requires
            k < loc@.len(),
        ensures
            r is Some <==> at_loc(old(self)@, loc_model(loc@).skip(k as int)) is Some,
            match r {
                Some(f) => {
                    &&& Some((*f)@) == at_loc(old(self)@, loc_model(loc@).skip(k as int))
                    &&& final(self)@ == update_loc(old(self)@, loc_model(loc@).skip(k as int), (*final(f))@)
                },
                None => final(self)@ == old(self)@,
            },
        decreases loc@.len() - k,
    {
        proof {
            lemma_entries_model(self.map@);
        }
        let ghost lm = loc_model(loc@).skip(k as int);
        assert(lm.len() >= 1);
        assert(lm[0] == loc@[k as int] as int);
        let i = loc[k];
        if i >= self.map.len() {
            return None;
        }
        let ghost orig = self.map@;
        proof {
            assert forall|e: (String, StatBlockField)| #[trigger]
                entries_model(orig.update(i as int, e)) == entries_model(orig).update(
                    i as int,
                    (e.0@, field_model(e.1)),
                ) by {
                lemma_entries_update(orig, i as int, e);
            }
            assert(entries_model(orig)[i as int] == (orig[i as int].0@, field_model(orig[i as int].1)));
            reveal_field_variants(orig[i as int].1);
            assert forall|t: StatBlock| #[trigger]
                field_model(StatBlockField::Table(t)) == FieldModel::Table(t@) by {
                reveal_field_variants(StatBlockField::Table(t));
            }
        }
        if k == loc.len() - 1 {
            let entry = &mut self.map[i];
            return Some(&mut entry.1);
        }
        proof {
            assert(lm.drop_first() =~= loc_model(loc@).skip(k + 1));
        }
        let entry = &mut self.map[i];
        match &mut entry.1 {
            StatBlockField::Table(table) => table.field_at_loc_mut(loc, k + 1),
            _ => None,
        }
    }
}

} // verus!

verus! {

//==============================================================================================
//        Propagating a change to the derives that read it
//==============================================================================================

/// A derive whose parameters changed: its callback has to be run on `params` and the result
/// handed to `StatBlock::resolve`.
pub struct PendingDerive {
    pub id: u128,
    pub callback: Vec<u8>,
    pub params: Vec<StatValue>,
}

/// The content of a `PendingDerive`: (derive, callback, parameters).
pub open spec fn pending_model(p: PendingDerive) -> (u128, Seq<u8>, Seq<ValueModel>) {
    (p.id, p.callback@, values_model(p.params@))
}

pub open spec fn pendings_model(s: Seq<PendingDerive>) -> Seq<(u128, Seq<u8>, Seq<ValueModel>)> {
    s.map_values(|p: PendingDerive| pending_model(p))
}

/// The block after `v` reaches parameter `index` of derive `id` (unchanged if there is no
/// such derive).
pub open spec fn send_model(m: Seq<(Seq<char>, FieldModel)>, id: u128, index: usize, v: ValueModel) -> Seq<
    (Seq<char>, FieldModel),
> {
    match find_derive(m, id) {
        Some(d) => replace_derive(
            m,
            id,
            DeriveModel { params: d.params.update(index as int, v), ..d },
        ),
        None => m,
    }
}

/// The derive to run again after `v` reaches parameter `index` of derive `id`.
pub open spec fn send_pending(m: Seq<(Seq<char>, FieldModel)>, id: u128, index: usize, v: ValueModel) -> Option<
    (u128, Seq<u8>, Seq<ValueModel>),
> {
    match find_derive(m, id) {
        Some(d) => Some((id, d.callback, d.params.update(index as int, v))),
        None => None,
    }
}

/// Sending to derive `id` finds its parameter `index` in range.
pub open spec fn send_ok(m: Seq<(Seq<char>, FieldModel)>, id: u128, index: usize) -> bool {
    find_derive(m, id) matches Some(d) ==> index < d.params.len()
}

/// The block after `v` is sent along each link of `links`, in order.
pub open spec fn send_all(m: Seq<(Seq<char>, FieldModel)>, links: Seq<(u128, usize)>, v: ValueModel) -> Seq<
    (Seq<char>, FieldModel),
>
    decreases links.len(),
{
    if links.len() == 0 {
        m
    } else {
        send_all(send_model(m, links[0].0, links[0].1, v), links.drop_first(), v)
    }
}

/// Every send along `links`, in order, finds its parameter in range.
pub open spec fn sends_ok(m: Seq<(Seq<char>, FieldModel)>, links: Seq<(u128, usize)>, v: ValueModel) -> bool
    decreases links.len(),
{
    links.len() == 0 || (send_ok(m, links[0].0, links[0].1) && sends_ok(
        send_model(m, links[0].0, links[0].1, v),
        links.drop_first(),
        v,
    ))
}

/// The derives to run again after `v` is sent along each link of `links`, in order.
pub open spec fn send_all_pending(
    m: Seq<(Seq<char>, FieldModel)>,
    links: Seq<(u128, usize)>,
    v: ValueModel,
) -> Seq<(u128, Seq<u8>, Seq<ValueModel>)>
    decreases links.len(),
{
    if links.len() == 0 {
        Seq::empty()
    } else {
        let rest = send_all_pending(
            send_model(m, links[0].0, links[0].1, v),
            links.drop_first(),
            v,
        );
        match send_pending(m, links[0].0, links[0].1, v) {
            Some(p) => seq![p] + rest,
            None => rest,
        }
    }
}

impl StatBlock {
    /// Sends `value` to parameter `index` of derive `id`; returns that derive, to be run again,
    /// or `None` when the block holds no such derive.
    pub fn send(&mut self, id: u128, index: usize, value: StatValue) -> (r: Option<PendingDerive>)
        requires
            send_ok(old(self)@, id, index),
        ensures
            final(self)@ == send_model(old(self)@, id, index, value@),
            match r {
                Some(p) => send_pending(old(self)@, id, index, value@) == Some(pending_model(p)),
                None => send_pending(old(self)@, id, index, value@) is None,
            },
    {
        let loc = match self.locate_derive(id) {
            Some(loc) => loc,
            None => {
                return None;
            },
        };
        proof {
            lemma_loc_from_found(self@, id, 0);
            assert(loc_model(loc@).len() == loc@.len());
            assert(loc@.len() >= 1) by {
                if loc@.len() == 0 {
                    assert(at_loc(self@, loc_model(loc@)) is None);
                }
            }
            assert(loc_model(loc@).skip(0) =~= loc_model(loc@));
        }
        match self.field_at_loc_mut(&loc, 0) {
            Some(field) => match field.as_derive_mut() {
                Some(d) => {
                    d.send(index, value);
                    let callback = copy_bytes(d.callback());
                    let params = copy_values(d.params());
                    Some(PendingDerive { id, callback, params })
                },
                None => None,
            },
            None => None,
        }
    }

    /// Sends `value` along each link of `links`, in order; returns the derives to run again.
    fn send_along(&mut self, links: &Vec<(u128, usize)>, value: &StatValue) -> (r: Vec<PendingDerive>)
        requires
            sends_ok(old(self)@, links@, value@),
        ensures
            final(self)@ == send_all(old(self)@, links@, value@),
            pendings_model(r@) == send_all_pending(old(self)@, links@, value@),
    {
        let mut out: Vec<PendingDerive> = Vec::new();
        let mut i: usize = 0;
        proof {
            assert(links@.skip(0) =~= links@);
            assert(pendings_model(out@) =~= Seq::empty());
        }
        while i < links.len()
            invariant
                0 <= i <= links@.len(),
                send_all(self@, links@.skip(i as int), value@) == send_all(old(self)@, links@, value@),
                sends_ok(self@, links@.skip(i as int), value@),
                pendings_model(out@) + send_all_pending(self@, links@.skip(i as int), value@)
                    == send_all_pending(old(self)@, links@, value@),
            decreases links@.len() - i,
        {
            let ghost rest = links@.skip(i as int);
            proof {
                assert(rest[0] == links@[i as int]);
                assert(rest.drop_first() =~= links@.skip(i + 1));
            }
            let ghost before = out@;
            let ghost prev = self@;
            let (id, index) = links[i];
            match self.send(id, index, value.clone()) {
                Some(p) => {
                    out.push(p);
                    proof {
                        assert(pendings_model(out@) =~= pendings_model(before) + seq![pending_model(p)]);
                    }
                },
                None => {},
            }
            proof {
                assert(send_all_pending(prev, rest, value@) == match send_pending(prev, id, index, value@) {
                    Some(q) => seq![q] + send_all_pending(self@, links@.skip(i + 1), value@),
                    None => send_all_pending(self@, links@.skip(i + 1), value@),
                });
                assert(pendings_model(out@) + send_all_pending(self@, links@.skip(i + 1), value@)
                    =~= pendings_model(before) + send_all_pending(prev, rest, value@));
            }
            i = i + 1;
        }
        proof {
            assert(links@.skip(links@.len() as int) =~= Seq::empty());
            assert(pendings_model(out@) + Seq::empty() =~= pendings_model(out@));
        }
        out
    }
}

} // verus!

verus! {

/// Storing back the field that is already at a path leaves the block as it is.
pub proof fn lemma_set_same(m: Seq<(Seq<char>, FieldModel)>, p: Seq<char>)
    requires
        field_at(m, p) is Some,
    ensures
        set_at(m, p, field_at(m, p)->0, false) == m,
    decreases p.len(),
{
    lemma_tail_shorter(p);
    let k = path_head(p);
    assert(has_key(m, k));
    let i = key_index(m, k);
    assert(is_first_key(m, k, i));
    match path_tail(p) {
        None => {
            assert(m.update(i, (k, m[i].1)) =~= m);
        },
        Some(t) => {
            match lookup(m, k) {
                Some(FieldModel::Table(sub)) => {
                    lemma_set_same(sub, t);
                    assert(m.update(i, (k, FieldModel::Table(sub))) =~= m);
                },
                _ => {},
            }
        },
    }
}

/// The block after setting the stat at `p` to `v`, and the links along which `v` then
/// travels; anything else at `p` (or nothing) leaves the block as it is.
pub open spec fn stat_set(m: Seq<(Seq<char>, FieldModel)>, p: Seq<char>, v: ValueModel) -> (
    Seq<(Seq<char>, FieldModel)>,
    Seq<(u128, usize)>,
) {
    match field_at(m, p) {
        Some(FieldModel::Stat(s)) => (
            set_at(m, p, FieldModel::Stat(SourceModel { value: v, derives: s.derives }), false),
            valid_links(s.derives),
        ),
        _ => (m, Seq::empty()),
    }
}

/// The block after the derive `id` takes the value `v` its callback computed, and the links
/// along which `v` then travels; without such a derive the block stays as it is.
pub open spec fn derive_set(m: Seq<(Seq<char>, FieldModel)>, id: u128, v: ValueModel) -> (
    Seq<(Seq<char>, FieldModel)>,
    Seq<(u128, usize)>,
) {
    match find_derive(m, id) {
        Some(d) => (
            replace_derive(
                m,
                id,
                DeriveModel { source: SourceModel { value: v, derives: d.source.derives }, ..d },
            ),
            valid_links(d.source.derives),
        ),
        None => (m, Seq::empty()),
    }
}

impl StatBlock {
    /// Gives the stat at `path` a new value and sends it to the derives that read it. Returns
    /// the derives whose parameters changed: each has to be run again and its result handed
    /// to `resolve`. A path that holds no stat leaves the block as it is.
    pub fn set_stat<P: StatBlockPath>(&mut self, path: P, value: StatValue) -> (r: Vec<PendingDerive>)
        requires
            sends_ok(
                stat_set(old(self)@, path.path_view(), value@).0,
                stat_set(old(self)@, path.path_view(), value@).1,
                value@,
            ),
        ensures
            final(self)@ == send_all(
                stat_set(old(self)@, path.path_view(), value@).0,
                stat_set(old(self)@, path.path_view(), value@).1,
                value@,
            ),
            pendings_model(r@) == send_all_pending(
                stat_set(old(self)@, path.path_view(), value@).0,
                stat_set(old(self)@, path.path_view(), value@).1,
                value@,
            ),
    {
        let ghost m = self@;
        let ghost p = path.path_view();
        let links = match self.get_field_mut(path) {
            Some(f) => {
                let links = f.set(value.clone());
                proof {
                    if !(field_at(m, p)->0 is Stat) {
                        lemma_set_same(m, p);
                    }
                }
                links
            },
            None => Vec::new(),
        };
        proof {
            if !(field_at(m, p) matches Some(FieldModel::Stat(_))) {
                assert(links@ =~= Seq::<(u128, usize)>::empty());
            }
        }
        self.send_along(&links, &value)
    }

    /// Stores the value `value` that the callback of derive `id` computed and sends it to the
    /// derives that read it. Returns the derives whose parameters changed, as `set_stat` does.
    pub fn resolve(&mut self, id: u128, value: StatValue) -> (r: Vec<PendingDerive>)
        requires
            sends_ok(derive_set(old(self)@, id, value@).0, derive_set(old(self)@, id, value@).1, value@),
        ensures
            final(self)@ == send_all(
                derive_set(old(self)@, id, value@).0,
                derive_set(old(self)@, id, value@).1,
                value@,
            ),
            pendings_model(r@) == send_all_pending(
                derive_set(old(self)@, id, value@).0,
                derive_set(old(self)@, id, value@).1,
                value@,
            ),
    {
        let ghost m = self@;
        let empty: Vec<(u128, usize)> = Vec::new();
        let links = match self.locate_derive(id) {
            Some(loc) => {
                proof {
                    lemma_loc_from_found(self@, id, 0);
                    assert(loc_model(loc@).len() == loc@.len());
                    assert(loc@.len() >= 1) by {
                        if loc@.len() == 0 {
                            assert(at_loc(self@, loc_model(loc@)) is None);
                        }
                    }
                    assert(loc_model(loc@).skip(0) =~= loc_model(loc@));
                }
                match self.field_at_loc_mut(&loc, 0) {
                    Some(field) => match field.as_derive_mut() {
                        Some(d) => d.resolve(value.clone()),
                        None => empty,
                    },
                    None => empty,
                }
            },
            None => empty,
        };
        proof {
            if find_derive(m, id) is None {
                assert(links@ =~= Seq::<(u128, usize)>::empty());
            }
        }
        self.send_along(&links, &value)
    }

    /// The field at a location, from position `k` of `loc` on.
    fn field_at_loc(&self, loc: &Vec<usize>, k: usize) -> (r: Option<&StatBlockField>)
        requires
            k < loc@.len(),
        ensures
            match r {
                Some(f) => Some(f@) == at_loc(self@, loc_model(loc@).skip(k as int)),
                None => at_loc(self@, loc_model(loc@).skip(k as int)) is None,
            },
        decreases loc@.len() - k,
    {
        proof {
            lemma_entries_model(self.map@);
        }
        let ghost lm = loc_model(loc@).skip(k as int);
        assert(lm.len() >= 1);
        assert(lm[0] == loc@[k as int] as int);
        let i = loc[k];
        if i >= self.map.len() {
            return None;
        }
        proof {
            assert(self@[i as int] == (self.map@[i as int].0@, field_model(self.map@[i as int].1)));
            reveal_field_variants(self.map@[i as int].1);
        }
        if k == loc.len() - 1 {
            return Some(&self.map[i].1);
        }
        proof {
            assert(lm.drop_first() =~= loc_model(loc@).skip(k + 1));
        }
        match &self.map[i].1 {
            StatBlockField::Table(table) => table.field_at_loc(loc, k + 1),
            _ => None,
        }
    }

    /// The derive with identity `id`, if the block holds one.
    fn derive_by_id(&self, id: u128) -> (r: Option<&StatDerive>)
        ensures
            match find_derive(self@, id) {
                Some(d) => r is Some && r->0@ == d,
                None => r is None,
            },
    {
        let loc = match self.locate_derive(id) {
            Some(loc) => loc,
            None => {
                return None;
            },
        };
        proof {
            lemma_loc_from_found(self@, id, 0);
            assert(loc_model(loc@).len() == loc@.len());
            assert(loc@.len() >= 1) by {
                if loc@.len() == 0 {
                    assert(at_loc(self@, loc_model(loc@)) is None);
                }
            }
            assert(loc_model(loc@).skip(0) =~= loc_model(loc@));
        }
        match self.field_at_loc(&loc, 0) {
            Some(field) => field.as_derive(),
            None => None,
        }
    }

    /// Whether each link of `links`, as (derive, parameter), names a parameter its derive has,
    /// or a derive the block does not hold.
    fn links_in_range(&self, links: &Vec<(u128, usize)>) -> (r: bool)
        ensures
            r == (forall|i: int| 0 <= i < links@.len() ==> #[trigger] send_ok(self@, links@[i].0, links@[i].1)),
    {
        let mut ok = true;
        let mut i: usize = 0;
        while i < links.len()
            invariant
                0 <= i <= links@.len(),
                ok == (forall|j: int| 0 <= j < i ==> #[trigger] send_ok(self@, links@[j].0, links@[j].1)),
            decreases links@.len() - i,
        {
            let (id, index) = links[i];
            let fits = match self.derive_by_id(id) {
                Some(d) => {
                    proof {
                        crate::stat::value::lemma_values_model(d.core.params@);
                    }
                    index < d.core.params.len()
                },
                None => true,
            };
            proof {
                assert(fits == send_ok(self@, id, index));
                if !fits {
                    assert(!send_ok(self@, links@[i as int].0, links@[i as int].1));
                }
            }
            ok = ok && fits;
            i = i + 1;
        }
        ok
    }

    /// Whether giving the stat at `path` the value `value` sends it only to parameters that
    /// exist, as `set_stat` requires.
    pub fn can_set_stat<P: StatBlockPath>(&self, path: P, value: &StatValue) -> (r: bool)
        ensures
            r == sends_ok(
                stat_set(self@, path.path_view(), value@).0,
                stat_set(self@, path.path_view(), value@).1,
                value@,
            ),
    {
        let ghost m = self@;
        let ghost p = path.path_view();
        match self.get_field(path) {
            Some(field) => {
                proof {
                    reveal_field_variants(*field);
                }
                match field {
                    StatBlockField::Stat(s) => {
                        let links = collect_valid_links(&s.derives);
                        let r = self.links_in_range(&links);
                        proof {
                            let f = FieldModel::Stat(SourceModel { value: value@, derives: s@.derives });
                            let u = set_at(m, p, f, false);
                            assert(stat_set(m, p, value@) == (u, links@));
                            crate::stat::laws::lemma_sends_ok_iff(u, links@, value@);
                            assert forall|i: int| 0 <= i < links@.len() implies #[trigger] send_ok(
                                u,
                                links@[i].0,
                                links@[i].1,
                            ) == send_ok(m, links@[i].0, links@[i].1) by {
                                crate::stat::laws::lemma_stat_set_keeps_derive(m, p, f, links@[i].0);
                            }
                            if r {
                                assert forall|i: int| 0 <= i < links@.len() implies #[trigger] send_ok(
                                    u,
                                    links@[i].0,
                                    links@[i].1,
                                ) by {
                                    assert(send_ok(m, links@[i].0, links@[i].1));
                                }
                            } else {
                                let i = choose|i: int| 0 <= i < links@.len() && !#[trigger] send_ok(m, links@[i].0, links@[i].1);
                                assert(!send_ok(u, links@[i].0, links@[i].1));
                            }
                        }
                        r
                    },
                    _ => true,
                }
            },
            None => true,
        }
    }

    /// Whether the value `value` that derive `id` computed goes only to parameters that
    /// exist, as `resolve` requires.
    pub fn can_resolve(&self, id: u128, value: &StatValue) -> (r: bool)
        ensures
            r == sends_ok(derive_set(self@, id, value@).0, derive_set(self@, id, value@).1, value@),
    {
        let ghost m = self@;
        match self.derive_by_id(id) {
            Some(d) => {
                let links = collect_valid_links(&d.core.source.derives);
                let r = self.links_in_range(&links);
                proof {
                    let d0 = find_derive(m, id)->0;
                    lemma_loc_from_found(m, id, 0);
                    let nd = DeriveModel { source: SourceModel { value: value@, derives: d0.source.derives }, ..d0 };
                    let u = replace_derive(m, id, nd);
                    assert(derive_set(m, id, value@) == (u, links@));
                    crate::stat::laws::lemma_sends_ok_iff(u, links@, value@);
                    assert forall|i: int| 0 <= i < links@.len() implies #[trigger] send_ok(
                        u,
                        links@[i].0,
                        links@[i].1,
                    ) == send_ok(m, links@[i].0, links@[i].1) by {
                        crate::stat::laws::lemma_replace_keeps_param_counts(m, id, nd, links@[i].0);
                    }
                    if r {
                        assert forall|i: int| 0 <= i < links@.len() implies #[trigger] send_ok(
                            u,
                            links@[i].0,
                            links@[i].1,
                        ) by {
                            assert(send_ok(m, links@[i].0, links@[i].1));
                        }
                    } else {
                        let i = choose|i: int| 0 <= i < links@.len() && !#[trigger] send_ok(m, links@[i].0, links@[i].1);
                        assert(!send_ok(u, links@[i].0, links@[i].1));
                    }
                }
                r
            },
            None => true,
        }
    }
}

} // verus!

verus! {

impl StatDeriveLink {
    /// Sends `value` along the link: a valid link hands it to its parameter of the derive it
    /// leads to in `block` (see `StatBlock::send`), an invalid one goes nowhere.
    pub fn send(&self, block: &mut StatBlock, value: StatValue) -> (r: Option<PendingDerive>)
        requires
            *self is Valid ==> send_ok(old(block)@, self.target(), self.param()),
        ensures
            *self is Valid ==> final(block)@ == send_model(old(block)@, self.target(), self.param(), value@),
            *self is Valid ==> match r {
                Some(p) => send_pending(old(block)@, self.target(), self.param(), value@) == Some(
                    pending_model(p),
                ),
                None => send_pending(old(block)@, self.target(), self.param(), value@) is None,
            },
            *self is Invalid ==> final(block)@ == old(block)@ && r is None,
    {
        match self {
            StatDeriveLink::Valid { link, index } => block.send(*link, *index, value),
            StatDeriveLink::Invalid { .. } => None,
        }
    }
}

} // verus!

verus! {

//==============================================================================================
//        Parts, for storing and loading
//==============================================================================================

impl StatSource {
    /// A stat with value `value` and the links `derives`, as they were stored.
    pub fn from_parts(value: StatValue, derives: Vec<StatDeriveLink>) -> (r: StatSource)
        ensures
            r@ == (SourceModel { value: value@, derives: derives@ }),
    {
        StatSource { value, derives }
    }

    /// The links to the derives that read the stat.
    pub fn derive_links(&self) -> (r: &Vec<StatDeriveLink>)
        ensures
            r@ == self@.derives,
    {
        &self.derives
    }
}

impl StatDerive {
    /// A derive made of the parts it was stored as.
    pub fn from_parts(
        id: u128,
        source: StatSource,
        callback: Vec<u8>,
        params: Vec<StatValue>,
        current_param: usize,
    ) -> (r: StatDerive)
        ensures
            r@ == (DeriveModel {
                id,
                source: source@,
                callback: callback@,
                params: values_model(params@),
                current_param,
            }),
    {
        StatDerive { id, core: StatDeriveCore { source, callback, params, current_param } }
    }

    /// The stat part of the derive: its value and its links.
    pub fn source(&self) -> (r: &StatSource)
        ensures
            r@ == self@.source,
    {
        &self.core.source
    }

    /// How many parameters providers have taken.
    pub fn current_param(&self) -> (r: usize)
        ensures
            r == self@.current_param,
    {
        self.core.current_param
    }
}

} // verus!
