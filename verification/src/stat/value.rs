use vstd::prelude::*;

use crate::stat::query::Query;

verus! {

broadcast use vstd::std_specs::vec::axiom_vec_index_decreases;

/// A value held by a stat. A float is kept as the bit pattern of its `f64`.
#[derive(Debug, PartialEq)]
pub enum StatValue {
    String(String),
    Float(u64),
    Int(i64),
    Bool(bool),
    Record(Vec<(String, StatValue)>),
    Array(Vec<StatValue>),
    LuaFunction(Vec<u8>),
    Query(Query),
    Empty,
}

/// The mathematical content of a `StatValue`.
pub enum ValueModel {
    String(Seq<char>),
    Float(u64),
    Int(i64),
    Bool(bool),
    Record(Seq<(Seq<char>, ValueModel)>),
    Array(Seq<ValueModel>),
    LuaFunction(Seq<u8>),
    Query(Seq<char>),
    Empty,
}

pub open spec fn value_model(v: StatValue) -> ValueModel
    decreases v,
{
    match v {
        StatValue::String(s) => ValueModel::String(s@),
        StatValue::Float(b) => ValueModel::Float(b),
        StatValue::Int(i) => ValueModel::Int(i),
        StatValue::Bool(b) => ValueModel::Bool(b),
        StatValue::Record(r) => ValueModel::Record(record_model(r@)),
        StatValue::Array(a) => ValueModel::Array(values_model(a@)),
        StatValue::LuaFunction(f) => ValueModel::LuaFunction(f@),
        StatValue::Query(q) => ValueModel::Query(q.0@),
        StatValue::Empty => ValueModel::Empty,
    }
}

pub open spec fn values_model(s: Seq<StatValue>) -> Seq<ValueModel>
    decreases s,
{
    if s.len() == 0 {
        Seq::empty()
    } else {
        values_model(s.drop_last()).push(value_model(s.last()))
    }
}

pub open spec fn record_model(s: Seq<(String, StatValue)>) -> Seq<(Seq<char>, ValueModel)>
    decreases s,
{
    if s.len() == 0 {
        Seq::empty()
    } else {
        record_model(s.drop_last()).push((s.last().0@, value_model(s.last().1)))
    }
}

pub proof fn lemma_values_model(s: Seq<StatValue>)
    ensures
        values_model(s).len() == s.len(),
        forall|i: int| 0 <= i < s.len() ==> #[trigger] values_model(s)[i] == value_model(s[i]),
    decreases s.len(),
{
    if s.len() > 0 {
        lemma_values_model(s.drop_last());
    }
}

pub proof fn lemma_record_model(s: Seq<(String, StatValue)>)
    ensures
        record_model(s).len() == s.len(),
        forall|i: int|
            0 <= i < s.len() ==> #[trigger] record_model(s)[i] == (s[i].0@, value_model(s[i].1)),
    decreases s.len(),
{
    if s.len() > 0 {
        lemma_record_model(s.drop_last());
    }
}

/// Values that have no place in an index.
pub open spec fn indexes_to_void(v: ValueModel) -> bool {
    !(v is String || v is Float || v is Int || v is Bool || v is Array)
}

/// The mathematical content of an `IndexValue`.
pub enum IndexModel {
    String(Seq<char>),
    Float(u64),
    Int(i64),
    Uint(u64),
    Boolean(bool),
    Array(Seq<IndexModel>),
    Void,
}

/// The index form of a value: scalars map one to one, an array keeps the index forms
/// of its elements that are not void, in order, and everything else is void.
pub open spec fn index_of(v: ValueModel) -> IndexModel
    decreases v,
{
    match v {
        ValueModel::String(s) => IndexModel::String(s),
        ValueModel::Float(b) => IndexModel::Float(b),
        ValueModel::Int(i) => IndexModel::Int(i),
        ValueModel::Bool(b) => IndexModel::Boolean(b),
        ValueModel::Array(a) => IndexModel::Array(index_array(a)),
        _ => IndexModel::Void,
    }
}

pub open spec fn index_array(s: Seq<ValueModel>) -> Seq<IndexModel>
    decreases s,
{
    if s.len() == 0 {
        Seq::empty()
    } else if indexes_to_void(s.last()) {
        index_array(s.drop_last())
    } else {
        index_array(s.drop_last()).push(index_of(s.last()))
    }
}

/// A value as it is stored in a searchable index. A float is kept as the bit pattern of its `f64`.
#[derive(Debug, PartialEq)]
pub enum IndexValue {
    String(String),
    Float(u64),
    Int(i64),
    Uint(u64),
    Boolean(bool),
    Array(Vec<IndexValue>),
    Void,
}

pub open spec fn index_model(v: IndexValue) -> IndexModel
    decreases v,
{
    match v {
        IndexValue::String(s) => IndexModel::String(s@),
        IndexValue::Float(b) => IndexModel::Float(b),
        IndexValue::Int(i) => IndexModel::Int(i),
        IndexValue::Uint(u) => IndexModel::Uint(u),
        IndexValue::Boolean(b) => IndexModel::Boolean(b),
        IndexValue::Array(a) => IndexModel::Array(index_models(a@)),
        IndexValue::Void => IndexModel::Void,
    }
}

pub open spec fn index_models(s: Seq<IndexValue>) -> Seq<IndexModel>
    decreases s,
{
    if s.len() == 0 {
        Seq::empty()
    } else {
        index_models(s.drop_last()).push(index_model(s.last()))
    }
}

impl View for IndexValue {
    type V = IndexModel;

    open spec fn view(&self) -> IndexModel {
        index_model(*self)
    }
}

impl IndexValue {
    pub fn is_void(&self) -> (r: bool)
        ensures
            r == (*self is Void),
    {
        matches!(self, IndexValue::Void)
    }
}

/// The kinds of value a stat may hold.
pub enum ValueType {
    String,
    Float,
    Int,
    Bool,
    Record,
    Array,
    Query,
}

impl Clone for StatValue {
    fn clone(&self) -> (r: Self)
        ensures
            r@ == self@,
    {
        copy_value(self)
    }
}

/// A copy of `v` with the same content.
pub fn copy_value(v: &StatValue) -> (r: StatValue)
    ensures
        r@ == v@,
    decreases v,
{
    match v {
        StatValue::String(s) => StatValue::String(s.clone()),
        StatValue::Float(b) => StatValue::Float(*b),
        StatValue::Int(i) => StatValue::Int(*i),
        StatValue::Bool(b) => StatValue::Bool(*b),
        StatValue::Record(r) => {
            let mut out: Vec<(String, StatValue)> = Vec::new();
            let mut i: usize = 0;
            while i < r.len()
                invariant
                    0 <= i <= r@.len(),
                    *v is Record && v->Record_0 == *r,
                    record_model(out@) == record_model(r@.take(i as int)),
                decreases r@.len() - i,
            {
                proof {
                    assert(r@.take(i + 1).drop_last() =~= r@.take(i as int));
                }
                let key = r[i].0.clone();
                proof {
                    assert(decreases_to!(*r => r[i as int]));
                    assert(decreases_to!(*v => v->Record_0));
                    assert(decreases_to!(r[i as int] => r[i as int].1));
                    assert(decreases_to!(*v => r[i as int].1));
                }
                let val = copy_value(&r[i].1);
                let ghost before = out@;
                out.push((key, val));
                proof {
                    assert(out@.drop_last() =~= before);
                }
                i = i + 1;
            }
            proof {
                assert(r@.take(r@.len() as int) =~= r@);
            }
            StatValue::Record(out)
        },
        StatValue::Array(a) => {
            let mut out: Vec<StatValue> = Vec::new();
            let mut i: usize = 0;
            while i < a.len()
                invariant
                    0 <= i <= a@.len(),
                    *v is Array && v->Array_0 == *a,
                    values_model(out@) == values_model(a@.take(i as int)),
                decreases a@.len() - i,
            {
                proof {
                    assert(a@.take(i + 1).drop_last() =~= a@.take(i as int));
                }
                proof {
                    assert(decreases_to!(*a => a[i as int]));
                    assert(decreases_to!(*v => v->Array_0));
                    assert(decreases_to!(*v => a[i as int]));
                }
                let val = copy_value(&a[i]);
                let ghost before = out@;
                out.push(val);
                proof {
                    assert(out@.drop_last() =~= before);
                }
                i = i + 1;
            }
            proof {
                assert(a@.take(a@.len() as int) =~= a@);
            }
            StatValue::Array(out)
        },
        StatValue::LuaFunction(f) => StatValue::LuaFunction(f.clone()),
        StatValue::Query(q) => StatValue::Query(Query(q.0.clone())),
        StatValue::Empty => StatValue::Empty,
    }
}

impl StatValue {
    pub fn is_none(&self) -> (r: bool)
        ensures
            r == (*self is Empty),
    {
        matches!(self, StatValue::Empty)
    }

    pub fn is_some(&self) -> (r: bool)
        ensures
            r == !(*self is Empty),
    {
        !self.is_none()
    }

    pub fn is_string(&self) -> (r: bool)
        ensures
            r == (*self is String),
    {
        matches!(self, StatValue::String(_))
    }

    pub fn as_string(&self) -> (r: Option<&String>)
        ensures
            *self is String ==> r == Some(&self->String_0),
            !(*self is String) ==> r is None,
    {
        match self {
            StatValue::String(value) => Some(value),
            _ => None,
        }
    }

    /// The value as it is stored in an index.
    pub fn to_index_value(&self) -> (r: IndexValue)
        ensures
            r@ == index_of(self@),
        decreases self,
    {
        match self {
            StatValue::String(s) => IndexValue::String(s.clone()),
            StatValue::Float(b) => IndexValue::Float(*b),
            StatValue::Int(i) => IndexValue::Int(*i),
            StatValue::Bool(b) => IndexValue::Boolean(*b),
            StatValue::Array(a) => {
                let mut out: Vec<IndexValue> = Vec::new();
                let mut i: usize = 0;
                while i < a.len()
                    invariant
                        0 <= i <= a@.len(),
                        *self is Array && self->Array_0 == *a,
                        index_models(out@) == index_array(values_model(a@.take(i as int))),
                    decreases a@.len() - i,
                {
                    proof {
                        assert(a@.take(i + 1).drop_last() =~= a@.take(i as int));
                        lemma_values_model(a@.take(i + 1));
                        assert(values_model(a@.take(i + 1)).drop_last() =~= values_model(
                            a@.take(i as int),
                        )) by {
                            lemma_values_model(a@.take(i as int));
                        }
                    }
                    proof {
                        assert(decreases_to!(*a => a[i as int]));
                        assert(decreases_to!(*self => self->Array_0));
                        assert(decreases_to!(*self => a[i as int]));
                    }
                    let item = a[i].to_index_value();
                    if !item.is_void() {
                        let ghost before = out@;
                        out.push(item);
                        proof {
                            assert(out@.drop_last() =~= before);
                        }
                    }
                    i = i + 1;
                }
                proof {
                    assert(a@.take(a@.len() as int) =~= a@);
                }
                IndexValue::Array(out)
            },
            _ => IndexValue::Void,
        }
    }
}

impl View for StatValue {
    type V = ValueModel;

    open spec fn view(&self) -> ValueModel {
        value_model(*self)
    }
}

} // verus!
