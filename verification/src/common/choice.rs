use vstd::prelude::*;

use crate::common::entries::{entry_keys, find_key, first_at, insert_ordered};
use crate::stat::query::Query;
use crate::stat::value::{StatValue, ValueModel, values_model};

verus! {

broadcast use vstd::std_specs::vec::axiom_vec_index_decreases;

//==============================================================================================
//        Input
//==============================================================================================

/// The questions a setup step asks, by name, in the order they were first asked. They are
/// held as (name, question) pairs with distinct names: a question can hold an `Input` of its
/// own, and Verus refuses a type that recurses through an ordered map of another crate, nor
/// can a spec over the entries of such a map held out of its sight be shown to terminate.
#[derive(Debug)]
pub struct Input(Vec<(String, InputValue)>);

/// One question of an `Input`. A float default is kept as the bit pattern of its `f64`.
#[derive(Debug)]
pub enum InputValue {
    PointBuy { values: Vec<(String, InputValue)>, points: i32, max: Option<i32> },
    Section(Vec<(String, InputValue)>),
    ChoiceQuery { query: Query, number_of_selections: u32, number_of_choices: u32 },
    Choice { values: Vec<StatValue>, number_of_selections: u32, number_of_choices: u32 },
    String { default: Option<String> },
    Number { default: Option<u64> },
    Int { default: Option<i64> },
}

/// Where the options of a choice come from: a list of values, or a query.
pub enum ChoiceSource {
    Values(Vec<StatValue>),
    Query(Query),
}

/// The mathematical content of an `InputValue`.
pub enum InputModel {
    PointBuy { values: Seq<(Seq<char>, InputModel)>, points: i32, max: Option<i32> },
    Section(Seq<(Seq<char>, InputModel)>),
    ChoiceQuery { query: Seq<char>, number_of_selections: u32, number_of_choices: u32 },
    Choice { values: Seq<ValueModel>, number_of_selections: u32, number_of_choices: u32 },
    String { default: Option<Seq<char>> },
    Number { default: Option<u64> },
    Int { default: Option<i64> },
}

pub open spec fn text_option(o: Option<String>) -> Option<Seq<char>> {
    match o {
        Some(s) => Some(s@),
        None => None,
    }
}

pub open spec fn input_model(v: InputValue) -> InputModel
    decreases v,
{
    match v {
        InputValue::PointBuy { values, points, max } => InputModel::PointBuy {
            values: input_entries(values@),
            points,
            max,
        },
        InputValue::Section(m) => InputModel::Section(input_entries(m@)),
        InputValue::ChoiceQuery { query, number_of_selections, number_of_choices } =>
            InputModel::ChoiceQuery { query: query.0@, number_of_selections, number_of_choices },
        InputValue::Choice { values, number_of_selections, number_of_choices } =>
            InputModel::Choice { values: values_model(values@), number_of_selections, number_of_choices },
        InputValue::String { default } => InputModel::String { default: text_option(default) },
        InputValue::Number { default } => InputModel::Number { default },
        InputValue::Int { default } => InputModel::Int { default },
    }
}

pub open spec fn input_entries(s: Seq<(String, InputValue)>) -> Seq<(Seq<char>, InputModel)>
    decreases s,
{
    if s.len() == 0 {
        Seq::empty()
    } else {
        input_entries(s.drop_last()).push((s.last().0@, input_model(s.last().1)))
    }
}

pub proof fn lemma_input_entries(s: Seq<(String, InputValue)>)
    ensures
        input_entries(s).len() == s.len(),
        forall|i: int|
            0 <= i < s.len() ==> #[trigger] input_entries(s)[i] == (s[i].0@, input_model(s[i].1)),
        input_entries(s).map_values(|e: (Seq<char>, InputModel)| e.0) == entry_keys(s),
    decreases s.len(),
{
    if s.len() > 0 {
        lemma_input_entries(s.drop_last());
    }
    assert(input_entries(s).map_values(|e: (Seq<char>, InputModel)| e.0) =~= entry_keys(s));
}

pub proof fn lemma_input_entries_update(s: Seq<(String, InputValue)>, i: int, e: (String, InputValue))
    requires
        0 <= i < s.len(),
    ensures
        input_entries(s.update(i, e)) == input_entries(s).update(i, (e.0@, input_model(e.1))),
{
    lemma_input_entries(s);
    lemma_input_entries(s.update(i, e));
    assert(input_entries(s.update(i, e)) =~= input_entries(s).update(i, (e.0@, input_model(e.1))));
}

pub proof fn lemma_input_entries_push(s: Seq<(String, InputValue)>, e: (String, InputValue))
    ensures
        input_entries(s.push(e)) == input_entries(s).push((e.0@, input_model(e.1))),
{
    assert(s.push(e).drop_last() =~= s);
}

impl View for InputValue {
    type V = InputModel;

    open spec fn view(&self) -> InputModel {
        input_model(*self)
    }
}

impl View for Input {
    type V = Seq<(Seq<char>, InputModel)>;

    closed spec fn view(&self) -> Seq<(Seq<char>, InputModel)> {
        input_entries(self.0@)
    }
}

/// The entries of `m` whose question asks for an integer, in order.
pub open spec fn integer_entries(m: Seq<(Seq<char>, InputModel)>) -> Seq<(Seq<char>, InputModel)>
    decreases m.len(),
{
    if m.len() == 0 {
        Seq::empty()
    } else if m.last().1 is Int {
        integer_entries(m.drop_last()).push(m.last())
    } else {
        integer_entries(m.drop_last())
    }
}

impl Input {
    pub fn new() -> (r: Input)
        ensures
            r@ == Seq::<(Seq<char>, InputModel)>::empty(),
    {
        Input(Vec::new())
    }

    /// The questions, in order.
    pub fn iter(&self) -> (r: &Vec<(String, InputValue)>)
        ensures
            input_entries(r@) == self@,
    {
        &self.0
    }

    /// The questions, to be changed in place.
    pub fn iter_mut(&mut self) -> (r: &mut Vec<(String, InputValue)>)
        ensures
            input_entries(r@) == old(self)@,
            final(self)@ == input_entries(final(r)@),
    {
        &mut self.0
    }

    /// Asks `value` under `name`: it replaces the question of that name in its place, or
    /// comes last when the name is new.
    pub fn insert(&mut self, name: String, value: InputValue)
        ensures
            final(self)@ == insert_ordered(old(self)@, name@, value@),
    {
        proof {
            lemma_input_entries(self.0@);
        }
        match find_key(&self.0, name.as_str()) {
            Some(i) => {
                proof {
                    lemma_input_entries_update(self.0@, i as int, (name, value));
                }
                self.0.set(i, (name, value));
            },
            None => {
                proof {
                    lemma_input_entries_push(self.0@, (name, value));
                }
                self.0.push((name, value));
            },
        }
    }

    /// Takes out the integer questions, in order.
    fn into_integer_entries(self) -> (r: Vec<(String, InputValue)>)
        ensures
            input_entries(r@) == integer_entries(self@),
    {
        let Input(entries) = self;
        let ghost all = entries@;
        let n = entries.len();
        proof {
            lemma_input_entries(all);
        }
        // Turn the entries around, so that popping yields them front to back.
        let mut front = entries;
        let mut rest: Vec<(String, InputValue)> = Vec::new();
        while front.len() > 0
            invariant
                n == all.len(),
                front@.len() + rest@.len() == n,
                front@ == all.take(front@.len() as int),
                forall|j: int| 0 <= j < rest@.len() ==> #[trigger] rest@[j] == all[n - 1 - j],
            decreases front@.len(),
        {
            let e = front.pop().unwrap();
            rest.push(e);
        }
        let mut r: Vec<(String, InputValue)> = Vec::new();
        let mut k: usize = 0;
        while k < n
            invariant
                0 <= k <= n,
                n == all.len(),
                rest@.len() == n - k,
                forall|j: int| 0 <= j < n - k ==> #[trigger] rest@[j] == all[n - 1 - j],
                input_entries(r@) == integer_entries(input_entries(all.take(k as int))),
            decreases n - k,
        {
            let e = rest.pop().unwrap();
            proof {
                assert(e == all[k as int]);
                let t = all.take(k as int + 1);
                assert(t.drop_last() =~= all.take(k as int));
                lemma_input_entries(t);
                assert(input_entries(t).last() == (e.0@, input_model(e.1)));
                assert(input_entries(t).drop_last() =~= input_entries(all.take(k as int))) by {
                    lemma_input_entries(all.take(k as int));
                }
            }
            if e.1.is_int() {
                proof {
                    lemma_input_entries_push(r@, e);
                }
                r.push(e);
            }
            k = k + 1;
        }
        proof {
            assert(all.take(n as int) =~= all);
        }
        r
    }

    /// Asks for points to spend over the integer questions of `values`; `points` is
    /// 1 unless given.
    pub fn point_buy(&mut self, name: String, values: Input, points: Option<i32>, max: Option<i32>)
        ensures
            final(self)@ == insert_ordered(
                old(self)@,
                name@,
                InputModel::PointBuy {
                    values: integer_entries(values@),
                    points: match points {
                        Some(p) => p,
                        None => 1,
                    },
                    max,
                },
            ),
    {
        let values = values.into_integer_entries();
        let points = match points {
            Some(p) => p,
            None => 1,
        };
        self.insert(name, InputValue::PointBuy { values, points, max });
    }

    /// Asks to pick among `choices`; one choice and one selection unless given.
    pub fn choice(
        &mut self,
        name: String,
        choices: ChoiceSource,
        number_of_choices: Option<u32>,
        number_of_selections: Option<u32>,
    )
        ensures
            final(self)@ == insert_ordered(
                old(self)@,
                name@,
                match choices {
                    ChoiceSource::Values(values) => InputModel::Choice {
                        values: values_model(values@),
                        number_of_selections: match number_of_selections {
                            Some(n) => n,
                            None => 1,
                        },
                        number_of_choices: match number_of_choices {
                            Some(n) => n,
                            None => 1,
                        },
                    },
                    ChoiceSource::Query(query) => InputModel::ChoiceQuery {
                        query: query.0@,
                        number_of_selections: match number_of_selections {
                            Some(n) => n,
                            None => 1,
                        },
                        number_of_choices: match number_of_choices {
                            Some(n) => n,
                            None => 1,
                        },
                    },
                },
            ),
    {
        let number_of_selections = match number_of_selections {
            Some(n) => n,
            None => 1,
        };
        let number_of_choices = match number_of_choices {
            Some(n) => n,
            None => 1,
        };
        let value = match choices {
            ChoiceSource::Values(values) => InputValue::Choice {
                values,
                number_of_selections,
                number_of_choices,
            },
            ChoiceSource::Query(query) => InputValue::ChoiceQuery {
                query,
                number_of_selections,
                number_of_choices,
            },
        };
        self.insert(name, value);
    }

    /// Groups the questions of `section` under `name`.
    pub fn section(&mut self, name: String, section: Input)
        ensures
            final(self)@ == insert_ordered(old(self)@, name@, InputModel::Section(section@)),
    {
        let Input(entries) = section;
        self.insert(name, InputValue::Section(entries));
    }

    /// Asks for a text.
    pub fn string(&mut self, name: String, default: Option<String>)
        ensures
            final(self)@ == insert_ordered(
                old(self)@,
                name@,
                InputModel::String { default: text_option(default) },
            ),
    {
        self.insert(name, InputValue::String { default });
    }

    /// Asks for a number; `default` is the bit pattern of an `f64`.
    pub fn number(&mut self, name: String, default: Option<u64>)
        ensures
            final(self)@ == insert_ordered(old(self)@, name@, InputModel::Number { default }),
    {
        self.insert(name, InputValue::Number { default });
    }

    /// Asks for an integer.
    pub fn integer(&mut self, name: String, default: Option<i64>)
        ensures
            final(self)@ == insert_ordered(old(self)@, name@, InputModel::Int { default }),
    {
        self.insert(name, InputValue::Int { default });
    }
}

/// A copy of `v` with the same content.
pub fn copy_input_value(v: &InputValue) -> (r: InputValue)
    ensures
        r@ == v@,
    decreases v,
{
    match v {
        InputValue::PointBuy { values, points, max } => {
            proof {
                assert(decreases_to!(*v => v->PointBuy_values));
            }
            InputValue::PointBuy { values: copy_input_entries(values), points: *points, max: *max }
        },
        InputValue::Section(m) => {
            proof {
                assert(decreases_to!(*v => v->Section_0));
            }
            InputValue::Section(copy_input_entries(m))
        },
        InputValue::ChoiceQuery { query, number_of_selections, number_of_choices } =>
            InputValue::ChoiceQuery {
                query: query.clone(),
                number_of_selections: *number_of_selections,
                number_of_choices: *number_of_choices,
            },
        InputValue::Choice { values, number_of_selections, number_of_choices } => {
            let mut out: Vec<StatValue> = Vec::new();
            let mut i: usize = 0;
            while i < values.len()
                invariant
                    0 <= i <= values@.len(),
                    values_model(out@) == values_model(values@.take(i as int)),
                decreases values@.len() - i,
            {
                proof {
                    assert(values@.take(i + 1).drop_last() =~= values@.take(i as int));
                }
                let val = values[i].clone();
                let ghost before = out@;
                out.push(val);
                proof {
                    assert(out@.drop_last() =~= before);
                }
                i = i + 1;
            }
            proof {
                assert(values@.take(values@.len() as int) =~= values@);
            }
            InputValue::Choice {
                values: out,
                number_of_selections: *number_of_selections,
                number_of_choices: *number_of_choices,
            }
        },
        InputValue::String { default } => InputValue::String {
            default: match default {
                Some(d) => Some(d.clone()),
                None => None,
            },
        },
        InputValue::Number { default } => InputValue::Number { default: *default },
        InputValue::Int { default } => InputValue::Int { default: *default },
    }
}

/// A copy of the entries `m` with the same content.
pub fn copy_input_entries(m: &Vec<(String, InputValue)>) -> (r: Vec<(String, InputValue)>)
    ensures
        input_entries(r@) == input_entries(m@),
    decreases m,
{
    let mut out: Vec<(String, InputValue)> = Vec::new();
    let mut i: usize = 0;
    while i < m.len()
        invariant
            0 <= i <= m@.len(),
            input_entries(out@) == input_entries(m@.take(i as int)),
        decreases m@.len() - i,
    {
        proof {
            assert(m@.take(i + 1).drop_last() =~= m@.take(i as int));
            assert(decreases_to!(*m => m[i as int]));
            assert(decreases_to!(m[i as int] => m[i as int].1));
        }
        let key = m[i].0.clone();
        let val = copy_input_value(&m[i].1);
        let ghost before = out@;
        out.push((key, val));
        proof {
            assert(out@.drop_last() =~= before);
        }
        i = i + 1;
    }
    proof {
        assert(m@.take(m@.len() as int) =~= m@);
    }
    out
}

impl Clone for InputValue {
    fn clone(&self) -> (r: Self)
        ensures
            r@ == self@,
    {
        copy_input_value(self)
    }
}

impl Clone for Input {
    fn clone(&self) -> (r: Self)
        ensures
            r@ == self@,
    {
        Input(copy_input_entries(&self.0))
    }
}

impl Default for Input {
    fn default() -> (r: Input)
        ensures
            r@ == Seq::<(Seq<char>, InputModel)>::empty(),
    {
        Input::new()
    }
}

impl InputValue {
    pub fn is_point_buy(&self) -> (r: bool)
        ensures
            r == (self@ is PointBuy),
    {
        matches!(self, InputValue::PointBuy { .. })
    }

    pub fn is_section(&self) -> (r: bool)
        ensures
            r == (self@ is Section),
    {
        matches!(self, InputValue::Section(..))
    }

    pub fn is_choice_query(&self) -> (r: bool)
        ensures
            r == (self@ is ChoiceQuery),
    {
        matches!(self, InputValue::ChoiceQuery { .. })
    }

    pub fn is_choice(&self) -> (r: bool)
        ensures
            r == (self@ is Choice),
    {
        matches!(self, InputValue::Choice { .. })
    }

    pub fn is_string(&self) -> (r: bool)
        ensures
            r == (self@ is String),
    {
        matches!(self, InputValue::String { .. })
    }

    pub fn is_number(&self) -> (r: bool)
        ensures
            r == (self@ is Number),
    {
        matches!(self, InputValue::Number { .. })
    }

    pub fn is_int(&self) -> (r: bool)
        ensures
            r == (self@ is Int),
    {
        matches!(self, InputValue::Int { .. })
    }

    /// The questions of a section.
    pub fn iter(&self) -> (r: Option<&Vec<(String, InputValue)>>)
        ensures
            r is Some <==> self@ is Section,
            r is Some ==> InputModel::Section(input_entries(r->0@)) == self@,
    {
        match self {
            InputValue::Section(m) => Some(m),
            _ => None,
        }
    }

    /// The questions of a section, to be changed in place.
    pub fn iter_mut(&mut self) -> (r: Option<&mut Vec<(String, InputValue)>>)
        ensures
            r is Some <==> old(self)@ is Section,
            r is Some ==> InputModel::Section(input_entries(r->0@)) == old(self)@,
            r is Some ==> final(self)@ == InputModel::Section(input_entries(final(r->0)@)),
            r is None ==> *final(self) == *old(self),
    {
        match self {
            InputValue::Section(m) => Some(m),
            _ => None,
        }
    }
}

} // verus!
