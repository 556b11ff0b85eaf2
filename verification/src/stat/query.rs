use vstd::prelude::*;

verus! {

/// A query over rulebook items, kept as its source text.
#[derive(Debug, PartialEq)]
pub struct Query(pub String);

impl Clone for Query {
    fn clone(&self) -> (r: Self)
        ensures
            r.0@ == self.0@,
    {
        Query(self.0.clone())
    }
}

impl Query {
    pub fn new(query: String) -> (r: Query)
        ensures
            r.0 == query,
    {
        Query(query)
    }

    pub fn get_query(&self) -> (r: &str)
        ensures
            r@ == self.0@,
    {
        self.0.as_str()
    }
}

} // verus!
