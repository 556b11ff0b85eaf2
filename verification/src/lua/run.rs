use vstd::prelude::*;

use crate::common::entries::{entry_keys, find_key, first_at, insert_ordered, value_under};
use crate::common::identifier::{Identifier, IdentifierModel};

verus! {

//==============================================================================================
//        Lua Source Meta
//==============================================================================================

/// What a Lua run keeps while it goes from file to file: the file being run, what each
/// file it has required gave back (of the Lua side's type `S`), and the items each file
/// it has taken as a dependency registered.
pub struct LuaSourceMeta<S> {
    current_file: String,
    sources: Vec<(String, S)>,
    deps: Vec<(String, Vec<Identifier>)>,
}

pub open spec fn identifier_views(v: Seq<Identifier>) -> Seq<IdentifierModel> {
    v.map_values(|i: Identifier| i@)
}

pub open spec fn source_entries<S>(v: Seq<(String, S)>) -> Seq<(Seq<char>, S)> {
    v.map_values(|e: (String, S)| (e.0@, e.1))
}

pub open spec fn dep_entries(v: Seq<(String, Vec<Identifier>)>) -> Seq<(Seq<char>, Seq<IdentifierModel>)> {
    v.map_values(|e: (String, Vec<Identifier>)| (e.0@, identifier_views(e.1@)))
}

pub proof fn lemma_entry_keys_agree<S>(v: Seq<(String, S)>)
    ensures
        source_entries(v).map_values(|e: (Seq<char>, S)| e.0) == entry_keys(v),
{
    assert(source_entries(v).map_values(|e: (Seq<char>, S)| e.0) =~= entry_keys(v));
}

pub proof fn lemma_dep_keys_agree(v: Seq<(String, Vec<Identifier>)>)
    ensures
        dep_entries(v).map_values(|e: (Seq<char>, Seq<IdentifierModel>)| e.0) == entry_keys(v),
{
    assert(dep_entries(v).map_values(|e: (Seq<char>, Seq<IdentifierModel>)| e.0) =~= entry_keys(v));
}

impl<S> LuaSourceMeta<S> {
    pub closed spec fn current(&self) -> Seq<char> {
        self.current_file@
    }

    pub closed spec fn sources(&self) -> Seq<(Seq<char>, S)> {
        source_entries(self.sources@)
    }

    pub closed spec fn dependencies(&self) -> Seq<(Seq<char>, Seq<IdentifierModel>)> {
        dep_entries(self.deps@)
    }

    /// A run that starts at `current_file`, with nothing remembered yet.
    pub fn new(current_file: String) -> (r: LuaSourceMeta<S>)
        ensures
            r.current() == current_file@,
            r.sources() == Seq::<(Seq<char>, S)>::empty(),
            r.dependencies() == Seq::<(Seq<char>, Seq<IdentifierModel>)>::empty(),
    {
        let r = LuaSourceMeta { current_file, sources: Vec::new(), deps: Vec::new() };
        proof {
            assert(r.sources() =~= Seq::<(Seq<char>, S)>::empty());
            assert(r.dependencies() =~= Seq::<(Seq<char>, Seq<IdentifierModel>)>::empty());
        }
        r
    }

    pub fn current_file(&self) -> (r: &str)
        ensures
            r@ == self.current(),
    {
        self.current_file.as_str()
    }

    /// Makes `path` the file being run, and gives back the one that was.
    pub fn enter(&mut self, path: String) -> (r: String)
        ensures
            r@ == old(self).current(),
            final(self).current() == path@,
            final(self).sources() == old(self).sources(),
            final(self).dependencies() == old(self).dependencies(),
    {
        let mut previous = path;
        std::mem::swap(&mut previous, &mut self.current_file);
        previous
    }

    /// Makes `previous` the file being run again.
    pub fn leave(&mut self, previous: String)
        ensures
            final(self).current() == previous@,
            final(self).sources() == old(self).sources(),
            final(self).dependencies() == old(self).dependencies(),
    {
        self.current_file = previous;
    }

    /// What the file at `path` gave back when it was required, if it was.
    pub fn source_for(&self, path: &str) -> (r: Option<&S>)
        ensures
            match value_under(self.sources(), path@) {
                Some(v) => r == Some(&v),
                None => r is None,
            },
    {
        proof {
            lemma_entry_keys_agree(self.sources@);
        }
        match find_key(&self.sources, path) {
            Some(i) => Some(&self.sources[i].1),
            None => None,
        }
    }

    /// Remembers what the file at `path` gave back.
    pub fn remember_source(&mut self, path: String, value: S)
        ensures
            final(self).current() == old(self).current(),
            final(self).sources() == insert_ordered(old(self).sources(), path@, value),
            final(self).dependencies() == old(self).dependencies(),
    {
        proof {
            lemma_entry_keys_agree(self.sources@);
        }
        let ghost k = path@;
        match find_key(&self.sources, path.as_str()) {
            Some(i) => {
                self.sources.set(i, (path, value));
                proof {
                    assert(self.sources() =~= insert_ordered(old(self).sources(), k, value));
                }
            },
            None => {
                self.sources.push((path, value));
                proof {
                    assert(self.sources() =~= insert_ordered(old(self).sources(), k, value));
                }
            },
        }
    }

    /// The items the file at `path` registered when it was taken as a dependency, if it was.
    pub fn deps_for(&self, path: &str) -> (r: Option<&Vec<Identifier>>)
        ensures
            match value_under(self.dependencies(), path@) {
                Some(v) => r is Some && identifier_views(r->0@) == v,
                None => r is None,
            },
    {
        proof {
            lemma_dep_keys_agree(self.deps@);
        }
        match find_key(&self.deps, path) {
            Some(i) => Some(&self.deps[i].1),
            None => None,
        }
    }

    /// Remembers the items the file at `path` registered.
    pub fn remember_deps(&mut self, path: String, ids: Vec<Identifier>)
        ensures
            final(self).current() == old(self).current(),
            final(self).sources() == old(self).sources(),
            final(self).dependencies() == insert_ordered(old(self).dependencies(), path@, identifier_views(ids@)),
    {
        proof {
            lemma_dep_keys_agree(self.deps@);
        }
        let ghost k = path@;
        let ghost v = identifier_views(ids@);
        match find_key(&self.deps, path.as_str()) {
            Some(i) => {
                self.deps.set(i, (path, ids));
                proof {
                    assert(self.dependencies() =~= insert_ordered(old(self).dependencies(), k, v));
                }
            },
            None => {
                self.deps.push((path, ids));
                proof {
                    assert(self.dependencies() =~= insert_ordered(old(self).dependencies(), k, v));
                }
            },
        }
    }
}

//==============================================================================================
//        Run modes
//==============================================================================================

/// Running a file as `require` does: its result is remembered per file.
pub struct LuaRequireRun;

/// Running a file as `dep` does: the items it registers are collected.
pub struct LuaDepsRun(pub Vec<Identifier>);

/// The items a file registered, marked as coming from the rulebook `foreign` when that is
/// not the rulebook being built.
pub open spec fn rebased(ids: Seq<IdentifierModel>, domestic: u128, foreign: u128) -> Seq<IdentifierModel> {
    if domestic != foreign {
        ids.map_values(|m: IdentifierModel| IdentifierModel { rulebook: Some(foreign), ..m })
    } else {
        ids
    }
}

impl LuaDepsRun {
    pub fn new() -> (r: LuaDepsRun)
        ensures
            r.0@.len() == 0,
    {
        LuaDepsRun(Vec::new())
    }

    /// The items collected, marked with the rulebook `foreign` they come from when it is
    /// not the rulebook `domestic` being built.
    pub fn into_identifiers(self, domestic: u128, foreign: u128) -> (r: Vec<Identifier>)
        ensures
            identifier_views(r@) == rebased(identifier_views(self.0@), domestic, foreign),
    {
        let LuaDepsRun(mut ids) = self;
        let ghost all = ids@;
        if domestic != foreign {
            let mut k: usize = 0;
            while k < ids.len()
                invariant
                    0 <= k <= ids@.len(),
                    ids@.len() == all.len(),
                    forall|j: int| 0 <= j < k ==> #[trigger] ids@[j]@ == (IdentifierModel {
                        rulebook: Some(foreign),
                        ..all[j]@
                    }),
                    forall|j: int| k <= j < ids@.len() ==> #[trigger] ids@[j] == all[j],
                decreases ids@.len() - k,
            {
                let mut id = ids[k].clone();
                id.set_rulebook(foreign);
                ids.set(k, id);
                k = k + 1;
            }
            proof {
                assert(identifier_views(ids@) =~= rebased(identifier_views(all), domestic, foreign));
            }
        }
        ids
    }
}

} // verus!
