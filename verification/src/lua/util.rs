use vstd::prelude::*;

verus! {

//==============================================================================================
//        LuaTableIndex
//==============================================================================================

/// A key of a Lua table: a text or an integer.
#[derive(PartialEq, Eq, PartialOrd, Ord, Hash, Debug)]
pub enum LuaTableIndex {
    String(String),
    Integer(i64),
}

/// The content of a `LuaTableIndex`.
pub enum IndexKey {
    String(Seq<char>),
    Integer(i64),
}

impl View for LuaTableIndex {
    type V = IndexKey;

    open spec fn view(&self) -> IndexKey {
        match self {
            LuaTableIndex::String(s) => IndexKey::String(s@),
            LuaTableIndex::Integer(i) => IndexKey::Integer(*i),
        }
    }
}

impl LuaTableIndex {
    pub fn is_integer(&self) -> (r: bool)
        ensures
            r == (self@ is Integer),
    {
        match self {
            LuaTableIndex::String(_) => false,
            LuaTableIndex::Integer(_) => true,
        }
    }
}

impl Clone for LuaTableIndex {
    fn clone(&self) -> (r: Self)
        ensures
            r@ == self@,
    {
        match self {
            LuaTableIndex::String(s) => LuaTableIndex::String(s.clone()),
            LuaTableIndex::Integer(i) => LuaTableIndex::Integer(*i),
        }
    }
}

} // verus!
