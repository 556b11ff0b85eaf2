use vstd::prelude::*;

use crate::common::text::text_eq;
use crate::error::FreError;
use crate::stat::path::join_paths;

verus! {

//==============================================================================================
//        Mime Type
//==============================================================================================

/// The mime type of the image files the engine knows, by extension.
pub open spec fn mime_type_of(extension: Seq<char>) -> Option<Seq<char>> {
    if extension == "png"@ {
        Some("image/png"@)
    } else if extension == "jpeg"@ || extension == "jpg"@ {
        Some("image/jpeg"@)
    } else if extension == "webp"@ {
        Some("image/webp"@)
    } else {
        None
    }
}

/// The mime type for a file extension, or `MissingMimeType` for one the engine does not know.
pub fn get_mime_type(extension: &str) -> (r: Result<String, FreError>)
    ensures
        match mime_type_of(extension@) {
            Some(m) => r is Ok && r->Ok_0@ == m,
            None => r is Err && (r->Err_0 matches FreError::MissingMimeType(e) && e@ == extension@),
        },
{
    proof {
        reveal_strlit("png");
        reveal_strlit("jpeg");
        reveal_strlit("jpg");
        reveal_strlit("webp");
        reveal_strlit("image/png");
        reveal_strlit("image/jpeg");
        reveal_strlit("image/webp");
    }
    if text_eq(extension, "png") {
        return Ok("image/png".to_owned());
    }
    if text_eq(extension, "jpeg") || text_eq(extension, "jpg") {
        return Ok("image/jpeg".to_owned());
    }
    if text_eq(extension, "webp") {
        return Ok("image/webp".to_owned());
    }
    Err(FreError::MissingMimeType(extension.to_owned()))
}

//==============================================================================================
//        General Helpers
//==============================================================================================

/// A map from names to values that can be seen as a flat list of its entries.
pub trait FlattenMap<V> {
    fn flatten_mut(&mut self) -> Vec<(String, V)>;
}

impl<V> FlattenMap<V> for Vec<(String, V)> {
    /// No entry is listed yet: the flat view starts out empty.
    fn flatten_mut(&mut self) -> (r: Vec<(String, V)>)
        ensures
            r@ == Seq::<(String, V)>::empty(),
            *final(self) == *old(self),
    {
        Vec::new()
    }
}

/// Walks the entries of `this`, forming the dotted path of each under `root`; the entries
/// and `flat` are left as they are.
pub fn flaten_hm_r<V>(this: &mut Vec<(String, V)>, flat: &Vec<(String, V)>, root: &str)
    ensures
        *final(this) == *old(this),
{
    let mut i: usize = 0;
    while i < this.len()
        invariant
            0 <= i <= this@.len(),
            *this == *old(this),
        decreases this@.len() - i,
    {
        let _index = if root.is_empty() {
            this[i].0.clone()
        } else {
            join_paths(root, this[i].0.as_str())
        };
        i = i + 1;
    }
}

} // verus!
