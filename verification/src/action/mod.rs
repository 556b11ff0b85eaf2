pub mod definition;

use vstd::prelude::*;

verus! {

//==============================================================================================
//        Action
//==============================================================================================

/// An action that an item can take: the compiled callback that resolves it.
pub struct Action {
    pub resolver: Vec<u8>,
}

} // verus!
