//! Stable names for models.
use vstd::prelude::*;

use crate::table::Keyed;

verus! {

/// A name that stands for a model or for another alias. An empty target means
/// that nothing is assigned.
#[derive(Debug)]
pub struct ModelAlias {
    pub alias: String,
    pub target: String,
}

impl Clone for ModelAlias {
    fn clone(&self) -> (r: Self)
        ensures
            r == *self,
    {
        ModelAlias { alias: self.alias.clone(), target: self.target.clone() }
    }
}

impl Keyed for ModelAlias {
    open spec fn key(&self) -> Seq<char> {
        self.alias@
    }

    fn name_of(&self) -> (r: &String) {
        &self.alias
    }
}

} // verus!
