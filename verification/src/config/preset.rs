//! Named inference-server binaries.
use vstd::prelude::*;
use vstd::string::*;

use crate::config::backend::{backend_named_in, Backend};
use crate::table::Keyed;

verus! {

broadcast use vstd::string::group_string_axioms;

/// A named binary. Models refer to presets by id, so that a changed path
/// reaches every model that uses it.
#[derive(Debug)]
pub struct BinaryPreset {
    pub id: String,
    pub name: String,
    pub binary: String,
    /// The backends that the binary can drive, in the order of preference.
    /// Empty in presets saved before there were targets.
    pub targets: Vec<Backend>,
}

impl Keyed for BinaryPreset {
    open spec fn key(&self) -> Seq<char> {
        self.id@
    }

    fn name_of(&self) -> (r: &String) {
        &self.id
    }
}

impl BinaryPreset {
    /// Whether two presets hold the same values.
    pub open spec fn like(&self, other: &BinaryPreset) -> bool {
        &&& self.id == other.id
        &&& self.name == other.name
        &&& self.binary == other.binary
        &&& self.targets@ == other.targets@
    }
}

impl Clone for BinaryPreset {
    fn clone(&self) -> (r: Self)
        ensures
            r.like(self),
    {
        let targets = self.targets.clone();
        assert(targets@ =~= self.targets@);
        BinaryPreset {
            id: self.id.clone(),
            name: self.name.clone(),
            binary: self.binary.clone(),
            targets,
        }
    }
}

impl BinaryPreset {
    /// What the backend of a preset without targets is guessed from.
    pub open spec fn hint(&self) -> Seq<char> {
        self.id@ + seq![' '] + self.name@ + seq![' '] + self.binary@
    }

    /// The targets, or the backend that the id, the name and the path suggest.
    pub open spec fn targets_or_guess(&self) -> Seq<Backend> {
        if self.targets@.len() > 0 {
            self.targets@
        } else {
            match backend_named_in(self.hint()) {
                Some(b) => seq![b],
                None => Seq::empty(),
            }
        }
    }

    /// The targets, or the backend that the id, the name and the path suggest.
    pub fn effective_targets(&self) -> (r: Vec<Backend>)
        ensures
            r@ == self.targets_or_guess(),
    {
        if self.targets.len() > 0 {
            let r = self.targets.clone();
            assert(r@ =~= self.targets@);
            return r;
        }
        let mut hint = self.id.clone();
        hint.push(' ');
        hint.append(self.name.as_str());
        hint.push(' ');
        hint.append(self.binary.as_str());
        assert(hint@ =~= self.hint());
        let mut r: Vec<Backend> = Vec::new();
        match Backend::infer_from_text(hint.as_str()) {
            Some(b) => {
                r.push(b);
                assert(r@ =~= seq![b]);
            },
            None => {},
        }
        r
    }
}

} // verus!
