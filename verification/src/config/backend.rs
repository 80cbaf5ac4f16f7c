//! GGML compute backends.
use vstd::prelude::*;
use vstd::string::*;

use crate::text::{contains_text, has_infix, lower, to_lower};

verus! {

broadcast use vstd::string::group_string_axioms;

/// A compute API. Every GPU is tagged with the backends that can drive it, and
/// every binary preset targets some. Each backend numbers the devices in its
/// own order.
#[derive(Debug, Clone, Copy, PartialEq, Eq, PartialOrd, Ord, Hash, Structural)]
pub enum Backend {
    Vulkan,
    Cuda,
    Rocm,
    Sycl,
}

/// The backend that a text names, the first that applies in the order ROCm,
/// CUDA, SYCL, Vulkan.
pub open spec fn backend_named_in(text: Seq<char>) -> Option<Backend> {
    let t = lower(text);
    if has_infix(t, "rocm"@) || has_infix(t, "hip"@) {
        Some(Backend::Rocm)
    } else if has_infix(t, "cuda"@) || has_infix(t, "nvidia"@) {
        Some(Backend::Cuda)
    } else if has_infix(t, "sycl"@) || has_infix(t, "oneapi"@) {
        Some(Backend::Sycl)
    } else if has_infix(t, "vulkan"@) {
        Some(Backend::Vulkan)
    } else {
        None
    }
}

impl Backend {
    /// The tag of the backend in small letters.
    pub open spec fn tag(self) -> Seq<char> {
        match self {
            Backend::Vulkan => "vulkan"@,
            Backend::Cuda => "cuda"@,
            Backend::Rocm => "rocm"@,
            Backend::Sycl => "sycl"@,
        }
    }

    /// What device names of the backend begin with.
    pub open spec fn prefix(self) -> Seq<char> {
        match self {
            Backend::Vulkan => "Vulkan"@,
            Backend::Cuda => "CUDA"@,
            Backend::Rocm => "ROCm"@,
            Backend::Sycl => "SYCL"@,
        }
    }

    /// All backends, in a stable order.
    pub fn all() -> (r: Vec<Backend>)
        ensures
            r@ == seq![Backend::Vulkan, Backend::Cuda, Backend::Rocm, Backend::Sycl],
    {
        vec![Backend::Vulkan, Backend::Cuda, Backend::Rocm, Backend::Sycl]
    }

    /// The tag of the backend in small letters.
    pub fn as_str(self) -> (r: &'static str)
        ensures
            r@ == self.tag(),
    {
        match self {
            Backend::Vulkan => "vulkan",
            Backend::Cuda => "cuda",
            Backend::Rocm => "rocm",
            Backend::Sycl => "sycl",
        }
    }

    /// What device names of the backend begin with.
    pub fn device_prefix(self) -> (r: &'static str)
        ensures
            r@ == self.prefix(),
    {
        match self {
            Backend::Vulkan => "Vulkan",
            Backend::Cuda => "CUDA",
            Backend::Rocm => "ROCm",
            Backend::Sycl => "SYCL",
        }
    }

    /// A guess at the backend of a binary from its id, name or path.
    pub fn infer_from_text(text: &str) -> (r: Option<Backend>)
        ensures
            r == backend_named_in(text@),
    {
        let t = to_lower(text);
        let t = t.as_str();
        if contains_text(t, "rocm") || contains_text(t, "hip") {
            Some(Backend::Rocm)
        } else if contains_text(t, "cuda") || contains_text(t, "nvidia") {
            Some(Backend::Cuda)
        } else if contains_text(t, "sycl") || contains_text(t, "oneapi") {
            Some(Backend::Sycl)
        } else if contains_text(t, "vulkan") {
            Some(Backend::Vulkan)
        } else {
            None
        }
    }
}

/// A set of backends.
#[derive(Debug, Clone, Copy, PartialEq, Eq, Structural)]
pub struct BackendTags {
    pub vulkan: bool,
    pub cuda: bool,
    pub rocm: bool,
    pub sycl: bool,
}

impl Default for BackendTags {
    fn default() -> (r: Self)
        ensures
            forall|b: Backend| !r.has(b),
    {
        BackendTags { vulkan: false, cuda: false, rocm: false, sycl: false }
    }
}

impl BackendTags {
    /// Whether the backend is in the set.
    pub open spec fn has(&self, b: Backend) -> bool {
        match b {
            Backend::Vulkan => self.vulkan,
            Backend::Cuda => self.cuda,
            Backend::Rocm => self.rocm,
            Backend::Sycl => self.sycl,
        }
    }

    /// The backends in the set, in their stable order.
    pub open spec fn members(&self) -> Seq<Backend> {
        seq![Backend::Vulkan, Backend::Cuda, Backend::Rocm, Backend::Sycl].filter(
            |b: Backend| self.has(b),
        )
    }

    /// Whether the backend is in the set.
    pub fn contains(&self, b: Backend) -> (r: bool)
        ensures
            r == self.has(b),
    {
        match b {
            Backend::Vulkan => self.vulkan,
            Backend::Cuda => self.cuda,
            Backend::Rocm => self.rocm,
            Backend::Sycl => self.sycl,
        }
    }

    /// The set with one backend more.
    pub fn with(&self, b: Backend) -> (r: BackendTags)
        ensures
            forall|x: Backend| r.has(x) == (self.has(x) || x == b),
    {
        match b {
            Backend::Vulkan => BackendTags { vulkan: true, ..*self },
            Backend::Cuda => BackendTags { cuda: true, ..*self },
            Backend::Rocm => BackendTags { rocm: true, ..*self },
            Backend::Sycl => BackendTags { sycl: true, ..*self },
        }
    }

    /// The backends in the set, in their stable order.
    pub fn list(&self) -> (r: Vec<Backend>)
        ensures
            r@ == self.members(),
    {
        let all = Backend::all();
        let ghost p = |b: Backend| self.has(b);
        let mut r: Vec<Backend> = Vec::new();
        let mut i: usize = 0;
        while i < all.len()
            invariant
                i <= all@.len(),
                p == (|b: Backend| self.has(b)),
                r@ == all@.take(i as int).filter(p),
            decreases all@.len() - i,
        {
            proof {
                reveal(Seq::filter);
                assert(all@.take(i + 1).drop_last() =~= all@.take(i as int));
            }
            if self.contains(all[i]) {
                r.push(all[i]);
            }
            i += 1;
        }
        assert(all@.take(i as int) =~= all@);
        r
    }
}

} // verus!
