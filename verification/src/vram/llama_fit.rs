//! What llama.cpp's fit probe reports.
use vstd::prelude::*;
use vstd::string::*;

use crate::config::model::ModelConfig;
use crate::text::{
    same_ignoring_case, same_text_ignoring_case, split_on, split_text, texts, trim, trim_text,
};

verus! {

broadcast use vstd::string::group_string_axioms;

/// The arguments that the probe settled on.
#[derive(Debug)]
pub struct LlamaFittedArgs {
    pub context: Option<u32>,
    /// Negative for all layers.
    pub n_gpu_layers: Option<i32>,
    pub tensor_split: Option<String>,
    pub override_tensor: Option<String>,
}

/// The outcome of a probe: fitted arguments and the GPU memory that they use.
#[derive(Debug)]
pub struct LlamaFitSizing {
    pub fitted: LlamaFittedArgs,
    pub device_vram: u64,
}

impl Clone for LlamaFittedArgs {
    fn clone(&self) -> (r: Self)
        ensures
            r == *self,
    {
        LlamaFittedArgs {
            context: self.context,
            n_gpu_layers: self.n_gpu_layers,
            tensor_split: self.tensor_split.clone(),
            override_tensor: self.override_tensor.clone(),
        }
    }
}

impl Clone for LlamaFitSizing {
    fn clone(&self) -> (r: Self)
        ensures
            r == *self,
    {
        LlamaFitSizing { fitted: self.fitted.clone(), device_vram: self.device_vram }
    }
}

/// Whether one entry of an override list sends tensors to the CPU: what stands
/// behind its last equals sign names the CPU.
pub open spec fn entry_names_cpu(entry: Seq<char>) -> bool {
    let parts = split_on(entry, '=');
    parts.len() >= 2 && same_ignoring_case(trim(parts.last()), "cpu"@)
}

/// Whether an override list sends any tensor to the CPU.
pub open spec fn names_cpu(value: Seq<char>) -> bool {
    exists|i: int|
        0 <= i < split_on(value, ',').len() && entry_names_cpu(#[trigger] split_on(value, ',')[i])
}

impl LlamaFitSizing {
    /// Whether the fitted arguments send any tensor to the CPU.
    pub open spec fn uses_cpu_override(&self) -> bool {
        self.fitted.override_tensor is Some && names_cpu(self.fitted.override_tensor->0@)
    }

    /// Whether everything lies on GPUs. Without a known number of layers, only
    /// overrides tell.
    pub open spec fn fully_on_gpu(&self, n_layers: u32) -> bool {
        &&& !self.uses_cpu_override()
        &&& n_layers == 0 || match self.fitted.n_gpu_layers {
            Some(n) => n < 0 || n >= n_layers,
            None => true,
        }
    }
}

/// Whether an override list sends any tensor to the CPU.
pub fn override_tensor_uses_cpu(value: &str) -> (r: bool)
    ensures
        r == names_cpu(value@),
{
    let entries = split_text(value, ',');
    let ghost all = split_on(value@, ',');
    let mut i: usize = 0;
    while i < entries.len()
        invariant
            i <= entries@.len(),
            texts(entries@) == all,
            all == split_on(value@, ','),
            forall|j: int| 0 <= j < i ==> !entry_names_cpu(#[trigger] all[j]),
        decreases entries@.len() - i,
    {
        assert(all[i as int] == entries@[i as int]@);
        let parts = split_text(entries[i].as_str(), '=');
        assert(texts(parts@).len() == parts@.len());
        if parts.len() >= 2 {
            assert(texts(parts@).last() == parts@[parts@.len() - 1]@);
            let target = trim_text(parts[parts.len() - 1].as_str());
            if same_text_ignoring_case(target.as_str(), "cpu") {
                assert(entry_names_cpu(all[i as int]));
                return true;
            }
        }
        i += 1;
    }
    assert(entries@.len() == all.len());
    false
}

/// Whether the fitted arguments send any tensor to the CPU.
pub fn fitted_uses_cpu_override(sizing: &LlamaFitSizing) -> (r: bool)
    ensures
        r == sizing.uses_cpu_override(),
{
    match &sizing.fitted.override_tensor {
        Some(v) => override_tensor_uses_cpu(v.as_str()),
        None => false,
    }
}

/// Whether everything lies on GPUs.
pub fn fitted_fully_on_gpu(sizing: &LlamaFitSizing, n_layers: u32) -> (r: bool)
    ensures
        r == sizing.fully_on_gpu(n_layers),
{
    if fitted_uses_cpu_override(sizing) {
        return false;
    }
    if n_layers == 0 {
        return true;
    }
    match sizing.fitted.n_gpu_layers {
        Some(n) => n < 0 || n as u32 >= n_layers,
        None => true,
    }
}

/// The model with the fitted arguments in place. A negative number of layers
/// stands for all and is left to the server's default.
pub open spec fn with_sizing(m: ModelConfig, s: LlamaFitSizing) -> ModelConfig {
    ModelConfig {
        context: match s.fitted.context {
            Some(c) => c,
            None => m.context,
        },
        estimated_vram: s.device_vram,
        n_gpu_layers: match s.fitted.n_gpu_layers {
            Some(n) => if n >= 0 {
                Some(n as u32)
            } else {
                None
            },
            None => None,
        },
        tensor_split: s.fitted.tensor_split,
        override_tensor: s.fitted.override_tensor,
        fit_target: None,
        ..m
    }
}

/// Puts the fitted arguments into the model.
pub fn apply_sizing_to_model(m: &mut ModelConfig, s: &LlamaFitSizing)
    ensures
        *final(m) == with_sizing(*old(m), *s),
{
    match s.fitted.context {
        Some(c) => {
            m.context = c;
        },
        None => {},
    }
    m.estimated_vram = s.device_vram;
    m.n_gpu_layers = match s.fitted.n_gpu_layers {
        Some(n) => if n >= 0 {
            Some(n as u32)
        } else {
            None
        },
        None => None,
    };
    m.tensor_split = s.fitted.tensor_split.clone();
    m.override_tensor = s.fitted.override_tensor.clone();
    m.fit_target = None;
}

} // verus!
