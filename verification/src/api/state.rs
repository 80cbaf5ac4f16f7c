//! The state of the router as it is told to clients.
use vstd::prelude::*;
use vstd::string::*;

use crate::config::model::{clone_texts, ModelConfig, ModelState, WeightsFormat};
use crate::process::manager::{ModelRuntime, NamedRuntime};
use crate::table::Table;

verus! {

broadcast use vstd::string::group_string_axioms;

/// A model as it is told to clients.
#[derive(Debug)]
pub struct ModelResponse {
    pub id: String,
    pub name: String,
    pub profile: Option<String>,
    pub weights_format: &'static str,
    pub binary: String,
    pub model_path: String,
    pub context: u32,
    pub extra_args: Vec<String>,
    pub state: &'static str,
    pub state_message: Option<String>,
    pub pid: Option<i32>,
    pub estimated_vram: u64,
    pub last_used: Option<u64>,
    pub instances: usize,
    pub pending_instances: usize,
    pub active_requests: usize,
}

/// The name of a state.
pub open spec fn state_name(s: ModelState) -> Seq<char> {
    match s {
        ModelState::Idle => "idle"@,
        ModelState::Loading => "loading"@,
        ModelState::Running => "running"@,
        ModelState::Error(_) => "error"@,
    }
}

/// The name of a format.
pub open spec fn format_name(f: WeightsFormat) -> Seq<char> {
    match f {
        WeightsFormat::Gguf => "gguf"@,
        WeightsFormat::Safetensors => "safetensors"@,
    }
}

/// The runtime of a model, or an empty one.
pub open spec fn runtime_in(t: Map<Seq<char>, NamedRuntime>, id: Seq<char>) -> ModelRuntime {
    if t.dom().contains(id) {
        t[id].runtime
    } else {
        ModelRuntime { instances: 0, pending: 0, active: 0 }
    }
}

/// The runtime of a model, or an empty one.
pub fn runtime_of(t: &Table<NamedRuntime>, id: &str) -> (r: ModelRuntime)
    requires
        t.wf(),
    ensures
        r == runtime_in(t@, id@),
{
    match t.get(id) {
        Some(n) => n.runtime,
        None => ModelRuntime { instances: 0, pending: 0, active: 0 },
    }
}

/// Whether a response tells of a model with that runtime.
pub open spec fn tells(r: ModelResponse, m: ModelConfig, rt: ModelRuntime) -> bool {
    &&& r.id == m.id
    &&& r.name == m.name
    &&& r.profile == m.profile
    &&& r.weights_format@ == format_name(m.weights_format)
    &&& r.binary == m.binary
    &&& r.model_path == m.model_path
    &&& r.context == m.context
    &&& r.extra_args@ == m.extra_args@
    &&& r.state@ == state_name(m.state)
    &&& r.state_message == (match m.state {
        ModelState::Error(msg) => Some(msg),
        _ => None,
    })
    &&& r.pid == m.pid
    &&& r.estimated_vram == m.estimated_vram
    &&& r.last_used == m.last_used
    &&& r.instances == rt.instances
    &&& r.pending_instances == rt.pending
    &&& r.active_requests == rt.active
}

/// A model as it is told to clients.
pub fn model_response(m: &ModelConfig, rt: ModelRuntime) -> (r: ModelResponse)
    ensures
        tells(r, *m, rt),
{
    let (state, state_message): (&'static str, Option<String>) = match &m.state {
        ModelState::Idle => ("idle", None),
        ModelState::Loading => ("loading", None),
        ModelState::Running => ("running", None),
        ModelState::Error(msg) => ("error", Some(msg.clone())),
    };
    let weights_format: &'static str = match m.weights_format {
        WeightsFormat::Gguf => "gguf",
        WeightsFormat::Safetensors => "safetensors",
    };
    ModelResponse {
        id: m.id.clone(),
        name: m.name.clone(),
        profile: m.profile.clone(),
        weights_format,
        binary: m.binary.clone(),
        model_path: m.model_path.clone(),
        context: m.context,
        extra_args: clone_texts(&m.extra_args),
        state,
        state_message,
        pid: m.pid,
        estimated_vram: m.estimated_vram,
        last_used: m.last_used,
        instances: rt.instances,
        pending_instances: rt.pending,
        active_requests: rt.active,
    }
}

/// The models as they are told to clients.
pub fn model_responses(models: &Vec<ModelConfig>, runtimes: &Table<NamedRuntime>) -> (r: Vec<
    ModelResponse,
>)
    requires
        runtimes.wf(),
    ensures
        r@.len() == models@.len(),
        forall|i: int|
            0 <= i < models@.len() ==> tells(
                #[trigger] r@[i],
                models@[i],
                runtime_in(runtimes@, models@[i].id@),
            ),
{
    let mut r: Vec<ModelResponse> = Vec::new();
    let mut i: usize = 0;
    while i < models.len()
        invariant
            i <= models@.len(),
            runtimes.wf(),
            r@.len() == i,
            forall|j: int|
                0 <= j < i ==> tells(
                    #[trigger] r@[j],
                    models@[j],
                    runtime_in(runtimes@, models@[j].id@),
                ),
        decreases models@.len() - i,
    {
        let rt = runtime_of(runtimes, models[i].id.as_str());
        r.push(model_response(&models[i], rt));
        i += 1;
    }
    r
}

} // verus!
