//! What holds of every start of a process, from the claim to the command line.
use vstd::prelude::*;
use vstd::string::*;

use crate::config::model::ModelConfig;
use crate::orchestrator::crud::{law_stopping_touches_one_model, RunState};
use crate::orchestrator::devices::normalized;
use crate::orchestrator::engine::{EventLevel, Orchestrator};
use crate::orchestrator::errors::LoadError;
use crate::orchestrator::eviction::Candidate;
use crate::orchestrator::loading::LoadRequest;
use crate::orchestrator::placement::targets_of;
use crate::orchestrator::starting::{
    layers, Looking, ModelFacts, PlaceStep, Placing, PortNext, Porting,
};
use crate::orchestrator::state_laws::law_stopping_ends_its_processes;
use crate::process::argv::structured_args;
use crate::process::manager::{
    law_discard_undoes_reserve, port_step, port_taken, serves, InstanceInfo, PortStep,
    Reservation,
};
use crate::text::{option_text, texts};
use crate::vram::tracker::GpuInfo;

verus! {

broadcast use vstd::string::group_string_axioms;

// ----- giving way -----

/// Every model that gives way is idle afterwards and has no instance left that
/// was started here, however many others give way with it.
pub proof fn law_what_gives_way_is_stopped(
    s: RunState,
    victims: Seq<Candidate>,
    n: int,
    id: Seq<char>,
    now: u64,
    i: int,
)
    requires
        0 <= i < n <= victims.len(),
        s.models.dom().contains(victims[i].id@),
    ensures
        ({
            let v = victims[i].id@;
            let after = s.evict_all(victims, n, id, now);
            &&& after.models.dom().contains(v)
            &&& after.models[v].state is Idle
            &&& after.models[v].pid is None
            &&& forall|x: InstanceInfo| #[trigger]
                after.instances.contains(x) ==> !(x.model_id@ == v && x.started_here)
        }),
    decreases n,
{
    let v = victims[i].id@;
    let mid = s.evict_all(victims, n - 1, id, now);
    let w = victims[n - 1].id@;
    let told = mid.note(EventLevel::Info, "evicting "@ + w + " to load "@ + id, now);
    lemma_evicting_keeps(s, victims, n - 1, id, now, v);
    law_stopping_ends_its_processes(told, w, now, 0);
    if w == v {
        law_stopping_touches_one_model(told, w, now, v.push('a'));
    } else {
        law_what_gives_way_is_stopped(s, victims, n - 1, id, now, i);
        law_stopping_touches_one_model(told, w, now, v);
        let after = s.evict_all(victims, n, id, now);
        assert forall|x: InstanceInfo| #[trigger] after.instances.contains(x) implies !(x.model_id@
            == v && x.started_here) by {
            if serves(x, v) {
                assert(told.stop(w, now).instances.contains(x) <==> told.instances.contains(x));
                assert(mid.instances.contains(x));
            }
        }
    }
}

proof fn lemma_evicting_keeps(
    s: RunState,
    victims: Seq<Candidate>,
    n: int,
    id: Seq<char>,
    now: u64,
    v: Seq<char>,
)
    requires
        0 <= n <= victims.len(),
        s.models.dom().contains(v),
    ensures
        s.evict_all(victims, n, id, now).models.dom().contains(v),
    decreases n,
{
    if n > 0 {
        lemma_evicting_keeps(s, victims, n - 1, id, now, v);
    }
}

/// The processes that are ended to make room are those of the models that give
/// way: when the turn of a model comes, each of its processes is among them.
pub proof fn law_processes_that_give_way_are_ended(
    s: RunState,
    victims: Seq<Candidate>,
    n: int,
    id: Seq<char>,
    now: u64,
    i: int,
    x: InstanceInfo,
)
    requires
        0 <= i < n <= victims.len(),
        s.evict_all(victims, i, id, now).instances.contains(x),
        x.model_id@ == victims[i].id@,
        x.started_here,
    ensures
        s.eviction_signals(victims, n, id, now).contains(x.pid),
    decreases n,
{
    let front = s.eviction_signals(victims, n - 1, id, now);
    let all = s.eviction_signals(victims, n, id, now);
    if i < n - 1 {
        law_processes_that_give_way_are_ended(s, victims, n - 1, id, now, i, x);
        let k = choose|k: int| 0 <= k < front.len() && front[k] == x.pid;
        assert(all[k] == x.pid);
    } else {
        let mid = s.evict_all(victims, i, id, now);
        let k = choose|k: int| 0 <= k < mid.instances.len() && mid.instances[k] == x;
        law_stopping_ends_its_processes(mid, victims[i].id@, now, k);
        let pids = crate::process::manager::started_pids(mid.instances, victims[i].id@);
        let j = choose|j: int| 0 <= j < pids.len() && pids[j] == x.pid;
        assert(all[front.len() + j] == x.pid);
    }
}

// ----- what is started -----

/// What is started is the model as it is configured, but for its binary and for
/// the names of its devices; its draft likewise.
pub proof fn law_a_model_starts_as_it_is_configured(
    o: &Orchestrator,
    id: Seq<char>,
    gpus: Seq<GpuInfo>,
    q: LoadRequest,
)
    requires
        o.prepares(id, gpus, Ok::<LoadRequest, LoadError>(q)),
    ensures
        ({
            let m = o.data.models@[id];
            &&& q.model == (ModelConfig {
                binary: q.model.binary,
                device: q.model.device,
                extra_args: q.model.extra_args,
                ..m
            })
            &&& q.model.extra_args@ == m.extra_args@
            &&& option_text(q.model.device) == normalized(option_text(m.device), gpus)
            &&& q.targets@ == targets_of(&m, o.data.presets@)
            &&& m.draft_model_id matches Some(d) ==> {
                let draft = o.data.models@[d@];
                &&& q.draft matches Some(x)
                &&& x == (ModelConfig { device: x.device, extra_args: x.extra_args, ..draft })
                &&& x.extra_args@ == draft.extra_args@
                &&& option_text(x.device) == normalized(option_text(draft.device), gpus)
            }
            &&& m.draft_model_id is None ==> q.draft is None
        }),
{
}

/// A model counts with the layers that its definition tells, else with those
/// that its file tells.
pub proof fn law_the_definition_tells_the_layers(p: Placing)
    ensures
        p.request.model.gguf_meta matches Some(meta) ==> p.layers() == meta.n_layers,
        p.request.model.gguf_meta is None ==> {
            &&& p.facts.read_layers matches Some(n) ==> p.layers() == n
            &&& p.facts.read_layers is None ==> p.layers() == 0
        },
        layers(p.request.model, p.facts.read_layers) is None <==> p.request.model.gguf_meta is None
            && p.facts.read_layers is None,
{
}

/// A claimed model is loading; everything else of it, and every other model,
/// stays as it is. A model that is not known cannot be claimed.
pub proof fn law_a_claimed_model_is_loading(
    before: &Orchestrator,
    after: &Orchestrator,
    id: Seq<char>,
    r: Result<(), LoadError>,
    other: Seq<char>,
)
    requires
        before.claims(after, id, r),
    ensures
        r is Ok <==> before.data.models@.dom().contains(id),
        r is Err ==> *after == *before,
        r is Ok ==> {
            let m = after.data.models@[id];
            &&& m.state is Loading
            &&& m == (ModelConfig { state: m.state, ..before.data.models@[id] })
            &&& after.process_manager == before.process_manager
            &&& after.dirty == before.dirty
        },
        other != id ==> {
            &&& after.data.models@.dom().contains(other) <==> before.data.models@.dom().contains(
                other,
            )
            &&& before.data.models@.dom().contains(other) ==> after.data.models@[other]
                == before.data.models@[other]
        },
{
}

/// The use of a model is noted with its time, and is to be stored; no other
/// model changes.
pub proof fn law_use_is_noted(
    before: &Orchestrator,
    after: &Orchestrator,
    id: Seq<char>,
    now: u64,
    other: Seq<char>,
)
    requires
        before.notes_use(after, id, now),
    ensures
        before.data.models@.dom().contains(id) ==> {
            let m = after.data.models@[id];
            &&& m.last_used == Some(now)
            &&& m == (ModelConfig { last_used: m.last_used, ..before.data.models@[id] })
            &&& after.dirty
        },
        !before.data.models@.dom().contains(id) ==> *after == *before,
        other != id && before.data.models@.dom().contains(other) ==> after.data.models@[other]
            == before.data.models@[other],
        after.process_manager == before.process_manager,
{
}

/// A start is placed on the GPUs that were reported, under the caps that are
/// set, without the memory that is promised to others.
pub proof fn law_a_start_heeds_caps_and_promises(
    o: &Orchestrator,
    l: Looking,
    gpus: Seq<GpuInfo>,
    facts: ModelFacts,
    request: LoadRequest,
    p: Placing,
)
    requires
        o.opens_placing(l, gpus, facts, request, p),
    ensures
        p.gpus@ == gpus,
        p.reserved == o.reserved_vram,
        p.gpu_cap_pct == o.settings.gpu_vram_cap_pct,
        p.display_cap_pct == o.settings.display_gpu_vram_cap_pct,
        p.id == l.id && p.extra == l.extra,
        p.request == request && p.facts == facts,
        p.results@.len() == 0 && p.second is None,
{
}

/// A start whose place is known keeps its model, its draft and its targets. The
/// size of a first instance is noted for the model and for no other; a further
/// instance changes nothing.
pub proof fn law_a_placed_start_notes_its_size(
    before: &Orchestrator,
    after: &Orchestrator,
    p: Placing,
    m: ModelConfig,
    r: Result<PlaceStep, LoadError>,
    other: Seq<char>,
)
    requires
        before.settles(after, p, m, r),
    ensures
        r matches Ok(PlaceStep::Port(s)) && s.request.model == m && s.request.draft
            == p.request.draft && s.id == p.id && s.extra == p.extra,
        p.extra ==> *after == *before,
        !p.extra && before.data.models@.dom().contains(p.id@) ==> {
            let x = after.data.models@[p.id@];
            &&& x.estimated_vram == m.estimated_vram
            &&& x == (ModelConfig {
                estimated_vram: x.estimated_vram,
                ..before.data.models@[p.id@]
            })
        },
        other != p.id@ && before.data.models@.dom().contains(other) ==> after.data.models@[other]
            == before.data.models@[other],
        after.process_manager == before.process_manager,
        after.reserved_vram == before.reserved_vram,
{
}

// ----- ports -----

/// A process is made with a port that is taken from then on, and with all the
/// arguments of its model, those of the user behind the others. Where it cannot
/// be made, the port is free again and nothing else has changed.
pub proof fn law_a_port_is_held_by_its_process(
    before: &Orchestrator,
    after: &Orchestrator,
    undone: &Orchestrator,
    s: Porting,
    n: crate::orchestrator::starting::Spawning,
    args: Vec<String>,
)
    requires
        before.takes_port(after, s, Ok::<PortNext, LoadError>(PortNext::Spawn(n, args))),
    ensures
        ({
            let m = s.request.model;
            let port = n.pending.port;
            let draft = match s.request.draft {
                Some(d) => Some(&d),
                None => None,
            };
            let pm = before.process_manager;
            &&& port_step(pm.pending@, pm.backend_port_range, s.answers@) == PortStep::UsePort(port)
            &&& port_taken(after.process_manager.pending@, port)
            &&& n.pending.model_id == m.id
            &&& texts(args@) == structured_args(&m, draft, port) + texts(m.extra_args@)
            &&& n.request == s.request && n.id == s.id && n.extra == s.extra
            &&& after.data == before.data
            &&& after.process_manager.instances == before.process_manager.instances
            &&& !port_taken(before.process_manager.pending@, port) && after.frees_port(
                undone,
                n.pending,
            ) ==> undone.process_manager.pending@ == before.process_manager.pending@
        }),
{
    let port = n.pending.port;
    let r = Reservation { model_id: s.request.model.id, port };
    let held = after.process_manager.pending@;
    assert(held == before.process_manager.pending@.push(r));
    assert(held[held.len() - 1] == r);
    if !port_taken(before.process_manager.pending@, port) {
        law_discard_undoes_reserve(before.process_manager.pending@, r);
    }
}

/// A port is tried, or the system is asked, as the search for ports says, and
/// nothing changes before one is found.
pub proof fn law_ports_are_asked_for_in_turn(
    before: &Orchestrator,
    after: &Orchestrator,
    s: Porting,
    r: Result<PortNext, LoadError>,
)
    requires
        before.takes_port(after, s, r),
    ensures
        ({
            let pm = before.process_manager;
            match port_step(pm.pending@, pm.backend_port_range, s.answers@) {
                PortStep::TryPort(port) => *after == *before && r == Ok::<_, LoadError>(
                    PortNext::Ask(s, Some(port)),
                ),
                PortStep::AskSystem => *after == *before && r == Ok::<_, LoadError>(
                    PortNext::Ask(s, None),
                ),
                PortStep::NoFreePort => *after == *before && r is Err,
                PortStep::UsePort(_) => r matches Ok(PortNext::Spawn(_, _)),
            }
        }),
{
}

} // verus!
