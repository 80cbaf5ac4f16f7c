//! What holds of every load.
use vstd::prelude::*;
use vstd::string::*;

use crate::config::model::ModelConfig;
use crate::orchestrator::crud::{law_stopping_touches_one_model, RunState};
use crate::orchestrator::engine::Orchestrator;
use crate::orchestrator::errors::LoadError;
use crate::orchestrator::eviction::{
    law_no_more_is_stopped_than_needed, law_only_evictable_models_are_stopped, names_hold, to_stop,
    Candidate,
};
use crate::orchestrator::loading::{first_decision, Acquire, LoadRequest, ScaleStep};
use crate::orchestrator::search::{PlaceOutcome, PlacementStep};
use crate::orchestrator::starting::{PlaceStep, Placing};
use crate::process::manager::{
    is_idle, lemma_first_idle, reserved_for, served_by, serves, InstanceInfo, PendingChild,
    RequestGuard, Reservation,
};

verus! {

broadcast use vstd::string::group_string_axioms;

// ----- room -----

/// A first placement starts at once exactly where the memory that may still be
/// allocated covers the need, or where a model that is not fitted has room.
/// Wherever less is free than is needed, room is made first, counted from
/// exactly what is free; and the model must fit afterwards exactly where it had
/// no place at all.
pub proof fn law_room_is_made_where_memory_is_short(outcome: PlaceOutcome, needed: u64)
    ensures
        outcome matches PlaceOutcome::Placed { free, .. } && free >= needed ==> first_decision(
            outcome,
            needed,
        ) is Start,
        outcome is Fits ==> first_decision(outcome, needed) is Start,
        outcome matches PlaceOutcome::Placed { free, .. } && free < needed ==> {
            &&& first_decision(outcome, needed) is MakeRoom
            &&& first_decision(outcome, needed)->free == outcome->Placed_free
            &&& !first_decision(outcome, needed)->must_fit
        },
        outcome is DoesNotFit ==> {
            &&& first_decision(outcome, needed) is MakeRoom
            &&& first_decision(outcome, needed)->free == outcome->DoesNotFit_free
            &&& first_decision(outcome, needed)->must_fit
        },
{
}

/// The first placement of a model is started from without more ado only where
/// nothing is missing. Else idle models give way, for as much as the model
/// needs beyond what is free, before it is placed once more.
pub proof fn law_a_load_does_not_start_short_of_memory(
    before: &Orchestrator,
    after: &Orchestrator,
    p: Placing,
    m: ModelConfig,
    outcome: PlaceOutcome,
    scores: Seq<u64>,
    now: u64,
    r: Result<PlaceStep, LoadError>,
)
    requires
        before.takes_step(after, p, m, PlacementStep::Done(outcome), scores, now, r),
        !p.extra,
        p.second is None,
    ensures
        r is Ok,
        match outcome {
            PlaceOutcome::Fits => r->Ok_0 is Port,
            PlaceOutcome::Placed { free, .. } => if free >= m.estimated_vram {
                r->Ok_0 is Port
            } else {
                r matches Ok(PlaceStep::Clear(c, pids)) && c.placing.second == Some(false)
                    && before.makes_room(
                    after,
                    p.id@,
                    scores,
                    free as int,
                    m.estimated_vram as int,
                    now,
                    pids@,
                )
            },
            PlaceOutcome::DoesNotFit { free } => {
                r matches Ok(PlaceStep::Clear(c, pids)) && c.placing.second == Some(true)
                    && before.makes_room(
                    after,
                    p.id@,
                    scores,
                    free as int,
                    m.estimated_vram as int,
                    now,
                    pids@,
                )
            },
        },
        r matches Ok(PlaceStep::Port(s)) ==> {
            &&& s.request.model == m
            &&& before.data.models@.dom().contains(p.id@) ==> after.data.models@[p.id@].estimated_vram
                == m.estimated_vram
        },
{
}

/// After room was made a model is refused only where it has no place and must
/// fit; it is then told what it needs and what is free.
pub proof fn law_a_load_is_refused_only_without_room(
    before: &Orchestrator,
    after: &Orchestrator,
    p: Placing,
    m: ModelConfig,
    outcome: PlaceOutcome,
    scores: Seq<u64>,
    now: u64,
    r: Result<PlaceStep, LoadError>,
)
    requires
        before.takes_step(after, p, m, PlacementStep::Done(outcome), scores, now, r),
        !p.extra,
        p.second is Some,
    ensures
        r is Err <==> (outcome is DoesNotFit && p.second == Some(true)),
        r matches Err(e) ==> {
            &&& *after == *before
            &&& e matches LoadError::InsufficientVram { model, needed, free }
            &&& model@ == p.id@
            &&& needed == m.estimated_vram
            &&& free == outcome->DoesNotFit_free
        },
        r is Ok ==> r->Ok_0 is Port,
{
}

/// A further instance is started only where it lies wholly on GPUs or is known
/// to have room, and no model ever gives way for it.
pub proof fn law_a_further_instance_takes_nothing_away(
    before: &Orchestrator,
    after: &Orchestrator,
    p: Placing,
    m: ModelConfig,
    step: PlacementStep,
    scores: Seq<u64>,
    now: u64,
    r: Result<PlaceStep, LoadError>,
)
    requires
        before.takes_step(after, p, m, step, scores, now, r),
        p.extra,
    ensures
        *after == *before,
        !(r matches Ok(PlaceStep::Clear(_, _))),
        (r matches Ok(PlaceStep::Port(_))) <==> (step matches PlacementStep::Done(o) && (o is Fits || (
        o is Placed && o->fully_on_gpu))),
{
}

proof fn lemma_evicting_others(
    s: RunState,
    victims: Seq<Candidate>,
    n: int,
    id: Seq<char>,
    now: u64,
    other: Seq<char>,
)
    requires
        0 <= n <= victims.len(),
        forall|i: int| 0 <= i < victims.len() ==> (#[trigger] victims[i]).id@ != other,
    ensures
        s.models.dom().contains(other) ==> {
            &&& s.evict_all(victims, n, id, now).models.dom().contains(other)
            &&& s.evict_all(victims, n, id, now).models[other] == s.models[other]
        },
        forall|i: InstanceInfo|
            serves(i, other) ==> (#[trigger] s.evict_all(victims, n, id, now).instances.contains(i)
                <==> s.instances.contains(i)),
    decreases n,
{
    if n > 0 {
        lemma_evicting_others(s, victims, n - 1, id, now, other);
        let mid = s.evict_all(victims, n - 1, id, now);
        let v = victims[n - 1].id@;
        let told = mid.note(
            crate::orchestrator::engine::EventLevel::Info,
            "evicting "@ + v + " to load "@ + id,
            now,
        );
        law_stopping_touches_one_model(told, v, now, other);
        assert forall|i: InstanceInfo| serves(i, other) implies (#[trigger] s.evict_all(
            victims,
            n,
            id,
            now,
        ).instances.contains(i) <==> s.instances.contains(i)) by {
            assert(told.stop(v, now).instances.contains(i) <==> told.instances.contains(i));
            assert(mid.instances.contains(i) <==> s.instances.contains(i));
        }
    }
}

/// A model with a request in flight, or that does not run, or whose memory is
/// not known, keeps its state and its instances when room is made.
pub proof fn law_busy_models_keep_running(
    before: &Orchestrator,
    after: &Orchestrator,
    id: Seq<char>,
    scores: Seq<u64>,
    free: int,
    needed: int,
    now: u64,
    pids: Seq<i32>,
    other: Seq<char>,
)
    requires
        before.wf(),
        before.makes_room(after, id, scores, free, needed, now, pids),
        scores.len() == before.data.models.records().len(),
        before.data.models@.dom().contains(other),
        ({
            let m = before.data.models@[other];
            ||| exists|i: int|
                0 <= i < before.process_manager.instances@.len() && serves(
                    #[trigger] before.process_manager.instances@[i],
                    other,
                ) && before.process_manager.instances@[i].active > 0
            ||| !(m.state is Running)
            ||| m.estimated_vram == 0
        }),
    ensures
        after.data.models@.dom().contains(other),
        after.data.models@[other] == before.data.models@[other],
        forall|i: InstanceInfo|
            serves(i, other) ==> (#[trigger] after.process_manager.instances@.contains(i)
                <==> before.process_manager.instances@.contains(i)),
{
    let models = before.data.models.records();
    let idle = choose|idle: Seq<String>|
        {
            let victims = #[trigger] to_stop(models, scores, free, needed, idle);
            let n = victims.len() as int;
            &&& forall|m: Seq<char>| #[trigger]
                names_hold(idle, m) == is_idle(before.process_manager.instances@, m)
            &&& after.run_state() == before.run_state().evict_all(victims, n, id, now)
            &&& pids == before.run_state().eviction_signals(victims, n, id, now)
            &&& after.dirty == (before.dirty || n > 0)
        };
    let victims = to_stop(models, scores, free, needed, idle);
    assert forall|i: int| 0 <= i < victims.len() implies (#[trigger] victims[i]).id@ != other by {
        law_only_evictable_models_are_stopped(models, scores, free, needed, idle, i);
        let j = choose|j: int|
            0 <= j < models.len() && crate::orchestrator::eviction::evictable(
                #[trigger] models[j],
                idle,
            ) && models[j].id == victims[i].id;
        if victims[i].id@ == other {
            crate::table::lemma_position(models, j);
            assert(before.data.models@[other] == models[j]);
            assert(names_hold(idle, other));
            assert(is_idle(before.process_manager.instances@, other));
        }
    }
    lemma_evicting_others(
        before.run_state(),
        victims,
        victims.len() as int,
        id,
        now,
        other,
    );
    assert(after.run_state().models == after.data.models@);
    assert(after.run_state().instances == after.process_manager.instances@);
}

/// Where enough is free, no model gives way and no process is ended.
pub proof fn law_nothing_gives_way_where_enough_is_free(
    before: &Orchestrator,
    after: &Orchestrator,
    id: Seq<char>,
    scores: Seq<u64>,
    free: int,
    needed: int,
    now: u64,
    pids: Seq<i32>,
)
    requires
        before.makes_room(after, id, scores, free, needed, now, pids),
        free >= needed,
    ensures
        after.run_state() == before.run_state(),
        pids.len() == 0,
        after.dirty == before.dirty,
{
    let models = before.data.models.records();
    let idle = choose|idle: Seq<String>|
        {
            let victims = #[trigger] to_stop(models, scores, free, needed, idle);
            let n = victims.len() as int;
            &&& forall|m: Seq<char>| #[trigger]
                names_hold(idle, m) == is_idle(before.process_manager.instances@, m)
            &&& after.run_state() == before.run_state().evict_all(victims, n, id, now)
            &&& pids == before.run_state().eviction_signals(victims, n, id, now)
            &&& after.dirty == (before.dirty || n > 0)
        };
    law_no_more_is_stopped_than_needed(models, scores, free, needed, idle);
}

// ----- instances -----

/// A request that looks for an idle instance gets one exactly where the model
/// has one: it counts on that instance and on no other. It finds the model busy
/// where every instance has a request, and absent where there is none.
pub proof fn law_a_request_takes_an_idle_instance(
    before: &Orchestrator,
    after: &Orchestrator,
    id: Seq<char>,
    r: Acquire,
)
    requires
        before.acquires(after, id, r),
    ensures
        ({
            let s = before.process_manager.instances@;
            let t = after.process_manager.instances@;
            match r {
                Acquire::Ready(g) => exists|i: int|
                    {
                        &&& 0 <= i < s.len()
                        &&& serves(#[trigger] s[i], id)
                        &&& s[i].active == 0
                        &&& t.len() == s.len()
                        &&& t[i].active == 1
                        &&& g.serial == s[i].serial && g.port == s[i].port && g.pid == s[i].pid
                        &&& t[i] == (InstanceInfo { active: t[i].active, ..s[i] })
                        &&& forall|j: int| 0 <= j < s.len() && j != i ==> #[trigger] t[j] == s[j]
                    },
                Acquire::Busy => {
                    &&& t == s
                    &&& exists|i: int| 0 <= i < s.len() && serves(#[trigger] s[i], id)
                    &&& forall|i: int|
                        0 <= i < s.len() && serves(#[trigger] s[i], id) ==> s[i].active > 0
                },
                Acquire::Absent => {
                    &&& t == s
                    &&& forall|i: int| 0 <= i < s.len() ==> !serves(#[trigger] s[i], id)
                },
            }
        }),
{
    let s = before.process_manager.instances@;
    lemma_first_idle(s, id, 0);
    lemma_served(s, id, s.len() as int);
}

proof fn lemma_served(s: Seq<InstanceInfo>, id: Seq<char>, n: int)
    requires
        0 <= n <= s.len(),
    ensures
        served_by(s, id, n) > 0 <==> exists|i: int| 0 <= i < n && serves(#[trigger] s[i], id),
    decreases n,
{
    if n > 0 {
        lemma_served(s, id, n - 1);
        if exists|i: int| 0 <= i < n - 1 && serves(#[trigger] s[i], id) {
            let i = choose|i: int| 0 <= i < n - 1 && serves(#[trigger] s[i], id);
            assert(0 <= i < n && serves(s[i], id));
        }
    }
}

/// A model grows by an instance only while it has fewer than it may have,
/// counted with those that are coming up, and only where none of them is idle.
pub proof fn law_a_model_grows_up_to_its_limit(
    before: &Orchestrator,
    after: &Orchestrator,
    id: Seq<char>,
    r: ScaleStep,
)
    requires
        before.begins_scale(after, id, r),
    ensures
        ({
            let s = before.process_manager.instances@;
            let p = before.process_manager.pending@;
            let idle = exists|i: int|
                0 <= i < s.len() && serves(#[trigger] s[i], id) && s[i].active == 0;
            let total = served_by(s, id, s.len() as int) + reserved_for(p, id, p.len() as int);
            &&& r is Ready <==> idle
            &&& !idle ==> after.process_manager.instances@ == s
            &&& r is MayGrow ==> total < before.max_instances_per_model
            &&& r is AtLimit ==> total >= before.max_instances_per_model || total > usize::MAX
        }),
{
    lemma_first_idle(before.process_manager.instances@, id, 0);
}

/// How many instances and pending processes a model has is counted one by one.
pub proof fn law_instances_are_counted(
    s: Seq<InstanceInfo>,
    p: Seq<Reservation>,
    i: InstanceInfo,
    r: Reservation,
    id: Seq<char>,
)
    ensures
        served_by(Seq::empty(), id, 0) == 0,
        served_by(s.push(i), id, s.len() as int + 1) == served_by(s, id, s.len() as int) + (
        if i.model_id@ == id {
            1int
        } else {
            0
        }),
        reserved_for(Seq::empty(), id, 0) == 0,
        reserved_for(p.push(r), id, p.len() as int + 1) == reserved_for(p, id, p.len() as int) + (
        if r.model_id@ == id {
            1int
        } else {
            0
        }),
{
    lemma_served_prefix(s, i, id, s.len() as int);
    lemma_reserved_prefix(p, r, id, p.len() as int);
}

proof fn lemma_served_prefix(s: Seq<InstanceInfo>, x: InstanceInfo, id: Seq<char>, n: int)
    requires
        0 <= n <= s.len(),
    ensures
        served_by(s.push(x), id, n) == served_by(s, id, n),
    decreases n,
{
    if n > 0 {
        lemma_served_prefix(s, x, id, n - 1);
    }
}

proof fn lemma_reserved_prefix(s: Seq<Reservation>, x: Reservation, id: Seq<char>, n: int)
    requires
        0 <= n <= s.len(),
    ensures
        reserved_for(s.push(x), id, n) == reserved_for(s, id, n),
    decreases n,
{
    if n > 0 {
        lemma_reserved_prefix(s, x, id, n - 1);
    }
}

// ----- what is loaded -----

/// A load is prepared exactly where the model is known, its binary is known and
/// named, and its draft is known. It runs the binary of its preset where it has
/// one, and its own binary else.
pub proof fn law_a_load_needs_model_binary_and_draft(
    o: &Orchestrator,
    id: Seq<char>,
    gpus: Seq<crate::vram::tracker::GpuInfo>,
    r: Result<LoadRequest, LoadError>,
)
    requires
        o.prepares(id, gpus, r),
    ensures
        !o.data.models@.dom().contains(id) <==> (r matches Err(LoadError::ModelNotFound(_))),
        o.data.models@.dom().contains(id) ==> {
            let m = o.data.models@[id];
            let preset_known = m.binary_preset is None || o.data.presets@.dom().contains(
                m.binary_preset->0@,
            );
            let binary = match m.binary_preset {
                Some(p) => o.data.presets@[p@].binary@,
                None => m.binary@,
            };
            let draft_known = m.draft_model_id is None || o.data.models@.dom().contains(
                m.draft_model_id->0@,
            );
            &&& r is Ok <==> preset_known && binary.len() > 0 && draft_known
            &&& !preset_known <==> (r matches Err(LoadError::PresetNotFound(_)))
            &&& (preset_known && binary.len() == 0) <==> (r matches Err(LoadError::NoBinary(_)))
            &&& (r matches Ok(q) ==> {
                &&& q.model.binary@ == binary
                &&& q.model.id == m.id
                &&& q.model.model_path == m.model_path
                &&& q.model.context == m.context
                &&& q.model.estimated_vram == m.estimated_vram
                &&& q.model.extra_args@ == m.extra_args@
                &&& q.draft is Some <==> m.draft_model_id is Some
                &&& q.draft is Some ==> q.draft->0.model_path
                    == o.data.models@[m.draft_model_id->0@].model_path
            })
        },
{
}

// ----- processes -----

/// While a process comes up its memory is set aside, and it is free again once
/// the process serves or was dropped.
pub proof fn law_memory_is_set_aside_until_it_is_held(
    before: &Orchestrator,
    started: &Orchestrator,
    mid: &Orchestrator,
    after: &Orchestrator,
    id: Seq<char>,
    pending: PendingChild,
    pid: i32,
    vram: u64,
    extra: bool,
    e: crate::process::manager::HealthCheckError,
    now: u64,
    then: u64,
    g: RequestGuard,
    r: LoadError,
)
    requires
        before.sets_aside(started, id, pending.port, vram, extra, now),
        mid.reserved_vram == started.reserved_vram,
        mid.puts_in_service(after, id, pending, pid, vram, extra, then, g) || mid.drops_child(
            after,
            id,
            pending,
            vram,
            extra,
            e,
            then,
            r,
        ),
    ensures
        after.reserved_vram == before.reserved_vram,
        before.reserved_vram + vram <= u64::MAX ==> started.reserved_vram == before.reserved_vram
            + vram,
{
    crate::orchestrator::loading::law_reservation_is_given_back(before.reserved_vram, vram);
}

/// A process that has come up serves its model at its port, with the request
/// that waited for it; the model runs. Nothing else that serves changes.
pub proof fn law_a_process_that_came_up_serves(
    before: &Orchestrator,
    after: &Orchestrator,
    id: Seq<char>,
    pending: PendingChild,
    pid: i32,
    vram: u64,
    extra: bool,
    now: u64,
    g: RequestGuard,
)
    requires
        before.puts_in_service(after, id, pending, pid, vram, extra, now, g),
    ensures
        ({
            let s = before.process_manager.instances@;
            let t = after.process_manager.instances@;
            &&& t.len() == s.len() + 1
            &&& t.drop_last() == s
            &&& t.last().model_id == pending.model_id
            &&& t.last().port == pending.port && t.last().pid == pid
            &&& t.last().active == 1
            &&& t.last().uses_gpu == pending.uses_gpu
            &&& t.last().started_here
            &&& g.serial == t.last().serial && g.port == pending.port && g.pid == pid
            &&& before.data.models@.dom().contains(id) ==> {
                &&& after.data.models@[id].state is Running
                &&& after.data.models@[id].pid == Some(pid)
                &&& after.data.models@[id].last_used == Some(now)
            }
            &&& forall|x: Seq<char>|
                x != id && #[trigger] before.data.models@.dom().contains(x)
                    ==> after.data.models@.dom().contains(x) && after.data.models@[x]
                    == before.data.models@[x]
            &&& after.dirty
        }),
{
    assert(after.run_state().instances.drop_last() =~= before.process_manager.instances@);
    assert(after.run_state().instances == after.process_manager.instances@);
    assert(after.run_state().models == after.data.models@);
}

/// A load that found no room waits only while some request could still end, and
/// no longer than it may in all.
pub proof fn law_a_load_waits_for_requests_to_end(o: &Orchestrator, elapsed_ms: u64)
    ensures
        o.patience(elapsed_ms) is Some <==> (elapsed_ms < o.vram_wait_ms && exists|i: int|
            0 <= i < o.process_manager.instances@.len() && (
            #[trigger] o.process_manager.instances@[i]).active > 0),
        o.patience(elapsed_ms) matches Some(t) ==> t > 0 && elapsed_ms + t == o.vram_wait_ms,
{
}

/// After a failed attempt to start a further instance, a fault of the
/// configuration is passed on, and after any other failure the request goes to
/// an instance that is there.
pub proof fn law_a_failed_scale_reuses_an_instance(
    before: &Orchestrator,
    after: &Orchestrator,
    id: Seq<char>,
    attempt: Result<Option<RequestGuard>, LoadError>,
    now: u64,
    r: Result<Option<RequestGuard>, LoadError>,
    k: int,
)
    requires
        before.goes_on_after_scale(after, id, attempt, now, r),
        0 <= k < before.process_manager.instances@.len(),
        serves(before.process_manager.instances@[k], id),
    ensures
        attempt matches Ok(Some(_)) ==> r == attempt,
        attempt matches Err(e) ==> {
            if e is ModelNotFound || e is PresetNotFound || e is NoBinary || e is DraftNotFound {
                r == attempt && *after == *before
            } else {
                r matches Ok(Some(_))
            }
        },
        attempt matches Ok(None) ==> r matches Ok(Some(_)),
{
    crate::process::manager::law_requests_go_to_the_least_busy(
        before.process_manager.instances@,
        id,
        k,
    );
}

} // verus!
