//! Loading models. The library decides; the caller runs the fit probe, starts
//! and ends processes, and hands back what came of it.
use vstd::prelude::*;
use vstd::string::*;

use crate::config::backend::Backend;
use crate::config::model::{ModelConfig, ModelState};
use crate::orchestrator::crud::RunState;
use crate::orchestrator::devices::{normalize_model_device_for_llama, normalized};
use crate::orchestrator::engine::{put_state, AppData, EventLevel, Orchestrator};
use crate::orchestrator::errors::{is_configuration_load_error, LoadError};
use crate::orchestrator::eviction::{
    decide_eviction, evictable, law_only_evictable_models_are_stopped, names_hold,
    to_stop, Candidate, EvictionAction,
};
use crate::orchestrator::placement::{resolve_targets, targets_of};
use crate::orchestrator::search::{scale_out_accepts_placement, PlaceOutcome};
use crate::process::argv::{structured_args, uses_gpu};
use crate::process::manager::{
    first_idle, guard_of, is_idle, next_instance, no_overflow, released, reserved_for, served_by,
    started_pids, with_request, HealthCheckError, InstanceInfo, PendingChild, ProcessManager,
    RequestGuard, Reservation, SpawnError,
};
use crate::table::{lemma_position, lemma_update};
use crate::text::{decimal, decimal_text, option_text, texts};
use crate::vram::tracker::GpuInfo;

verus! {

broadcast use vstd::string::group_string_axioms;

// ----- getting an instance -----

/// How a request for a model goes on.
#[derive(Debug)]
pub enum Acquire {
    /// An idle instance takes it.
    Ready(RequestGuard),
    /// All instances are busy.
    Busy,
    /// There is no instance.
    Absent,
}

/// Whether a further instance may be started.
#[derive(Debug)]
pub enum ScaleStep {
    /// An instance has become idle and takes the request.
    Ready(RequestGuard),
    /// The model has as many instances as it may have.
    AtLimit,
    /// There may be one more.
    MayGrow,
}

impl Orchestrator {
    /// Whether nothing differs but the instances.
    pub open spec fn same_but_instances(&self, other: &Orchestrator) -> bool {
        *self == (Orchestrator {
            process_manager: ProcessManager {
                instances: self.process_manager.instances,
                ..other.process_manager
            },
            ..*other
        })
    }

    /// Whether `r` and the state after it are what becomes of a request that
    /// looks for an idle instance.
    pub open spec fn acquires(&self, after: &Orchestrator, id: Seq<char>, r: Acquire) -> bool {
        let s = self.process_manager.instances@;
        let left = after.process_manager.instances@;
        &&& after.same_but_instances(self)
        &&& match first_idle(s, id, 0) {
            Some(i) => r == Acquire::Ready(guard_of(s[i])) && left == with_request(s, i),
            None => {
                &&& left == s
                &&& r == (if served_by(s, id, s.len() as int) > 0 {
                    Acquire::Busy
                } else {
                    Acquire::Absent
                })
            },
        }
    }

    /// Hands a request for a model to an idle instance, or says why that is
    /// not possible.
    pub fn acquire(&mut self, id: &str) -> (r: Acquire)
        requires
            old(self).wf(),
        ensures
            final(self).wf(),
            old(self).acquires(final(self), id@, r),
    {
        match self.process_manager.acquire_idle_instance(id) {
            Some(g) => Acquire::Ready(g),
            None => if self.process_manager.instance_count(id) > 0 {
                Acquire::Busy
            } else {
                Acquire::Absent
            },
        }
    }

    /// Whether `r` and the state after it are what becomes of a request that
    /// asks for a further instance.
    pub open spec fn begins_scale(&self, after: &Orchestrator, id: Seq<char>, r: ScaleStep) -> bool {
        let s = self.process_manager.instances@;
        let pending = self.process_manager.pending@;
        let left = after.process_manager.instances@;
        let total = no_overflow(
            (served_by(s, id, s.len() as int) + reserved_for(
                pending,
                id,
                pending.len() as int,
            )) as int,
        );
        &&& after.same_but_instances(self)
        &&& match first_idle(s, id, 0) {
            Some(i) => r == ScaleStep::Ready(guard_of(s[i])) && left == with_request(s, i),
            None => {
                &&& left == s
                &&& r == (if total >= self.max_instances_per_model {
                    ScaleStep::AtLimit
                } else {
                    ScaleStep::MayGrow
                })
            },
        }
    }

    /// Says whether a further instance of a model may be started for a request
    /// that found all of them busy.
    pub fn begin_scale(&mut self, id: &str) -> (r: ScaleStep)
        requires
            old(self).wf(),
        ensures
            final(self).wf(),
            old(self).begins_scale(final(self), id@, r),
    {
        match self.process_manager.acquire_idle_instance(id) {
            Some(g) => ScaleStep::Ready(g),
            None => if self.process_manager.total_instance_count(id)
                >= self.max_instances_per_model {
                ScaleStep::AtLimit
            } else {
                ScaleStep::MayGrow
            },
        }
    }

    /// Whether `r` and the state after it are what becomes of a request that
    /// goes to any instance, in the state `s`.
    pub open spec fn reuses(
        after: &Orchestrator,
        s: RunState,
        id: Seq<char>,
        r: Result<Option<RequestGuard>, LoadError>,
    ) -> bool {
        match next_instance(s.instances, id) {
            Some(i) => {
                &&& r == Ok::<_, LoadError>(Some(guard_of(s.instances[i])))
                &&& after.run_state() == (RunState {
                    instances: with_request(s.instances, i),
                    ..s
                })
            },
            None => r == Ok::<Option<RequestGuard>, LoadError>(None) && after.run_state() == s,
        }
    }

    /// Whether `r` and the state after it are what becomes of a request after
    /// an attempt to start a further instance.
    pub open spec fn goes_on_after_scale(
        &self,
        after: &Orchestrator,
        id: Seq<char>,
        attempt: Result<Option<RequestGuard>, LoadError>,
        now: u64,
        r: Result<Option<RequestGuard>, LoadError>,
    ) -> bool {
        &&& match attempt {
            Ok(Some(g)) => r == attempt && *after == *self,
            Ok(None) => Orchestrator::reuses(after, self.run_state(), id, r),
            Err(e) => if e.of_configuration() {
                r == attempt && *after == *self
            } else {
                Orchestrator::reuses(
                    after,
                    self.run_state().note(
                        EventLevel::Warn,
                        "failed to scale "@ + id + ": "@ + e.text() + "; reusing busy instance"@,
                        now,
                    ),
                    id,
                    r,
                )
            },
        }
        &&& after.same_but_run_state(self)
        &&& after.dirty == self.dirty
        &&& after.data == self.data
    }

    /// Goes on after an attempt to start a further instance. A fault of the
    /// configuration is passed on; any other failure is told, and the request
    /// goes to a busy instance.
    pub fn after_scale(
        &mut self,
        id: &str,
        attempt: Result<Option<RequestGuard>, LoadError>,
        now: u64,
    ) -> (r: Result<Option<RequestGuard>, LoadError>)
        requires
            old(self).wf(),
        ensures
            final(self).wf(),
            old(self).goes_on_after_scale(final(self), id@, attempt, now, r),
    {
        match attempt {
            Ok(Some(g)) => {
                return Ok(Some(g));
            },
            Ok(None) => {},
            Err(e) => {
                if is_configuration_load_error(&e) {
                    return Err(e);
                }
                let m = e.message();
                self.record_event(
                    EventLevel::Warn,
                    "failed to scale ".to_owned().concat(id).concat(": ").concat(
                        m.as_str(),
                    ).concat("; reusing busy instance"),
                    now,
                );
            },
        }
        Ok(self.process_manager.acquire_any_instance(id))
    }
}

// ----- what is to be loaded -----

/// What is needed to place and start a model.
pub struct LoadRequest {
    pub model: ModelConfig,
    pub draft: Option<ModelConfig>,
    pub targets: Vec<Backend>,
}

/// The binary that serves a model: that of its preset, or its own.
pub open spec fn binary_of(data: &AppData, m: ModelConfig) -> Option<Seq<char>> {
    match m.binary_preset {
        Some(p) => if data.presets@.dom().contains(p@) {
            Some(data.presets@[p@].binary@)
        } else {
            None
        },
        None => Some(m.binary@),
    }
}

/// Whether `c` is the definition `m` with devices that llama.cpp knows.
pub open spec fn on_known_devices(c: ModelConfig, m: ModelConfig, gpus: Seq<GpuInfo>) -> bool {
    &&& option_text(c.device) == normalized(option_text(m.device), gpus)
    &&& c.extra_args@ == m.extra_args@
    &&& c == (ModelConfig { device: c.device, extra_args: c.extra_args, ..m })
}

impl Orchestrator {
    /// Whether `r` is what is needed to place and start a model, or what
    /// stands in the way.
    pub open spec fn prepares(
        &self,
        id: Seq<char>,
        gpus: Seq<GpuInfo>,
        r: Result<LoadRequest, LoadError>,
    ) -> bool {
        let models = self.data.models@;
        let m = models[id];
        if !models.dom().contains(id) {
            r matches Err(LoadError::ModelNotFound(what)) && what@ == id
        } else if binary_of(&self.data, m) is None {
            r == Err::<LoadRequest, _>(LoadError::PresetNotFound(m.binary_preset->0))
        } else if binary_of(&self.data, m)->0.len() == 0 {
            r matches Err(LoadError::NoBinary(what)) && what@ == id
        } else if m.draft_model_id is Some && !models.dom().contains(m.draft_model_id->0@) {
            r matches Err(LoadError::DraftNotFound { id: d, target }) && d == m.draft_model_id->0
                && target@ == id
        } else {
            &&& r matches Ok(q)
            &&& q.model.binary@ == binary_of(&self.data, m)->0
            &&& on_known_devices(q.model, ModelConfig { binary: q.model.binary, ..m }, gpus)
            &&& match m.draft_model_id {
                Some(d) => q.draft is Some && on_known_devices(q.draft->0, models[d@], gpus),
                None => q.draft is None,
            }
            &&& q.targets@ == targets_of(&m, self.data.presets@)
        }
    }

    /// Collects what is needed to place and start a model.
    pub fn prepare_load(&self, id: &str, gpus: &[GpuInfo]) -> (r: Result<LoadRequest, LoadError>)
        requires
            self.wf(),
        ensures
            self.prepares(id@, gpus@, r),
    {
        let mut model = match self.data.models.get(id) {
            Some(m) => m.clone(),
            None => {
                return Err(LoadError::ModelNotFound(id.to_owned()));
            },
        };
        let preset = model.binary_preset.clone();
        match preset {
            Some(p) => match self.data.presets.get(p.as_str()) {
                Some(x) => {
                    model.binary = x.binary.clone();
                },
                None => {
                    return Err(LoadError::PresetNotFound(p));
                },
            },
            None => {},
        }
        if model.binary.as_str().is_empty() {
            return Err(LoadError::NoBinary(id.to_owned()));
        }
        let targets = resolve_targets(&model, &self.data.presets);
        let mut draft: Option<ModelConfig> = None;
        let draft_id = model.draft_model_id.clone();
        match draft_id {
            Some(d) => match self.data.models.get(d.as_str()) {
                Some(x) => {
                    let mut c = x.clone();
                    normalize_model_device_for_llama(&mut c, gpus);
                    draft = Some(c);
                },
                None => {
                    return Err(LoadError::DraftNotFound { id: d, target: id.to_owned() });
                },
            },
            None => {},
        }
        normalize_model_device_for_llama(&mut model, gpus);
        Ok(LoadRequest { model, draft, targets })
    }

    /// Whether `r` and the state after it are what becomes of the claim to load
    /// a model.
    pub open spec fn claims(
        &self,
        after: &Orchestrator,
        id: Seq<char>,
        r: Result<(), LoadError>,
    ) -> bool {
        if self.data.models@.dom().contains(id) {
            &&& r == Ok::<(), LoadError>(())
            &&& after.data.models@ == self.data.models@.insert(
                id,
                ModelConfig { state: ModelState::Loading, ..self.data.models@[id] },
            )
            &&& *after == (Orchestrator {
                data: AppData { models: after.data.models, ..self.data },
                ..*self
            })
        } else {
            &&& r matches Err(LoadError::ModelNotFound(what)) && what@ == id
            &&& *after == *self
        }
    }

    /// Marks a model as being loaded.
    pub fn claim_loading(&mut self, id: &str) -> (r: Result<(), LoadError>)
        requires
            old(self).wf(),
        ensures
            final(self).wf(),
            old(self).claims(final(self), id@, r),
    {
        let ghost before = self.data.models.records();
        match self.data.models.find(id) {
            Some(i) => {
                let m = self.data.models.at_mut(i);
                m.state = ModelState::Loading;
                proof {
                    lemma_update(
                        before,
                        i as int,
                        ModelConfig { state: ModelState::Loading, ..before[i as int] },
                    );
                }
                Ok(())
            },
            None => Err(LoadError::ModelNotFound(id.to_owned())),
        }
    }
}

// ----- making room -----

/// What follows from the first placement of a model.
#[derive(Debug, Clone, Copy, PartialEq, Eq, Structural)]
pub enum FirstPlacement {
    /// Start it.
    Start,
    /// Stop idle models first. `must_fit` says that it cannot be started
    /// otherwise.
    MakeRoom { free: u64, must_fit: bool },
}

/// What follows from the first placement of a model. A placed model that does
/// not fit whole gets a second chance; one without any room needs it.
pub open spec fn first_decision(outcome: PlaceOutcome, estimated_vram: u64) -> FirstPlacement {
    match outcome {
        PlaceOutcome::Placed { free, .. } => if free < estimated_vram {
            FirstPlacement::MakeRoom { free, must_fit: false }
        } else {
            FirstPlacement::Start
        },
        PlaceOutcome::Fits => FirstPlacement::Start,
        PlaceOutcome::DoesNotFit { free } => FirstPlacement::MakeRoom { free, must_fit: true },
    }
}

/// What follows from the first placement of a model.
pub fn after_first_placement(outcome: &PlaceOutcome, estimated_vram: u64) -> (r: FirstPlacement)
    ensures
        r == first_decision(*outcome, estimated_vram),
{
    match outcome {
        PlaceOutcome::Placed { free, .. } => if *free < estimated_vram {
            FirstPlacement::MakeRoom { free: *free, must_fit: false }
        } else {
            FirstPlacement::Start
        },
        PlaceOutcome::Fits => FirstPlacement::Start,
        PlaceOutcome::DoesNotFit { free } => FirstPlacement::MakeRoom {
            free: *free,
            must_fit: true,
        },
    }
}

/// Whether `r` says whether a model may be started after the second placement.
pub open spec fn second_decision(
    outcome: PlaceOutcome,
    must_fit: bool,
    id: Seq<char>,
    needed: u64,
    r: Result<(), LoadError>,
) -> bool {
    match outcome {
        PlaceOutcome::DoesNotFit { free } => if must_fit {
            r matches Err(LoadError::InsufficientVram { model, needed: n, free: f }) && model@ == id
                && n == needed && f == free
        } else {
            r == Ok::<(), LoadError>(())
        },
        _ => r == Ok::<(), LoadError>(()),
    }
}

/// Whether a model may be started after the second placement.
pub fn after_second_placement(outcome: &PlaceOutcome, must_fit: bool, id: &str, needed: u64) -> (r:
    Result<(), LoadError>)
    ensures
        second_decision(*outcome, must_fit, id@, needed, r),
{
    match outcome {
        PlaceOutcome::DoesNotFit { free } => if must_fit {
            Err(LoadError::InsufficientVram { model: id.to_owned(), needed, free: *free })
        } else {
            Ok(())
        },
        _ => Ok(()),
    }
}

/// Whether a further instance may be started where it was placed.
pub open spec fn room_for_extra(outcome: PlaceOutcome) -> bool {
    match outcome {
        PlaceOutcome::Placed { fully_on_gpu, .. } => fully_on_gpu,
        PlaceOutcome::Fits => true,
        PlaceOutcome::DoesNotFit { .. } => false,
    }
}

/// Whether a further instance may be started where it was placed.
pub fn extra_instance_fits(outcome: &PlaceOutcome) -> (r: bool)
    ensures
        r == room_for_extra(*outcome),
{
    match outcome {
        PlaceOutcome::Placed { fully_on_gpu, .. } => scale_out_accepts_placement(*fully_on_gpu),
        PlaceOutcome::Fits => true,
        PlaceOutcome::DoesNotFit { .. } => false,
    }
}

impl RunState {
    /// With a model stopped in favour of another.
    pub open spec fn evict(self, victim: Seq<char>, id: Seq<char>, now: u64) -> RunState {
        self.note(EventLevel::Info, "evicting "@ + victim + " to load "@ + id, now).stop(
            victim,
            now,
        )
    }

    /// With the first `n` of the victims stopped in favour of another model.
    pub open spec fn evict_all(
        self,
        victims: Seq<Candidate>,
        n: int,
        id: Seq<char>,
        now: u64,
    ) -> RunState
        decreases n,
    {
        if n <= 0 {
            self
        } else {
            self.evict_all(victims, n - 1, id, now).evict(victims[n - 1].id@, id, now)
        }
    }

    /// The processes to be ended when the first `n` victims are stopped.
    pub open spec fn eviction_signals(
        self,
        victims: Seq<Candidate>,
        n: int,
        id: Seq<char>,
        now: u64,
    ) -> Seq<i32>
        decreases n,
    {
        if n <= 0 {
            Seq::empty()
        } else {
            self.eviction_signals(victims, n - 1, id, now) + started_pids(
                self.evict_all(victims, n - 1, id, now).instances,
                victims[n - 1].id@,
            )
        }
    }
}

impl Orchestrator {
    /// Whether the state after it and the processes to be ended are what
    /// becomes of making room for a model.
    pub open spec fn makes_room(
        &self,
        after: &Orchestrator,
        id: Seq<char>,
        scores: Seq<u64>,
        free: int,
        needed: int,
        now: u64,
        pids: Seq<i32>,
    ) -> bool {
        &&& exists|idle: Seq<String>|
            {
                let victims = #[trigger] to_stop(
                    self.data.models.records(),
                    scores,
                    free,
                    needed,
                    idle,
                );
                let n = victims.len() as int;
                &&& forall|m: Seq<char>| #[trigger]
                    names_hold(idle, m) == is_idle(self.process_manager.instances@, m)
                &&& after.run_state() == self.run_state().evict_all(victims, n, id, now)
                &&& pids == self.run_state().eviction_signals(victims, n, id, now)
                &&& after.dirty == (self.dirty || n > 0)
            }
        &&& after.same_but_run_state(self)
    }

    /// Stops idle models until `needed` bytes are free for another, or no more
    /// may be stopped, and says which processes are to be ended.
    pub fn make_room(&mut self, id: &str, scores: &Vec<u64>, free: u64, needed: u64, now: u64) -> (r:
        Vec<i32>)
        requires
            old(self).wf(),
            scores@.len() == old(self).data.models.records().len(),
        ensures
            final(self).wf(),
            old(self).makes_room(
                final(self),
                id@,
                scores@,
                free as int,
                needed as int,
                now,
                r@,
            ),
    {
        let idle = self.process_manager.idle_model_ids();
        let actions = decide_eviction(&self.data.models, scores, free, needed, &idle);
        let ghost victims = to_stop(
            self.data.models.records(),
            scores@,
            free as int,
            needed as int,
            idle@,
        );
        let ghost before = self.run_state();
        let ghost records = self.data.models.records();
        proof {
            assert forall|j: int| 0 <= j < victims.len() implies self.data.models@.dom().contains(
                (#[trigger] victims[j]).id@,
            ) by {
                law_only_evictable_models_are_stopped(
                    records,
                    scores@,
                    free as int,
                    needed as int,
                    idle@,
                    j,
                );
                let k = choose|k: int|
                    0 <= k < records.len() && evictable(#[trigger] records[k], idle@)
                        && records[k].id == victims[j].id;
                lemma_position(records, k);
            }
        }
        let mut pids: Vec<i32> = Vec::new();
        let mut i: usize = 0;
        while i < actions.len()
            invariant
                i <= actions@.len(),
                self.wf(),
                actions@.len() == victims.len(),
                forall|j: int|
                    0 <= j < actions@.len() ==> (#[trigger] actions@[j]).victim()
                        == victims[j].id@,
                forall|j: int|
                    0 <= j < victims.len() ==> self.data.models@.dom().contains(
                        (#[trigger] victims[j]).id@,
                    ),
                before == old(self).run_state(),
                self.run_state() == before.evict_all(victims, i as int, id@, now),
                pids@ == before.eviction_signals(victims, i as int, id@, now),
                self.same_but_run_state(old(self)),
                self.dirty == (old(self).dirty || i > 0),
            decreases actions@.len() - i,
        {
            assert(actions@[i as int].victim() == victims[i as int].id@);
            match &actions[i] {
                EvictionAction::Evict(victim) => {
                    self.record_event(
                        EventLevel::Info,
                        "evicting ".to_owned().concat(victim.as_str()).concat(" to load ").concat(
                            id,
                        ),
                        now,
                    );
                    match self.stop_model(victim.as_str(), now) {
                        Ok(mut more) => {
                            pids.append(&mut more);
                        },
                        Err(_) => {
                            assert(false);
                        },
                    }
                },
            }
            i += 1;
        }
        pids
    }

    // ----- starting -----

    /// Whether the state after it differs in the size of a model alone.
    pub open spec fn notes_size(&self, after: &Orchestrator, id: Seq<char>, vram: u64) -> bool {
        &&& after.data.models@ == (if self.data.models@.dom().contains(id) {
            self.data.models@.insert(
                id,
                ModelConfig { estimated_vram: vram, ..self.data.models@[id] },
            )
        } else {
            self.data.models@
        })
        &&& *after == (Orchestrator {
            data: AppData { models: after.data.models, ..self.data },
            ..*self
        })
    }

    /// Notes the size of a model.
    pub fn note_size(&mut self, id: &str, vram: u64)
        requires
            old(self).wf(),
        ensures
            final(self).wf(),
            old(self).notes_size(final(self), id@, vram),
    {
        let ghost before = self.data.models.records();
        match self.data.models.find(id) {
            Some(i) => {
                let m = self.data.models.at_mut(i);
                m.estimated_vram = vram;
                proof {
                    lemma_update(
                        before,
                        i as int,
                        ModelConfig { estimated_vram: vram, ..before[i as int] },
                    );
                }
            },
            None => {},
        }
    }

    /// Whether `r` says how to start a process of a model, and its port is
    /// taken.
    pub open spec fn plans_spawn(
        &self,
        after: &Orchestrator,
        model: ModelConfig,
        draft: Option<&ModelConfig>,
        port: u16,
        r: (PendingChild, Vec<String>),
    ) -> bool {
        &&& after.process_manager.pending@ == self.process_manager.pending@.push(
            Reservation { model_id: model.id, port },
        )
        &&& *after == (Orchestrator {
            process_manager: ProcessManager {
                pending: after.process_manager.pending,
                ..self.process_manager
            },
            ..*self
        })
        &&& texts(r.1@) == structured_args(&model, draft, port) + texts(model.extra_args@)
        &&& r.0 == (PendingChild {
            model_id: model.id,
            port,
            uses_gpu: uses_gpu(&model, texts(r.1@)),
        })
    }

    /// Takes a port for a process of the model and says how to start it.
    pub fn plan_spawn(
        &mut self,
        model: &ModelConfig,
        draft: Option<&ModelConfig>,
        port: u16,
    ) -> (r: (PendingChild, Vec<String>))
        requires
            old(self).wf(),
        ensures
            final(self).wf(),
            old(self).plans_spawn(final(self), *model, draft, port, r),
    {
        self.process_manager.spawn_child(model, draft, port)
    }

    /// Whether the state after it differs in that a port is free again.
    pub open spec fn frees_port(&self, after: &Orchestrator, pending: PendingChild) -> bool {
        &&& after.process_manager.pending@ == released(
            self.process_manager.pending@,
            pending.model_id@,
            pending.port,
        )
        &&& *after == (Orchestrator {
            process_manager: ProcessManager {
                pending: after.process_manager.pending,
                ..self.process_manager
            },
            ..*self
        })
    }

    /// Goes on after a process could not be started.
    pub fn spawn_failed(&mut self, pending: PendingChild, reason: String, binary: String) -> (r:
        LoadError)
        requires
            old(self).wf(),
        ensures
            final(self).wf(),
            old(self).frees_port(final(self), pending),
            r == LoadError::SpawnFailed(SpawnError::SpawnFailed(reason, binary)),
    {
        self.process_manager.discard_pending(pending);
        LoadError::SpawnFailed(SpawnError::SpawnFailed(reason, binary))
    }

    /// Whether the state after it tells that a process was started, with its
    /// memory set aside.
    pub open spec fn sets_aside(
        &self,
        after: &Orchestrator,
        id: Seq<char>,
        port: u16,
        vram: u64,
        extra: bool,
        now: u64,
    ) -> bool {
        &&& after.reserved_vram == self.reserved_vram.wrapping_add(vram)
        &&& after.run_state() == self.run_state().note(
            EventLevel::Info,
            if extra {
                "loading extra "@ + id + " instance on port "@ + decimal(port as nat)
            } else {
                "loading "@ + id + " on port "@ + decimal(port as nat)
            },
            now,
        )
        &&& *after == (Orchestrator {
            reserved_vram: after.reserved_vram,
            events: after.events,
            ..*self
        })
    }

    /// Notes that a process was started, and sets its memory aside until it
    /// holds it.
    pub fn child_started(&mut self, id: &str, port: u16, vram: u64, extra: bool, now: u64)
        requires
            old(self).wf(),
        ensures
            final(self).wf(),
            old(self).sets_aside(final(self), id@, port, vram, extra, now),
    {
        let p = decimal_text(port as u64);
        let m = if extra {
            "loading extra ".to_owned().concat(id).concat(" instance on port ").concat(p.as_str())
        } else {
            "loading ".to_owned().concat(id).concat(" on port ").concat(p.as_str())
        };
        self.record_event(EventLevel::Info, m, now);
        self.reserved_vram = self.reserved_vram.wrapping_add(vram);
    }

    /// Whether `r` and the state after it are what becomes of a process that
    /// has come up.
    pub open spec fn puts_in_service(
        &self,
        after: &Orchestrator,
        id: Seq<char>,
        pending: PendingChild,
        pid: i32,
        vram: u64,
        extra: bool,
        now: u64,
        r: RequestGuard,
    ) -> bool {
        let before = self.run_state();
        let inst = InstanceInfo {
            model_id: pending.model_id,
            pid,
            port: pending.port,
            active: 1,
            uses_gpu: pending.uses_gpu,
            started_here: true,
            serial: self.process_manager.next_serial,
        };
        let serving = RunState {
            instances: before.instances.push(inst),
            models: if before.models.dom().contains(id) {
                before.models.insert(
                    id,
                    ModelConfig {
                        state: ModelState::Running,
                        pid: Some(pid),
                        last_used: Some(now),
                        ..before.models[id]
                    },
                )
            } else {
                before.models
            },
            ..before
        };
        &&& r == guard_of(inst)
        &&& after.run_state() == serving.note(
            EventLevel::Info,
            if extra {
                "extra "@ + id + " instance ready on port "@ + decimal(pending.port as nat)
            } else {
                id + " ready on port "@ + decimal(pending.port as nat)
            },
            now,
        )
        &&& after.reserved_vram == self.reserved_vram.wrapping_sub(vram)
        &&& after.process_manager.pending@ == released(
            self.process_manager.pending@,
            pending.model_id@,
            pending.port,
        )
        &&& *after == (Orchestrator {
            data: AppData { models: after.data.models, ..self.data },
            process_manager: ProcessManager {
                instances: after.process_manager.instances,
                pending: after.process_manager.pending,
                next_serial: (self.process_manager.next_serial + 1) as u64,
                ..self.process_manager
            },
            reserved_vram: after.reserved_vram,
            events: after.events,
            dirty: true,
            ..*self
        })
    }

    /// Puts a process that has come up into service. It holds its memory now.
    pub fn child_ready(
        &mut self,
        id: &str,
        pending: PendingChild,
        pid: i32,
        vram: u64,
        extra: bool,
        now: u64,
    ) -> (r: RequestGuard)
        requires
            old(self).wf(),
            old(self).process_manager.next_serial < u64::MAX,
        ensures
            final(self).wf(),
            old(self).puts_in_service(final(self), id@, pending, pid, vram, extra, now, r),
    {
        self.reserved_vram = self.reserved_vram.wrapping_sub(vram);
        let p = decimal_text(pending.port as u64);
        let guard = self.process_manager.register(pending, pid);
        let ghost before = self.data.models.records();
        match self.data.models.find(id) {
            Some(i) => {
                let m = self.data.models.at_mut(i);
                m.state = ModelState::Running;
                m.pid = Some(pid);
                m.last_used = Some(now);
                proof {
                    lemma_update(
                        before,
                        i as int,
                        ModelConfig {
                            state: ModelState::Running,
                            pid: Some(pid),
                            last_used: Some(now),
                            ..before[i as int]
                        },
                    );
                }
            },
            None => {},
        }
        self.dirty = true;
        let m = if extra {
            "extra ".to_owned().concat(id).concat(" instance ready on port ").concat(p.as_str())
        } else {
            id.to_owned().concat(" ready on port ").concat(p.as_str())
        };
        self.record_event(EventLevel::Info, m, now);
        guard
    }

    /// Whether `r` and the state after it are what becomes of a process that
    /// has not come up.
    pub open spec fn drops_child(
        &self,
        after: &Orchestrator,
        id: Seq<char>,
        pending: PendingChild,
        vram: u64,
        extra: bool,
        e: HealthCheckError,
        now: u64,
        r: LoadError,
    ) -> bool {
        &&& after.reserved_vram == self.reserved_vram.wrapping_sub(vram)
        &&& after.process_manager.pending@ == released(
            self.process_manager.pending@,
            pending.model_id@,
            pending.port,
        )
        &&& after.run_state() == (if extra {
            self.run_state().note(
                EventLevel::Warn,
                "extra "@ + id + " instance failed health check: "@ + e.text(),
                now,
            )
        } else {
            self.run_state().note(
                EventLevel::Error,
                id + " failed health check: "@ + e.text(),
                now,
            )
        })
        &&& *after == (Orchestrator {
            process_manager: ProcessManager {
                pending: after.process_manager.pending,
                ..self.process_manager
            },
            reserved_vram: after.reserved_vram,
            events: after.events,
            ..*self
        })
        &&& r == LoadError::SpawnFailed(SpawnError::HealthCheckFailed(e))
    }

    /// Drops a process that has not come up. It holds no memory.
    pub fn child_failed(
        &mut self,
        id: &str,
        pending: PendingChild,
        vram: u64,
        extra: bool,
        e: HealthCheckError,
        now: u64,
    ) -> (r: LoadError)
        requires
            old(self).wf(),
        ensures
            final(self).wf(),
            old(self).drops_child(final(self), id@, pending, vram, extra, e, now, r),
    {
        self.reserved_vram = self.reserved_vram.wrapping_sub(vram);
        self.process_manager.discard_pending(pending);
        let why = e.message();
        if extra {
            self.record_event(
                EventLevel::Warn,
                "extra ".to_owned().concat(id).concat(" instance failed health check: ").concat(
                    why.as_str(),
                ),
                now,
            );
        } else {
            self.record_event(
                EventLevel::Error,
                id.to_owned().concat(" failed health check: ").concat(why.as_str()),
                now,
            );
        }
        LoadError::SpawnFailed(SpawnError::HealthCheckFailed(e))
    }

    /// Whether the state after it tells that a model was not loaded. One that
    /// found no room is idle; any other is faulty.
    pub open spec fn gives_up(&self, after: &Orchestrator, id: Seq<char>, e: LoadError) -> bool {
        &&& exists|state: ModelState|
            {
                &&& after.run_state() == #[trigger] self.run_state().put(id, state, None)
                &&& if e is InsufficientVram {
                    state == ModelState::Idle
                } else {
                    state matches ModelState::Error(m) && m@ == e.text()
                }
            }
        &&& after.same_but_run_state(self)
        &&& after.dirty
    }

    /// Notes that a model was not loaded. One that found no room is idle; any
    /// other is faulty.
    pub fn load_failed(&mut self, id: &str, e: &LoadError)
        requires
            old(self).wf(),
        ensures
            final(self).wf(),
            old(self).gives_up(final(self), id@, *e),
    {
        let state = match e {
            LoadError::InsufficientVram { .. } => ModelState::Idle,
            _ => ModelState::Error(e.message()),
        };
        let ghost st = state;
        put_state(&mut self.data.models, id, state, None);
        self.dirty = true;
        assert(self.run_state() == old(self).run_state().put(id@, st, None));
    }

    /// Notes that loading a model was broken off by a fault of the program.
    pub fn load_broken_off(&mut self, id: &str, why: &str) -> (r: LoadError)
        requires
            old(self).wf(),
        ensures
            final(self).wf(),
            r matches LoadError::SpawnFailed(
                SpawnError::HealthCheckFailed(HealthCheckError::ChildExited(code, what)),
            ) && code is None && what@ == "load task panicked: "@ + why@ && final(self).run_state()
                == old(self).run_state().put(id@, ModelState::Error(what), None),
            final(self).same_but_run_state(old(self)),
            final(self).dirty,
    {
        let what = "load task panicked: ".to_owned().concat(why);
        put_state(&mut self.data.models, id, ModelState::Error(what.clone()), None);
        self.dirty = true;
        LoadError::SpawnFailed(
            SpawnError::HealthCheckFailed(HealthCheckError::ChildExited(None, what)),
        )
    }

    /// How long a load that found no room may go on waiting for a request to
    /// end. It waits only while there is a request that could end.
    pub open spec fn patience(&self, elapsed_ms: u64) -> Option<u64> {
        if elapsed_ms < self.vram_wait_ms && (exists|i: int|
            0 <= i < self.process_manager.instances@.len() && (
            #[trigger] self.process_manager.instances@[i]).active > 0) {
            Some((self.vram_wait_ms - elapsed_ms) as u64)
        } else {
            None
        }
    }

    /// How long a load that found no room may go on waiting.
    pub fn wait_for_vram(&self, elapsed_ms: u64) -> (r: Option<u64>)
        ensures
            r == self.patience(elapsed_ms),
    {
        if elapsed_ms >= self.vram_wait_ms {
            return None;
        }
        if !self.process_manager.has_active_requests() {
            return None;
        }
        Some(self.vram_wait_ms - elapsed_ms)
    }
}

// ----- laws -----

/// Memory that was set aside for a process is free again once the process
/// holds it or was dropped.
pub proof fn law_reservation_is_given_back(reserved: u64, vram: u64)
    ensures
        reserved.wrapping_add(vram).wrapping_sub(vram) == reserved,
{
}

} // verus!
