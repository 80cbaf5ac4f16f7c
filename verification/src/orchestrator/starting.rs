//! The start of a process, step by step. A step says what the caller is to do;
//! what came of it begins the next step. The steps are to be taken one start
//! at a time until the process is started.
use vstd::prelude::*;
use vstd::string::*;

use crate::config::model::ModelConfig;
use crate::orchestrator::allocation::Caps;
use crate::orchestrator::engine::{AppData, Orchestrator};
use crate::orchestrator::errors::LoadError;
use crate::orchestrator::loading::{
    after_first_placement, after_second_placement, extra_instance_fits, first_decision,
    room_for_extra, second_decision, FirstPlacement, LoadRequest, ScaleStep,
};
use crate::orchestrator::search::{
    is_placement, place_model, FitProbe, PlacementStep, ProbeResult,
};
use crate::process::manager::{
    port_step, HealthCheckError, PendingChild, PortStep, RequestGuard, SpawnError,
};
use crate::vram::tracker::{clone_gpus, GpuInfo};

verus! {

broadcast use vstd::string::group_string_axioms;

/// What is known of a model beyond its definition.
#[derive(Debug, Clone, Copy, PartialEq, Eq, Structural)]
pub struct ModelFacts {
    /// How many layers its file tells, where it could be read.
    pub read_layers: Option<u32>,
    /// Whether its server fits it to the GPUs itself.
    pub server_owned: bool,
}

/// How many layers a model has: by its definition, or else by its file.
pub open spec fn layers(m: ModelConfig, read: Option<u32>) -> Option<u32> {
    match m.gguf_meta {
        Some(meta) => Some(meta.n_layers),
        None => read,
    }
}

/// How many layers a model has: by its definition, or else by its file.
pub fn model_n_layers(m: &ModelConfig, read: Option<u32>) -> (r: Option<u32>)
    ensures
        r == layers(*m, read),
{
    match &m.gguf_meta {
        Some(meta) => Some(meta.n_layers),
        None => read,
    }
}

/// A start that waits for a report of the GPUs.
#[derive(Debug)]
pub struct Looking {
    pub id: String,
    /// Whether there is an instance of the model already.
    pub extra: bool,
}

/// A start that waits for the answer of a fit probe.
pub struct Placing {
    pub id: String,
    pub extra: bool,
    pub request: LoadRequest,
    pub gpus: Vec<GpuInfo>,
    /// Memory that was promised to others when the start began.
    pub reserved: u64,
    pub gpu_cap_pct: u8,
    pub display_cap_pct: u8,
    pub facts: ModelFacts,
    /// The answers so far.
    pub results: Vec<ProbeResult>,
    /// Whether the model must fit now, where room was made for it.
    pub second: Option<bool>,
}

/// A start that waits for a report of the GPUs after room was made.
pub struct Clearing {
    pub placing: Placing,
}

/// A start that waits for a port.
pub struct Porting {
    pub id: String,
    pub extra: bool,
    pub request: LoadRequest,
    /// The answers so far.
    pub answers: Vec<Option<u16>>,
}

/// A start whose process is being made.
pub struct Spawning {
    pub id: String,
    pub extra: bool,
    pub request: LoadRequest,
    pub pending: PendingChild,
}

/// A start whose process is coming up.
#[derive(Debug)]
pub struct Starting {
    pub id: String,
    pub extra: bool,
    pub pending: PendingChild,
    pub pid: i32,
    /// The memory that is set aside for it.
    pub vram: u64,
}

/// How a start begins.
#[derive(Debug)]
pub enum BeginStep {
    /// Nothing is started: an instance has become idle, or there may be no
    /// further one.
    Done(Option<RequestGuard>),
    /// Report the GPUs.
    Look(Looking),
}

/// How a start goes on until its place is known.
pub enum PlaceStep {
    /// Run the probe.
    Probe(Placing, FitProbe),
    /// End the processes, and report the GPUs again.
    Clear(Clearing, Vec<i32>),
    /// Get a port.
    Port(Porting),
    /// There is no room for a further instance.
    NoRoom,
}

/// How a start goes on until its process is made.
pub enum PortNext {
    /// Try to open this port, or any that the system has.
    Ask(Porting, Option<u16>),
    /// Make the process with these arguments.
    Spawn(Spawning, Vec<String>),
}

impl Placing {
    /// How many layers the model counts with; zero where that is not known.
    pub open spec fn layers(self) -> u32 {
        match layers(self.request.model, self.facts.read_layers) {
            Some(n) => n,
            None => 0,
        }
    }

    /// Whether the model becomes `m` by the answers so far, with `step` to go.
    pub open spec fn places(self, m: ModelConfig, step: PlacementStep) -> bool {
        is_placement(
            self.request.model,
            m,
            self.request.targets@,
            self.gpus@,
            self.reserved as int,
            Caps { gpu: self.gpu_cap_pct as int, display: self.display_cap_pct as int },
            self.results@,
            self.layers(),
            self.facts.server_owned,
            step,
        )
    }
}

impl Orchestrator {
    /// Whether `r` and the state after it are how a start begins.
    pub open spec fn begins(
        &self,
        after: &Orchestrator,
        id: Seq<char>,
        extra: bool,
        r: BeginStep,
    ) -> bool {
        let looks = r matches BeginStep::Look(l) && l.id@ == id && l.extra == extra;
        if extra {
            exists|s: ScaleStep| #[trigger]
                self.begins_scale(after, id, s) && match s {
                    ScaleStep::Ready(g) => r == BeginStep::Done(Some(g)),
                    ScaleStep::AtLimit => r == BeginStep::Done(None),
                    ScaleStep::MayGrow => looks,
                }
        } else {
            *after == *self && looks
        }
    }

    /// Begins to start a process for a model. Where the model has one already,
    /// an instance that has become idle is taken instead, and there may be only
    /// so many.
    pub fn begin_start(&mut self, id: &str, extra: bool) -> (r: BeginStep)
        requires
            old(self).wf(),
        ensures
            final(self).wf(),
            old(self).begins(final(self), id@, extra, r),
    {
        if extra {
            let s = self.begin_scale(id);
            assert(old(self).begins_scale(self, id@, s));
            match s {
                ScaleStep::Ready(g) => BeginStep::Done(Some(g)),
                ScaleStep::AtLimit => BeginStep::Done(None),
                ScaleStep::MayGrow => BeginStep::Look(Looking { id: id.to_owned(), extra }),
            }
        } else {
            BeginStep::Look(Looking { id: id.to_owned(), extra })
        }
    }

    /// Whether a start whose place is known goes on to get a port. The size of
    /// a first instance is noted.
    pub open spec fn settles(
        &self,
        after: &Orchestrator,
        p: Placing,
        m: ModelConfig,
        r: Result<PlaceStep, LoadError>,
    ) -> bool {
        &&& r matches Ok(PlaceStep::Port(s))
        &&& s.id == p.id
        &&& s.extra == p.extra
        &&& s.request == (LoadRequest { model: m, ..p.request })
        &&& s.answers@.len() == 0
        &&& if p.extra {
            *after == *self
        } else {
            self.notes_size(after, p.id@, m.estimated_vram)
        }
    }

    /// Whether `r` and the state after it are how a start goes on whose model
    /// became `m`, with `step` to go.
    pub open spec fn takes_step(
        &self,
        after: &Orchestrator,
        p: Placing,
        m: ModelConfig,
        step: PlacementStep,
        scores: Seq<u64>,
        now: u64,
        r: Result<PlaceStep, LoadError>,
    ) -> bool {
        match step {
            PlacementStep::Probe(probe) => {
                &&& *after == *self
                &&& r == Ok::<_, LoadError>(PlaceStep::Probe(p, probe))
            },
            PlacementStep::Failed(e) => {
                &&& *after == *self
                &&& r == Err::<PlaceStep, _>(LoadError::FitProbeFailed(e))
            },
            PlacementStep::Done(o) => if p.extra {
                if room_for_extra(o) {
                    self.settles(after, p, m, r)
                } else {
                    *after == *self && r == Ok::<_, LoadError>(PlaceStep::NoRoom)
                }
            } else {
                match p.second {
                    None => match first_decision(o, m.estimated_vram) {
                        FirstPlacement::Start => self.settles(after, p, m, r),
                        FirstPlacement::MakeRoom { free, must_fit } => {
                            &&& r matches Ok(PlaceStep::Clear(c, pids))
                            &&& c.placing == (Placing {
                                request: LoadRequest { model: m, ..p.request },
                                results: c.placing.results,
                                second: Some(must_fit),
                                ..p
                            })
                            &&& c.placing.results@.len() == 0
                            &&& self.makes_room(
                                after,
                                p.id@,
                                scores,
                                free as int,
                                m.estimated_vram as int,
                                now,
                                pids@,
                            )
                        },
                    },
                    Some(must_fit) => exists|d: Result<(), LoadError>| #[trigger]
                        second_decision(o, must_fit, p.id@, m.estimated_vram, d) && match d {
                            Ok(_) => self.settles(after, p, m, r),
                            Err(e) => *after == *self && r == Err::<PlaceStep, _>(e),
                        },
                }
            },
        }
    }

    /// Whether `r` and the state after it are how a start goes on with the
    /// answers so far.
    pub open spec fn advances(
        &self,
        after: &Orchestrator,
        p: Placing,
        scores: Seq<u64>,
        now: u64,
        r: Result<PlaceStep, LoadError>,
    ) -> bool {
        exists|m: ModelConfig, step: PlacementStep| #[trigger]
            p.places(m, step) && self.takes_step(after, p, m, step, scores, now, r)
    }

    /// Goes on to get a port for a start whose place is known.
    fn settle(&mut self, p: Placing) -> (r: Result<PlaceStep, LoadError>)
        requires
            old(self).wf(),
        ensures
            final(self).wf(),
            old(self).settles(final(self), p, p.request.model, r),
    {
        if !p.extra {
            self.note_size(p.id.as_str(), p.request.model.estimated_vram);
        }
        Ok(
            PlaceStep::Port(
                Porting { id: p.id, extra: p.extra, request: p.request, answers: Vec::new() },
            ),
        )
    }

    /// Goes on with the answers so far.
    fn advance(&mut self, p: Placing, scores: &Vec<u64>, now: u64) -> (r: Result<
        PlaceStep,
        LoadError,
    >)
        requires
            old(self).wf(),
            scores@.len() == old(self).data.models.records().len(),
        ensures
            final(self).wf(),
            old(self).advances(final(self), p, scores@, now, r),
    {
        let ghost first = p;
        let mut p = p;
        let n_layers: u32 = match model_n_layers(&p.request.model, p.facts.read_layers) {
            Some(n) => n,
            None => 0,
        };
        let step = place_model(
            &mut p.request.model,
            &p.request.targets,
            &p.gpus,
            p.reserved,
            p.gpu_cap_pct,
            p.display_cap_pct,
            &p.results,
            n_layers,
            p.facts.server_owned,
        );
        let ghost m = p.request.model;
        assert(first.places(m, step));
        let outcome = match step {
            PlacementStep::Probe(probe) => {
                return Ok(PlaceStep::Probe(p, probe));
            },
            PlacementStep::Failed(e) => {
                return Err(LoadError::FitProbeFailed(e));
            },
            PlacementStep::Done(o) => o,
        };
        if p.extra {
            if extra_instance_fits(&outcome) {
                return self.settle(p);
            }
            return Ok(PlaceStep::NoRoom);
        }
        match p.second {
            None => match after_first_placement(&outcome, p.request.model.estimated_vram) {
                FirstPlacement::Start => self.settle(p),
                FirstPlacement::MakeRoom { free, must_fit } => {
                    let pids = self.make_room(
                        p.id.as_str(),
                        scores,
                        free,
                        p.request.model.estimated_vram,
                        now,
                    );
                    p.results = Vec::new();
                    p.second = Some(must_fit);
                    Ok(PlaceStep::Clear(Clearing { placing: p }, pids))
                },
            },
            Some(must_fit) => {
                let d = after_second_placement(
                    &outcome,
                    must_fit,
                    p.id.as_str(),
                    p.request.model.estimated_vram,
                );
                assert(second_decision(outcome, must_fit, p.id@, m.estimated_vram, d));
                match d {
                    Ok(_) => self.settle(p),
                    Err(e) => Err(e),
                }
            },
        }
    }

    /// Whether the state after it differs in the report of the GPUs alone.
    pub open spec fn sees(&self, after: &Orchestrator, gpus: Seq<GpuInfo>) -> bool {
        &&& after.data.gpus@ == gpus
        &&& *after == (Orchestrator {
            data: AppData { gpus: after.data.gpus, ..self.data },
            ..*self
        })
    }

    /// Whether `p` is a start that places what was asked for.
    pub open spec fn opens_placing(
        &self,
        l: Looking,
        gpus: Seq<GpuInfo>,
        facts: ModelFacts,
        request: LoadRequest,
        p: Placing,
    ) -> bool {
        &&& p.id == l.id
        &&& p.extra == l.extra
        &&& p.request == request
        &&& p.gpus@ == gpus
        &&& p.reserved == self.reserved_vram
        &&& p.gpu_cap_pct == self.settings.gpu_vram_cap_pct
        &&& p.display_cap_pct == self.settings.display_gpu_vram_cap_pct
        &&& p.facts == facts
        &&& p.results@.len() == 0
        &&& p.second is None
    }

    /// Whether `r` and the state after it are how a start goes on that has
    /// seen the GPUs.
    pub open spec fn looks(
        &self,
        after: &Orchestrator,
        l: Looking,
        gpus: Seq<GpuInfo>,
        facts: ModelFacts,
        scores: Seq<u64>,
        now: u64,
        r: Result<PlaceStep, LoadError>,
    ) -> bool {
        exists|q: Result<LoadRequest, LoadError>| #[trigger]
            self.prepares(l.id@, gpus, q) && match q {
                Err(e) => *after == *self && r == Err::<PlaceStep, _>(e),
                Ok(request) => exists|p: Placing| #[trigger]
                    self.opens_placing(l, gpus, facts, request, p) && self.advances(
                        after,
                        p,
                        scores,
                        now,
                        r,
                    ),
            }
    }

    /// Goes on after the GPUs were looked at. The model is placed on what is
    /// free; `scores` say which models give way first where it has no room.
    pub fn gpus_seen(
        &mut self,
        l: Looking,
        gpus: Vec<GpuInfo>,
        facts: ModelFacts,
        scores: &Vec<u64>,
        now: u64,
    ) -> (r: Result<PlaceStep, LoadError>)
        requires
            old(self).wf(),
            scores@.len() == old(self).data.models.records().len(),
        ensures
            final(self).wf(),
            exists|mid: Orchestrator| #[trigger]
                old(self).sees(&mid, gpus@) && mid.looks(
                    final(self),
                    l,
                    gpus@,
                    facts,
                    scores@,
                    now,
                    r,
                ),
    {
        self.set_gpus(clone_gpus(&gpus));
        let ghost mid = *self;
        assert(old(self).sees(&mid, gpus@));
        let q = self.prepare_load(l.id.as_str(), &gpus);
        assert(mid.prepares(l.id@, gpus@, q));
        match q {
            Err(e) => Err(e),
            Ok(request) => {
                let p = Placing {
                    id: l.id,
                    extra: l.extra,
                    request,
                    gpus,
                    reserved: self.reserved_vram,
                    gpu_cap_pct: self.settings.gpu_vram_cap_pct,
                    display_cap_pct: self.settings.display_gpu_vram_cap_pct,
                    facts,
                    results: Vec::new(),
                    second: None,
                };
                assert(mid.opens_placing(l, gpus@, facts, request, p));
                self.advance(p, scores, now)
            },
        }
    }

    /// Goes on after a probe was answered.
    pub fn probe_answered(
        &mut self,
        p: Placing,
        answer: ProbeResult,
        scores: &Vec<u64>,
        now: u64,
    ) -> (r: Result<PlaceStep, LoadError>)
        requires
            old(self).wf(),
            scores@.len() == old(self).data.models.records().len(),
        ensures
            final(self).wf(),
            exists|q: Placing|
                {
                    &&& q == (Placing { results: q.results, ..p })
                    &&& q.results@ == p.results@.push(answer)
                    &&& #[trigger] old(self).advances(final(self), q, scores@, now, r)
                },
    {
        let mut q = p;
        q.results.push(answer);
        self.advance(q, scores, now)
    }

    /// Goes on after room was made. The model is placed once more on what is
    /// free now.
    pub fn room_cleared(
        &mut self,
        c: Clearing,
        gpus: Vec<GpuInfo>,
        scores: &Vec<u64>,
        now: u64,
    ) -> (r: Result<PlaceStep, LoadError>)
        requires
            old(self).wf(),
            scores@.len() == old(self).data.models.records().len(),
        ensures
            final(self).wf(),
            exists|mid: Orchestrator, q: Placing|
                {
                    &&& old(self).sees(&mid, gpus@)
                    &&& q == (Placing { gpus: q.gpus, ..c.placing })
                    &&& q.gpus@ == gpus@
                    &&& #[trigger] mid.advances(final(self), q, scores@, now, r)
                },
    {
        self.set_gpus(clone_gpus(&gpus));
        let ghost mid = *self;
        assert(old(self).sees(&mid, gpus@));
        let mut q = c.placing;
        q.gpus = gpus;
        self.advance(q, scores, now)
    }

    // ----- the process -----

    /// Whether `r` and the state after it are how a start goes on that has the
    /// answers so far about ports.
    pub open spec fn takes_port(
        &self,
        after: &Orchestrator,
        s: Porting,
        r: Result<PortNext, LoadError>,
    ) -> bool {
        let pm = self.process_manager;
        match port_step(pm.pending@, pm.backend_port_range, s.answers@) {
            PortStep::TryPort(port) => *after == *self && r == Ok::<_, LoadError>(
                PortNext::Ask(s, Some(port)),
            ),
            PortStep::AskSystem => *after == *self && r == Ok::<_, LoadError>(
                PortNext::Ask(s, None),
            ),
            PortStep::NoFreePort => *after == *self && r == Err::<PortNext, _>(
                LoadError::SpawnFailed(SpawnError::NoFreePort),
            ),
            PortStep::UsePort(port) => {
                &&& r matches Ok(PortNext::Spawn(n, args))
                &&& n.id == s.id
                &&& n.extra == s.extra
                &&& n.request == s.request
                &&& self.plans_spawn(
                    after,
                    s.request.model,
                    match s.request.draft {
                        Some(d) => Some(&d),
                        None => None,
                    },
                    port,
                    (n.pending, args),
                )
            },
        }
    }

    /// Goes on with the answers so far about ports.
    pub fn seek_port(&mut self, s: Porting) -> (r: Result<PortNext, LoadError>)
        requires
            old(self).wf(),
        ensures
            final(self).wf(),
            old(self).takes_port(final(self), s, r),
    {
        match self.process_manager.next_port(&s.answers) {
            PortStep::TryPort(port) => Ok(PortNext::Ask(s, Some(port))),
            PortStep::AskSystem => Ok(PortNext::Ask(s, None)),
            PortStep::NoFreePort => Err(LoadError::SpawnFailed(SpawnError::NoFreePort)),
            PortStep::UsePort(port) => {
                let draft = match &s.request.draft {
                    Some(d) => Some(d),
                    None => None,
                };
                let (pending, args) = self.plan_spawn(&s.request.model, draft, port);
                let n = Spawning { id: s.id, extra: s.extra, request: s.request, pending };
                Ok(PortNext::Spawn(n, args))
            },
        }
    }

    /// Goes on after a port was asked for: the answer is the port that could be
    /// opened, or that none could.
    pub fn port_answered(&mut self, s: Porting, answer: Option<u16>) -> (r: Result<
        PortNext,
        LoadError,
    >)
        requires
            old(self).wf(),
        ensures
            final(self).wf(),
            exists|q: Porting|
                {
                    &&& q == (Porting { answers: q.answers, ..s })
                    &&& q.answers@ == s.answers@.push(answer)
                    &&& #[trigger] old(self).takes_port(final(self), q, r)
                },
    {
        let mut q = s;
        q.answers.push(answer);
        self.seek_port(q)
    }

    /// Goes on after the process was made, or could not be.
    pub fn process_made(&mut self, s: Spawning, outcome: Result<i32, String>, now: u64) -> (r:
        Result<Starting, LoadError>)
        requires
            old(self).wf(),
        ensures
            final(self).wf(),
            match outcome {
                Ok(pid) => {
                    let vram = s.request.model.estimated_vram;
                    &&& old(self).sets_aside(
                        final(self),
                        s.id@,
                        s.pending.port,
                        vram,
                        s.extra,
                        now,
                    )
                    &&& r == Ok::<_, LoadError>(
                        Starting { id: s.id, extra: s.extra, pending: s.pending, pid, vram },
                    )
                },
                Err(reason) => {
                    &&& old(self).frees_port(final(self), s.pending)
                    &&& r == Err::<Starting, _>(
                        LoadError::SpawnFailed(
                            SpawnError::SpawnFailed(reason, s.request.model.binary),
                        ),
                    )
                },
            },
    {
        match outcome {
            Ok(pid) => {
                let vram = s.request.model.estimated_vram;
                self.child_started(s.id.as_str(), s.pending.port, vram, s.extra, now);
                Ok(Starting { id: s.id, extra: s.extra, pending: s.pending, pid, vram })
            },
            Err(reason) => Err(self.spawn_failed(s.pending, reason, s.request.model.binary)),
        }
    }

    /// Goes on after the process has come up, or has not.
    pub fn process_up(&mut self, s: Starting, outcome: Result<(), HealthCheckError>, now: u64) -> (r:
        Result<RequestGuard, LoadError>)
        requires
            old(self).wf(),
            old(self).process_manager.next_serial < u64::MAX,
        ensures
            final(self).wf(),
            match (outcome, r) {
                (Ok(_), Ok(g)) => old(self).puts_in_service(
                    final(self),
                    s.id@,
                    s.pending,
                    s.pid,
                    s.vram,
                    s.extra,
                    now,
                    g,
                ),
                (Err(e), Err(f)) => old(self).drops_child(
                    final(self),
                    s.id@,
                    s.pending,
                    s.vram,
                    s.extra,
                    e,
                    now,
                    f,
                ),
                _ => false,
            },
    {
        match outcome {
            Ok(_) => Ok(
                self.child_ready(s.id.as_str(), s.pending, s.pid, s.vram, s.extra, now),
            ),
            Err(e) => Err(
                self.child_failed(s.id.as_str(), s.pending, s.vram, s.extra, e, now),
            ),
        }
    }
}

} // verus!
