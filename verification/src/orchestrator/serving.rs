//! The way of a request to an instance of its model. A step says what the
//! caller is to do; what came of it begins the next step.
use vstd::prelude::*;
use vstd::string::*;

use crate::config::model::ModelState;
use crate::orchestrator::engine::Orchestrator;
use crate::orchestrator::errors::LoadError;
use crate::orchestrator::loading::Acquire;
use crate::orchestrator::loading_laws::{
    law_a_load_waits_for_requests_to_end, law_a_request_takes_an_idle_instance,
};
use crate::process::manager::{
    lemma_first_idle, lemma_least_busy, next_instance, serves, InstanceInfo, RequestGuard,
};

verus! {

broadcast use vstd::string::group_string_axioms;

/// A request that found all instances busy.
#[derive(Debug)]
pub struct Scaling {
    pub id: String,
    /// Whether it is this request's turn to load the model.
    pub has_turn: bool,
}

/// A request that waits for its turn to load the model.
#[derive(Debug)]
pub struct Queued {
    pub id: String,
}

/// A request that loads the model.
#[derive(Debug)]
pub struct Claimed {
    pub id: String,
}

/// A request that found no room and waits for another one to end.
#[derive(Debug)]
pub struct Patient {
    pub id: String,
    /// What stood in the way.
    pub error: LoadError,
}

/// How a request goes on.
#[derive(Debug)]
pub enum ServeStep {
    /// An instance takes it.
    Ready(RequestGuard),
    /// Try to start a further instance.
    Scale(Scaling),
    /// Wait for the turn to load the model. One request loads it at a time.
    Queue(Queued),
    /// Start the first instance.
    Load(Claimed),
    /// Wait for some request to end, at most so many milliseconds.
    Wait(Patient, u64),
}

impl Orchestrator {
    /// Whether `r` and the state after it are how a request goes on that loads
    /// the model.
    pub open spec fn claims_load(
        &self,
        after: &Orchestrator,
        id: Seq<char>,
        r: Result<ServeStep, LoadError>,
    ) -> bool {
        exists|c: Result<(), LoadError>| #[trigger]
            self.claims(after, id, c) && match c {
                Ok(_) => r matches Ok(ServeStep::Load(l)) && l.id@ == id,
                Err(e) => r == Err::<ServeStep, _>(e),
            }
    }

    /// Whether `r` and the state after it are how a request begins.
    pub open spec fn begins_to_serve(
        &self,
        after: &Orchestrator,
        id: Seq<char>,
        r: ServeStep,
    ) -> bool {
        exists|a: Acquire| #[trigger]
            self.acquires(after, id, a) && match a {
                Acquire::Ready(g) => r == ServeStep::Ready(g),
                Acquire::Busy => r matches ServeStep::Scale(s) && s.id@ == id && !s.has_turn,
                Acquire::Absent => r matches ServeStep::Queue(q) && q.id@ == id,
            }
    }

    /// Whether `r` and the state after it are how a request goes on when it is
    /// its turn.
    pub open spec fn takes_turn(
        &self,
        after: &Orchestrator,
        q: Queued,
        r: Result<ServeStep, LoadError>,
    ) -> bool {
        exists|mid: Orchestrator, a: Acquire| #[trigger]
            self.acquires(&mid, q.id@, a) && match a {
                Acquire::Ready(g) => *after == mid && r == Ok::<_, LoadError>(ServeStep::Ready(g)),
                Acquire::Busy => *after == mid && r == Ok::<_, LoadError>(
                    ServeStep::Scale(Scaling { id: q.id, has_turn: true }),
                ),
                Acquire::Absent => mid.claims_load(after, q.id@, r),
            }
    }

    /// Whether `r` and the state after it are how a request goes on after an
    /// attempt to start a further instance.
    pub open spec fn has_tried_to_scale(
        &self,
        after: &Orchestrator,
        s: Scaling,
        attempt: Result<Option<RequestGuard>, LoadError>,
        now: u64,
        r: Result<ServeStep, LoadError>,
    ) -> bool {
        exists|mid: Orchestrator, t: Result<Option<RequestGuard>, LoadError>| #[trigger]
            self.goes_on_after_scale(&mid, s.id@, attempt, now, t) && match t {
                Ok(Some(g)) => *after == mid && r == Ok::<_, LoadError>(ServeStep::Ready(g)),
                Err(e) => *after == mid && r == Err::<ServeStep, _>(e),
                Ok(None) => if s.has_turn {
                    mid.claims_load(after, s.id@, r)
                } else {
                    *after == mid && r == Ok::<_, LoadError>(
                        ServeStep::Queue(Queued { id: s.id }),
                    )
                },
            }
    }

    /// Whether `r` and the state after it are how a request goes on after an
    /// attempt to start the first instance.
    pub open spec fn has_tried_to_load(
        &self,
        after: &Orchestrator,
        c: Claimed,
        attempt: Result<RequestGuard, LoadError>,
        elapsed_ms: u64,
        r: Result<ServeStep, LoadError>,
    ) -> bool {
        match attempt {
            Ok(g) => *after == *self && r == Ok::<_, LoadError>(ServeStep::Ready(g)),
            Err(e) => if e is InsufficientVram && self.patience(elapsed_ms) is Some {
                &&& *after == *self
                &&& r == Ok::<_, LoadError>(
                    ServeStep::Wait(
                        Patient { id: c.id, error: e },
                        self.patience(elapsed_ms)->0,
                    ),
                )
            } else {
                &&& self.gives_up(after, c.id@, e)
                &&& r == Err::<ServeStep, _>(e)
            },
        }
    }

    /// Whether `r` and the state after it are how a request goes on after
    /// waiting.
    pub open spec fn has_waited(
        &self,
        after: &Orchestrator,
        p: Patient,
        ended: bool,
        r: Result<ServeStep, LoadError>,
    ) -> bool {
        if ended {
            &&& *after == *self
            &&& r == Ok::<_, LoadError>(ServeStep::Load(Claimed { id: p.id }))
        } else {
            &&& self.gives_up(after, p.id@, p.error)
            &&& r == Err::<ServeStep, _>(p.error)
        }
    }

    fn claim(&mut self, id: String) -> (r: Result<ServeStep, LoadError>)
        requires
            old(self).wf(),
        ensures
            final(self).wf(),
            old(self).claims_load(final(self), id@, r),
    {
        let c = self.claim_loading(id.as_str());
        assert(old(self).claims(self, id@, c));
        match c {
            Ok(_) => Ok(ServeStep::Load(Claimed { id })),
            Err(e) => Err(e),
        }
    }

    /// Begins to serve a request for a model. An idle instance takes it at
    /// once.
    pub fn serve(&mut self, id: &str) -> (r: ServeStep)
        requires
            old(self).wf(),
        ensures
            final(self).wf(),
            old(self).begins_to_serve(final(self), id@, r),
            exists|a: Acquire| #[trigger]
                old(self).acquires(final(self), id@, a) && match a {
                    Acquire::Ready(g) => r == ServeStep::Ready(g),
                    Acquire::Busy => r matches ServeStep::Scale(s) && s.id@ == id@ && !s.has_turn,
                    Acquire::Absent => r matches ServeStep::Queue(q) && q.id@ == id@,
                },
    {
        let a = self.acquire(id);
        assert(old(self).acquires(self, id@, a));
        match a {
            Acquire::Ready(g) => ServeStep::Ready(g),
            Acquire::Busy => ServeStep::Scale(Scaling { id: id.to_owned(), has_turn: false }),
            Acquire::Absent => ServeStep::Queue(Queued { id: id.to_owned() }),
        }
    }

    /// Goes on when it is the request's turn. Another one may have loaded the
    /// model meanwhile.
    pub fn turn_came(&mut self, q: Queued) -> (r: Result<ServeStep, LoadError>)
        requires
            old(self).wf(),
        ensures
            final(self).wf(),
            old(self).takes_turn(final(self), q, r),
            exists|mid: Orchestrator, a: Acquire| #[trigger]
                old(self).acquires(&mid, q.id@, a) && match a {
                    Acquire::Ready(g) => *final(self) == mid && r == Ok::<_, LoadError>(
                        ServeStep::Ready(g),
                    ),
                    Acquire::Busy => *final(self) == mid && r == Ok::<_, LoadError>(
                        ServeStep::Scale(Scaling { id: q.id, has_turn: true }),
                    ),
                    Acquire::Absent => mid.claims_load(final(self), q.id@, r),
                },
    {
        let a = self.acquire(q.id.as_str());
        let ghost mid = *self;
        assert(old(self).acquires(&mid, q.id@, a));
        match a {
            Acquire::Ready(g) => Ok(ServeStep::Ready(g)),
            Acquire::Busy => Ok(ServeStep::Scale(Scaling { id: q.id, has_turn: true })),
            Acquire::Absent => self.claim(q.id),
        }
    }

    /// Goes on after an attempt to start a further instance. Where none is left
    /// to take the request, the model is loaded.
    pub fn scale_tried(
        &mut self,
        s: Scaling,
        attempt: Result<Option<RequestGuard>, LoadError>,
        now: u64,
    ) -> (r: Result<ServeStep, LoadError>)
        requires
            old(self).wf(),
        ensures
            final(self).wf(),
            old(self).has_tried_to_scale(final(self), s, attempt, now, r),
            exists|mid: Orchestrator, t: Result<Option<RequestGuard>, LoadError>| #[trigger]
                old(self).goes_on_after_scale(&mid, s.id@, attempt, now, t) && match t {
                    Ok(Some(g)) => *final(self) == mid && r == Ok::<_, LoadError>(
                        ServeStep::Ready(g),
                    ),
                    Err(e) => *final(self) == mid && r == Err::<ServeStep, _>(e),
                    Ok(None) => if s.has_turn {
                        mid.claims_load(final(self), s.id@, r)
                    } else {
                        *final(self) == mid && r == Ok::<_, LoadError>(
                            ServeStep::Queue(Queued { id: s.id }),
                        )
                    },
                },
    {
        let t = self.after_scale(s.id.as_str(), attempt, now);
        let ghost mid = *self;
        assert(old(self).goes_on_after_scale(&mid, s.id@, attempt, now, t));
        match t {
            Ok(Some(g)) => Ok(ServeStep::Ready(g)),
            Err(e) => Err(e),
            Ok(None) => if s.has_turn {
                self.claim(s.id)
            } else {
                Ok(ServeStep::Queue(Queued { id: s.id }))
            },
        }
    }

    /// Goes on after an attempt to start the first instance, so long after the
    /// request began to load the model. Where there was no room, it may be
    /// worth waiting for a request to end.
    pub fn load_tried(
        &mut self,
        c: Claimed,
        attempt: Result<RequestGuard, LoadError>,
        elapsed_ms: u64,
    ) -> (r: Result<ServeStep, LoadError>)
        requires
            old(self).wf(),
        ensures
            final(self).wf(),
            old(self).has_tried_to_load(final(self), c, attempt, elapsed_ms, r),
            match attempt {
                Ok(g) => *final(self) == *old(self) && r == Ok::<_, LoadError>(ServeStep::Ready(g)),
                Err(e) => if e is InsufficientVram && old(self).patience(elapsed_ms) is Some {
                    &&& *final(self) == *old(self)
                    &&& r == Ok::<_, LoadError>(
                        ServeStep::Wait(
                            Patient { id: c.id, error: e },
                            old(self).patience(elapsed_ms)->0,
                        ),
                    )
                } else {
                    &&& old(self).gives_up(final(self), c.id@, e)
                    &&& r == Err::<ServeStep, _>(e)
                },
            },
    {
        match attempt {
            Ok(g) => Ok(ServeStep::Ready(g)),
            Err(e) => {
                let no_room = match &e {
                    LoadError::InsufficientVram { .. } => true,
                    _ => false,
                };
                if no_room {
                    if let Some(ms) = self.wait_for_vram(elapsed_ms) {
                        return Ok(ServeStep::Wait(Patient { id: c.id, error: e }, ms));
                    }
                }
                self.load_failed(c.id.as_str(), &e);
                Err(e)
            },
        }
    }

    /// Goes on after waiting. Where a request has ended, there may be room now.
    pub fn wait_over(&mut self, p: Patient, ended: bool) -> (r: Result<ServeStep, LoadError>)
        requires
            old(self).wf(),
        ensures
            final(self).wf(),
            old(self).has_waited(final(self), p, ended, r),
            if ended {
                &&& *final(self) == *old(self)
                &&& r == Ok::<_, LoadError>(ServeStep::Load(Claimed { id: p.id }))
            } else {
                &&& old(self).gives_up(final(self), p.id@, p.error)
                &&& r == Err::<ServeStep, _>(p.error)
            },
    {
        if ended {
            Ok(ServeStep::Load(Claimed { id: p.id }))
        } else {
            self.load_failed(p.id.as_str(), &p.error);
            Err(p.error)
        }
    }
}

// ----- laws -----

/// A load that is given up leaves no model that seems to be loading.
pub proof fn law_no_model_stays_loading(
    before: &Orchestrator,
    after: &Orchestrator,
    id: Seq<char>,
    e: LoadError,
)
    requires
        before.gives_up(after, id, e),
        before.data.models@.dom().contains(id),
    ensures
        after.data.models@.dom().contains(id),
        !(after.data.models@[id].state is Loading),
        after.data.models@[id].pid is None,
        e is InsufficientVram <==> after.data.models@[id].state is Idle,
{
    let state = choose|state: ModelState|
        {
            &&& after.run_state() == #[trigger] before.run_state().put(id, state, None)
            &&& if e is InsufficientVram {
                state == ModelState::Idle
            } else {
                state matches ModelState::Error(m) && m@ == e.text()
            }
        };
    assert(after.run_state().models == before.run_state().put(id, state, None).models);
}

/// A request whose model has an idle instance is taken at once.
pub proof fn law_idle_instances_serve_at_once(
    before: &Orchestrator,
    after: &Orchestrator,
    id: Seq<char>,
    a: Acquire,
    k: int,
)
    requires
        before.acquires(after, id, a),
        0 <= k < before.process_manager.instances@.len(),
        serves(before.process_manager.instances@[k], id),
        before.process_manager.instances@[k].active == 0,
    ensures
        a is Ready,
{
    lemma_first_idle(before.process_manager.instances@, id, 0);
}

/// A request goes to an idle instance where there is one. Where all instances
/// are busy a further one is tried for, and where there is none the request
/// queues for its turn to load the model.
pub proof fn law_a_request_is_taken_scaled_or_queued(
    before: &Orchestrator,
    after: &Orchestrator,
    id: Seq<char>,
    r: ServeStep,
)
    requires
        before.begins_to_serve(after, id, r),
    ensures
        ({
            let s = before.process_manager.instances@;
            let served = exists|i: int| 0 <= i < s.len() && serves(#[trigger] s[i], id);
            let idle = exists|i: int|
                0 <= i < s.len() && serves(#[trigger] s[i], id) && s[i].active == 0;
            &&& r is Ready <==> idle
            &&& r is Scale <==> served && !idle
            &&& r is Queue <==> !served
            &&& !(r is Ready) ==> after.process_manager.instances@ == s
            &&& (r matches ServeStep::Scale(x) ==> x.id@ == id && !x.has_turn)
            &&& (r matches ServeStep::Queue(x) ==> x.id@ == id)
        }),
{
    let a = choose|a: Acquire| #[trigger]
        before.acquires(after, id, a) && match a {
            Acquire::Ready(g) => r == ServeStep::Ready(g),
            Acquire::Busy => r matches ServeStep::Scale(s) && s.id@ == id && !s.has_turn,
            Acquire::Absent => r matches ServeStep::Queue(q) && q.id@ == id,
        };
    law_a_request_takes_an_idle_instance(before, after, id, a);
    let s = before.process_manager.instances@;
    if exists|i: int| 0 <= i < s.len() && serves(#[trigger] s[i], id) && s[i].active == 0 {
        let k = choose|k: int| 0 <= k < s.len() && serves(#[trigger] s[k], id) && s[k].active == 0;
        law_idle_instances_serve_at_once(before, after, id, a, k);
    }
}

/// A request whose turn has come loads the model only where no instance has come
/// up meanwhile; a model that is not known cannot be loaded.
pub proof fn law_a_model_is_loaded_once(
    before: &Orchestrator,
    after: &Orchestrator,
    q: Queued,
    r: Result<ServeStep, LoadError>,
)
    requires
        before.takes_turn(after, q, r),
    ensures
        ({
            let s = before.process_manager.instances@;
            let served = exists|i: int| 0 <= i < s.len() && serves(#[trigger] s[i], q.id@);
            let known = before.data.models@.dom().contains(q.id@);
            &&& (r matches Ok(ServeStep::Load(l)) ==> !served && known && l.id@ == q.id@
                && after.data.models@[q.id@].state is Loading)
            &&& !served && known ==> (r matches Ok(ServeStep::Load(_)))
            &&& !served && !known ==> (r matches Err(LoadError::ModelNotFound(_)))
            &&& served ==> (r matches Ok(ServeStep::Ready(_))) || (r matches Ok(ServeStep::Scale(x))
                && x.has_turn && x.id == q.id)
        }),
{
    let (mid, a) = choose|mid: Orchestrator, a: Acquire| #[trigger]
        before.acquires(&mid, q.id@, a) && match a {
            Acquire::Ready(g) => *after == mid && r == Ok::<_, LoadError>(ServeStep::Ready(g)),
            Acquire::Busy => *after == mid && r == Ok::<_, LoadError>(
                ServeStep::Scale(Scaling { id: q.id, has_turn: true }),
            ),
            Acquire::Absent => mid.claims_load(after, q.id@, r),
        };
    law_a_request_takes_an_idle_instance(before, &mid, q.id@, a);
}

/// A request that found nothing to take it after a failed attempt to scale loads
/// the model where it is its turn, and queues for it where it is not.
pub proof fn law_a_request_without_an_instance_loads_or_queues(
    before: &Orchestrator,
    after: &Orchestrator,
    s: Scaling,
    attempt: Result<Option<RequestGuard>, LoadError>,
    now: u64,
    r: Result<ServeStep, LoadError>,
)
    requires
        before.has_tried_to_scale(after, s, attempt, now, r),
        before.data.models@.dom().contains(s.id@),
        forall|i: int|
            0 <= i < before.process_manager.instances@.len() ==> !serves(
                #[trigger] before.process_manager.instances@[i],
                s.id@,
            ),
    ensures
        attempt matches Ok(Some(g)) ==> r == Ok::<_, LoadError>(ServeStep::Ready(g)),
        attempt == Ok::<Option<RequestGuard>, LoadError>(None) && s.has_turn ==> r matches Ok(
            ServeStep::Load(_),
        ),
        attempt == Ok::<Option<RequestGuard>, LoadError>(None) && !s.has_turn ==> r matches Ok(
            ServeStep::Queue(_),
        ),
        attempt is Err && attempt->Err_0.of_configuration() ==> r is Err,
{
    let (mid, t) = choose|mid: Orchestrator, t: Result<Option<RequestGuard>, LoadError>| #[trigger]
        before.goes_on_after_scale(&mid, s.id@, attempt, now, t) && match t {
            Ok(Some(g)) => *after == mid && r == Ok::<_, LoadError>(ServeStep::Ready(g)),
            Err(e) => *after == mid && r == Err::<ServeStep, _>(e),
            Ok(None) => if s.has_turn {
                mid.claims_load(after, s.id@, r)
            } else {
                *after == mid && r == Ok::<_, LoadError>(ServeStep::Queue(Queued { id: s.id }))
            },
        };
    lemma_nothing_serves(before.process_manager.instances@, s.id@);
}

/// A load that found no room waits for the rest of its time while requests are
/// in flight. Any other failure, and a wait that brings nothing, is passed on,
/// and the model is not left loading; after a wait that brings something the
/// model is loaded again.
pub proof fn law_a_load_without_room_waits(
    before: &Orchestrator,
    after: &Orchestrator,
    c: Claimed,
    p: Patient,
    attempt: Result<RequestGuard, LoadError>,
    elapsed_ms: u64,
    ended: bool,
    r: Result<ServeStep, LoadError>,
)
    requires
        before.data.models@.dom().contains(c.id@),
        before.data.models@.dom().contains(p.id@),
    ensures
        before.has_tried_to_load(after, c, attempt, elapsed_ms, r) ==> {
            let busy = exists|i: int|
                0 <= i < before.process_manager.instances@.len() && (
                #[trigger] before.process_manager.instances@[i]).active > 0;
            &&& attempt matches Ok(g) ==> r == Ok::<_, LoadError>(ServeStep::Ready(g))
            &&& attempt matches Err(e) ==> if e is InsufficientVram && busy && elapsed_ms
                < before.vram_wait_ms {
                &&& r matches Ok(ServeStep::Wait(w, ms))
                &&& w.id == c.id
                &&& w.error == e
                &&& elapsed_ms + ms == before.vram_wait_ms
            } else {
                r == Err::<ServeStep, _>(e) && !(after.data.models@[c.id@].state is Loading)
            }
        },
        before.has_waited(after, p, ended, r) ==> {
            &&& ended ==> (r matches Ok(ServeStep::Load(l)) && l.id == p.id)
            &&& !ended ==> r == Err::<ServeStep, _>(p.error) && !(
            after.data.models@[p.id@].state is Loading)
        },
{
    law_a_load_waits_for_requests_to_end(before, elapsed_ms);
}

proof fn lemma_nothing_serves(s: Seq<InstanceInfo>, id: Seq<char>)
    requires
        forall|i: int| 0 <= i < s.len() ==> !serves(#[trigger] s[i], id),
    ensures
        next_instance(s, id) is None,
{
    lemma_first_idle(s, id, 0);
    lemma_least_busy(s, id, s.len() as int);
}

} // verus!
