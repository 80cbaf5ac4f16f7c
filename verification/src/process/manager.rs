//! Which instances serve which model.
use vstd::prelude::*;
use vstd::string::*;

use crate::config::model::ModelConfig;
use crate::orchestrator::eviction::{holds_name, names_hold};
use crate::process::argv::{build_command_args, instance_uses_gpu, structured_args, uses_gpu};
use crate::table::{Keyed, Table};
use crate::text::{
    chars_of, contains_chars, cut_once, find_first, first_at, has_infix, option_text,
    parse_unsigned, same_text, split_once_text, string_of_range, texts, trim, trim_start,
    trim_start_text, trim_text, unsigned_up_to,
};

verus! {

broadcast use vstd::string::group_string_axioms;

// ----- instances -----

/// One live server process.
#[derive(Debug)]
pub struct InstanceInfo {
    pub model_id: String,
    pub pid: i32,
    pub port: u16,
    /// How many requests are in flight to this instance.
    pub active: usize,
    pub uses_gpu: bool,
    /// Whether the process was started here, rather than made known.
    pub started_here: bool,
    /// Tells this instance from every other that there was.
    pub serial: u64,
}

impl Clone for InstanceInfo {
    fn clone(&self) -> (r: Self)
        ensures
            r == *self,
    {
        InstanceInfo {
            model_id: self.model_id.clone(),
            pid: self.pid,
            port: self.port,
            active: self.active,
            uses_gpu: self.uses_gpu,
            started_here: self.started_here,
            serial: self.serial,
        }
    }
}

/// How a model is served.
#[derive(Debug, Clone, Copy, PartialEq, Eq, Structural)]
pub struct ModelRuntime {
    pub instances: usize,
    pub pending: usize,
    pub active: usize,
}

impl Default for ModelRuntime {
    fn default() -> (r: Self)
        ensures
            r == (ModelRuntime { instances: 0, pending: 0, active: 0 }),
    {
        ModelRuntime { instances: 0, pending: 0, active: 0 }
    }
}

/// How the model of that name is served.
#[derive(Debug)]
pub struct NamedRuntime {
    pub model_id: String,
    pub runtime: ModelRuntime,
}

impl Keyed for NamedRuntime {
    open spec fn key(&self) -> Seq<char> {
        self.model_id@
    }

    fn name_of(&self) -> (r: &String) {
        &self.model_id
    }
}

/// A request in flight. It counts until it is released.
#[derive(Debug)]
pub struct RequestGuard {
    pub port: u16,
    pub pid: i32,
    pub serial: u64,
}

/// A process that was started but does not answer yet.
#[derive(Debug)]
pub struct PendingChild {
    pub model_id: String,
    pub port: u16,
    pub uses_gpu: bool,
}

/// A place taken by a pending process.
#[derive(Debug)]
pub struct Reservation {
    pub model_id: String,
    pub port: u16,
}

/// Whether an instance serves a model.
pub open spec fn serves(i: InstanceInfo, id: Seq<char>) -> bool {
    i.model_id@ == id
}

/// The instances of a model, oldest first.
pub open spec fn of_model(s: Seq<InstanceInfo>, id: Seq<char>) -> Seq<InstanceInfo> {
    s.filter(|i: InstanceInfo| serves(i, id))
}

/// How many of the first `n` instances serve a model.
pub open spec fn served_by(s: Seq<InstanceInfo>, id: Seq<char>, n: int) -> nat
    decreases n,
{
    if n <= 0 {
        0
    } else {
        served_by(s, id, n - 1) + if serves(s[n - 1], id) {
            1nat
        } else {
            0nat
        }
    }
}

/// How many of the first `n` reservations are for a model.
pub open spec fn reserved_for(s: Seq<Reservation>, id: Seq<char>, n: int) -> nat
    decreases n,
{
    if n <= 0 {
        0
    } else {
        reserved_for(s, id, n - 1) + if s[n - 1].model_id@ == id {
            1nat
        } else {
            0nat
        }
    }
}

/// The requests in flight to the first `n` instances that serve a model, held
/// at the greatest value.
pub open spec fn active_for(s: Seq<InstanceInfo>, id: Seq<char>, n: int) -> usize
    decreases n,
{
    if n <= 0 {
        0
    } else if serves(s[n - 1], id) {
        no_overflow(active_for(s, id, n - 1) + s[n - 1].active)
    } else {
        active_for(s, id, n - 1)
    }
}

/// A count held at the greatest value.
pub open spec fn no_overflow(n: int) -> usize {
    if n <= usize::MAX {
        n as usize
    } else {
        usize::MAX
    }
}

/// The first instance from `i` on that serves a model and is idle.
pub open spec fn first_idle(s: Seq<InstanceInfo>, id: Seq<char>, i: int) -> Option<int>
    decreases s.len() - i,
{
    if i >= s.len() {
        None
    } else if serves(s[i], id) && s[i].active == 0 {
        Some(i)
    } else {
        first_idle(s, id, i + 1)
    }
}

/// The instance with the fewest requests among the first `n` that serve a
/// model; the oldest of several.
pub open spec fn least_busy(s: Seq<InstanceInfo>, id: Seq<char>, n: int) -> Option<int>
    decreases n,
{
    if n <= 0 {
        None
    } else {
        let front = least_busy(s, id, n - 1);
        if !serves(s[n - 1], id) {
            front
        } else {
            match front {
                Some(j) => if s[n - 1].active < s[j].active {
                    Some(n - 1)
                } else {
                    front
                },
                None => Some(n - 1),
            }
        }
    }
}

/// The instance that takes the next request for a model: an idle one, else the
/// one with the fewest requests.
pub open spec fn next_instance(s: Seq<InstanceInfo>, id: Seq<char>) -> Option<int> {
    match first_idle(s, id, 0) {
        Some(i) => Some(i),
        None => least_busy(s, id, s.len() as int),
    }
}

/// The instances with one more request at position `i`.
pub open spec fn with_request(s: Seq<InstanceInfo>, i: int) -> Seq<InstanceInfo> {
    s.update(i, InstanceInfo { active: no_overflow(s[i].active + 1), ..s[i] })
}

/// The handle for a request to an instance.
pub open spec fn guard_of(i: InstanceInfo) -> RequestGuard {
    RequestGuard { port: i.port, pid: i.pid, serial: i.serial }
}

/// The first instance from `i` on with that serial number.
pub open spec fn at_serial(s: Seq<InstanceInfo>, serial: u64, i: int) -> Option<int>
    decreases s.len() - i,
{
    if i >= s.len() {
        None
    } else if s[i].serial == serial {
        Some(i)
    } else {
        at_serial(s, serial, i + 1)
    }
}

/// The instances with one request less where that serial number stands.
pub open spec fn after_release(s: Seq<InstanceInfo>, serial: u64) -> Seq<InstanceInfo> {
    match at_serial(s, serial, 0) {
        Some(i) => s.update(
            i,
            InstanceInfo {
                active: if s[i].active > 0 {
                    (s[i].active - 1) as usize
                } else {
                    0
                },
                ..s[i]
            },
        ),
        None => s,
    }
}

/// The first instance from `i` on with that process id.
pub open spec fn at_pid(s: Seq<InstanceInfo>, pid: i32, i: int) -> Option<int>
    decreases s.len() - i,
{
    if i >= s.len() {
        None
    } else if s[i].pid == pid {
        Some(i)
    } else {
        at_pid(s, pid, i + 1)
    }
}

/// The first instance from `i` on with that process id that was started here.
pub open spec fn at_child(s: Seq<InstanceInfo>, pid: i32, i: int) -> Option<int>
    decreases s.len() - i,
{
    if i >= s.len() {
        None
    } else if s[i].pid == pid && s[i].started_here {
        Some(i)
    } else {
        at_child(s, pid, i + 1)
    }
}

/// The instances without those of that model with that process id.
pub open spec fn without(s: Seq<InstanceInfo>, id: Seq<char>, pid: i32) -> Seq<InstanceInfo> {
    s.filter(|i: InstanceInfo| !(serves(i, id) && i.pid == pid))
}

/// Whether a model has instances and none has a request.
pub open spec fn is_idle(s: Seq<InstanceInfo>, id: Seq<char>) -> bool {
    &&& exists|i: int| 0 <= i < s.len() && serves(#[trigger] s[i], id)
    &&& forall|i: int| 0 <= i < s.len() && serves(#[trigger] s[i], id) ==> s[i].active == 0
}

/// Whether some reservation holds a port.
pub open spec fn port_taken(s: Seq<Reservation>, port: u16) -> bool {
    exists|i: int| 0 <= i < s.len() && #[trigger] s[i].port == port
}

/// The first reservation from `i` on of that model and port.
pub open spec fn at_reservation(
    s: Seq<Reservation>,
    id: Seq<char>,
    port: u16,
    i: int,
) -> Option<int>
    decreases s.len() - i,
{
    if i >= s.len() {
        None
    } else if s[i].model_id@ == id && s[i].port == port {
        Some(i)
    } else {
        at_reservation(s, id, port, i + 1)
    }
}

/// The reservations without the first one of that model and port.
pub open spec fn released(s: Seq<Reservation>, id: Seq<char>, port: u16) -> Seq<Reservation> {
    match at_reservation(s, id, port, 0) {
        Some(i) => s.remove(i),
        None => s,
    }
}

/// The instances without those of a model that were started here.
pub open spec fn after_stop(s: Seq<InstanceInfo>, id: Seq<char>) -> Seq<InstanceInfo> {
    s.filter(|i: InstanceInfo| !(serves(i, id) && i.started_here))
}

/// The processes of a model that were started here.
pub open spec fn started_pids(s: Seq<InstanceInfo>, id: Seq<char>) -> Seq<i32> {
    s.filter(|i: InstanceInfo| serves(i, id) && i.started_here).map_values(
        |i: InstanceInfo| i.pid,
    )
}

/// The instances after a process was forgotten.
pub open spec fn forgotten(s: Seq<InstanceInfo>, pid: i32) -> Seq<InstanceInfo> {
    match at_child(s, pid, 0) {
        Some(i) => without(s, s[i].model_id@, pid),
        None => match at_pid(s, pid, 0) {
            Some(i) => without(s, s[i].model_id@, pid),
            None => s,
        },
    }
}

/// What to do to get a port.
#[derive(Debug, Clone, Copy, PartialEq, Eq, Structural)]
pub enum PortStep {
    /// Try to open this port.
    TryPort(u16),
    /// Ask the system for a port.
    AskSystem,
    /// Use this port.
    UsePort(u16),
    /// There is none.
    NoFreePort,
}

/// The ports between the bounds that no pending process holds.
pub open spec fn ports_to_try(s: Seq<Reservation>, start: int, end: int) -> Seq<u16>
    decreases end - start + 1,
{
    if start > end {
        Seq::empty()
    } else {
        let front = ports_to_try(s, start, end - 1);
        if port_taken(s, end as u16) {
            front
        } else {
            front.push(end as u16)
        }
    }
}

/// The first of the ports from `i` on that could be opened; each is tried once.
pub open spec fn range_step(open: Seq<u16>, answers: Seq<Option<u16>>, i: int) -> PortStep
    decreases open.len() - i,
{
    if i >= open.len() {
        PortStep::NoFreePort
    } else if i >= answers.len() {
        PortStep::TryPort(open[i])
    } else if answers[i] is Some {
        PortStep::UsePort(open[i])
    } else {
        range_step(open, answers, i + 1)
    }
}

/// The first port from the system that no pending process holds, in 128 tries.
pub open spec fn system_step(s: Seq<Reservation>, answers: Seq<Option<u16>>, i: int) -> PortStep
    decreases 128 - i,
{
    if i >= 128 {
        PortStep::NoFreePort
    } else if i >= answers.len() {
        PortStep::AskSystem
    } else {
        match answers[i] {
            None => PortStep::NoFreePort,
            Some(p) => if port_taken(s, p) {
                system_step(s, answers, i + 1)
            } else {
                PortStep::UsePort(p)
            },
        }
    }
}

/// What to do next to get a port.
pub open spec fn port_step(
    s: Seq<Reservation>,
    range: Option<(u16, u16)>,
    answers: Seq<Option<u16>>,
) -> PortStep {
    match range {
        Some(r) => range_step(ports_to_try(s, r.0 as int, r.1 as int), answers, 0),
        None => system_step(s, answers, 0),
    }
}

fn holds_pid(pids: &Vec<i32>, pid: i32) -> (r: bool)
    ensures
        r == pids@.contains(pid),
{
    let mut i: usize = 0;
    while i < pids.len()
        invariant
            i <= pids@.len(),
            forall|j: int| 0 <= j < i ==> pids@[j] != pid,
        decreases pids@.len() - i,
    {
        if pids[i] == pid {
            return true;
        }
        i += 1;
    }
    false
}

/// Filtering keeps serial numbers distinct and invents no instance.
proof fn lemma_filter_keeps_serials(s: Seq<InstanceInfo>, p: spec_fn(InstanceInfo) -> bool)
    requires
        forall|i: int, j: int|
            0 <= i < j < s.len() ==> (#[trigger] s[i]).serial != (#[trigger] s[j]).serial,
    ensures
        forall|i: int, j: int|
            0 <= i < j < s.filter(p).len() ==> (#[trigger] s.filter(p)[i]).serial != (
            #[trigger] s.filter(p)[j]).serial,
        forall|x: InstanceInfo| s.filter(p).contains(x) ==> #[trigger] s.contains(x),
    decreases s.len(),
{
    reveal(Seq::filter);
    if s.len() > 0 {
        let t = s.drop_last();
        assert forall|i: int, j: int| 0 <= i < j < t.len() implies (#[trigger] t[i]).serial != (
        #[trigger] t[j]).serial by {
            assert(s[i].serial != s[j].serial);
        }
        lemma_filter_keeps_serials(t, p);
        let f = t.filter(p);
        let r = s.filter(p);
        assert forall|x: InstanceInfo| r.contains(x) implies #[trigger] s.contains(x) by {
            let k = choose|k: int| 0 <= k < r.len() && r[k] == x;
            if k < f.len() {
                assert(f.contains(x));
                assert(t.contains(x));
                let q = choose|q: int| 0 <= q < t.len() && t[q] == x;
                assert(s[q] == x);
            } else {
                assert(s[s.len() - 1] == x);
            }
        }
        assert forall|i: int, j: int| 0 <= i < j < r.len() implies (#[trigger] r[i]).serial != (
        #[trigger] r[j]).serial by {
            if j == f.len() {
                assert(f.contains(r[i]));
                assert(t.contains(r[i]));
                let q = choose|q: int| 0 <= q < t.len() && t[q] == r[i];
                assert(s[q].serial != s[s.len() - 1].serial);
            } else {
                assert(f[i].serial != f[j].serial);
            }
        }
    }
}

/// All server processes.
#[derive(Debug)]
pub struct ProcessManager {
    pub instances: Vec<InstanceInfo>,
    pub pending: Vec<Reservation>,
    pub next_serial: u64,
    /// The ports that processes may get; where absent, the system chooses.
    pub backend_port_range: Option<(u16, u16)>,
}

impl ProcessManager {
    /// Every instance has a serial number of its own.
    pub open spec fn wf(&self) -> bool {
        &&& forall|i: int|
            0 <= i < self.instances@.len() ==> (#[trigger] self.instances@[i]).serial
                < self.next_serial
        &&& forall|i: int, j: int|
            0 <= i < j < self.instances@.len() ==> (#[trigger] self.instances@[i]).serial != (
            #[trigger] self.instances@[j]).serial
    }

    /// A manager without processes.
    pub fn new(backend_port_range: Option<(u16, u16)>) -> (r: ProcessManager)
        ensures
            r.wf(),
            r.instances@.len() == 0,
            r.pending@.len() == 0,
            r.next_serial == 0,
            r.backend_port_range == backend_port_range,
    {
        ProcessManager {
            instances: Vec::new(),
            pending: Vec::new(),
            next_serial: 0,
            backend_port_range,
        }
    }

    // ----- starting -----

    /// Takes a port for a process of the model and says how to start it.
    pub fn spawn_child(
        &mut self,
        model: &ModelConfig,
        draft: Option<&ModelConfig>,
        port: u16,
    ) -> (r: (PendingChild, Vec<String>))
        requires
            old(self).wf(),
        ensures
            final(self).wf(),
            final(self).pending@ == old(self).pending@.push(
                Reservation { model_id: model.id, port },
            ),
            *final(self) == (ProcessManager { pending: final(self).pending, ..*old(self) }),
            texts(r.1@) == structured_args(model, draft, port) + texts(model.extra_args@),
            r.0 == (PendingChild {
                model_id: model.id,
                port,
                uses_gpu: uses_gpu(model, texts(r.1@)),
            }),
    {
        self.pending.push(Reservation { model_id: model.id.clone(), port });
        let args = build_command_args(model, draft, port);
        let uses_gpu = instance_uses_gpu(model, &args);
        (PendingChild { model_id: model.id.clone(), port, uses_gpu }, args)
    }

    /// Gives back the port of a pending process.
    fn release_pending(&mut self, model_id: &str, port: u16)
        ensures
            final(self).pending@ == released(old(self).pending@, model_id@, port),
            *final(self) == (ProcessManager { pending: final(self).pending, ..*old(self) }),
    {
        let mut i: usize = 0;
        while i < self.pending.len()
            invariant
                i <= self.pending@.len(),
                *self == *old(self),
                at_reservation(self.pending@, model_id@, port, 0) == at_reservation(
                    self.pending@,
                    model_id@,
                    port,
                    i as int,
                ),
            decreases self.pending@.len() - i,
        {
            if same_text(self.pending[i].model_id.as_str(), model_id) && self.pending[i].port
                == port {
                self.pending.remove(i);
                return ;
            }
            i += 1;
        }
    }

    /// Puts a process that answers into service, with the request that waited
    /// for it.
    pub fn register(&mut self, pending: PendingChild, pid: i32) -> (r: RequestGuard)
        requires
            old(self).wf(),
            old(self).next_serial < u64::MAX,
        ensures
            final(self).wf(),
            final(self).pending@ == released(
                old(self).pending@,
                pending.model_id@,
                pending.port,
            ),
            final(self).instances@ == old(self).instances@.push(
                InstanceInfo {
                    model_id: pending.model_id,
                    pid,
                    port: pending.port,
                    active: 1,
                    uses_gpu: pending.uses_gpu,
                    started_here: true,
                    serial: old(self).next_serial,
                },
            ),
            *final(self) == (ProcessManager {
                instances: final(self).instances,
                pending: final(self).pending,
                next_serial: (old(self).next_serial + 1) as u64,
                ..*old(self)
            }),
            r == guard_of(final(self).instances@.last()),
    {
        self.release_pending(pending.model_id.as_str(), pending.port);
        let serial = self.next_serial;
        self.next_serial = serial + 1;
        let port = pending.port;
        self.instances.push(
            InstanceInfo {
                model_id: pending.model_id,
                pid,
                port,
                active: 1,
                uses_gpu: pending.uses_gpu,
                started_here: true,
                serial,
            },
        );
        RequestGuard { port, pid, serial }
    }

    /// Drops a pending process that did not come up.
    pub fn discard_pending(&mut self, pending: PendingChild)
        requires
            old(self).wf(),
        ensures
            final(self).wf(),
            final(self).pending@ == released(
                old(self).pending@,
                pending.model_id@,
                pending.port,
            ),
            *final(self) == (ProcessManager { pending: final(self).pending, ..*old(self) }),
    {
        self.release_pending(pending.model_id.as_str(), pending.port);
    }

    /// Makes an instance known that was not started here.
    pub fn register_existing_instance(&mut self, model_id: &str, pid: i32, port: u16)
        requires
            old(self).wf(),
            old(self).next_serial < u64::MAX,
        ensures
            final(self).wf(),
            *final(self) == (ProcessManager {
                instances: final(self).instances,
                next_serial: (old(self).next_serial + 1) as u64,
                ..*old(self)
            }),
            final(self).instances@.len() == old(self).instances@.len() + 1,
            final(self).instances@.drop_last() == old(self).instances@,
            final(self).instances@.last().model_id@ == model_id@,
            final(self).instances@.last() == (InstanceInfo {
                model_id: final(self).instances@.last().model_id,
                pid,
                port,
                active: 0,
                uses_gpu: true,
                started_here: false,
                serial: old(self).next_serial,
            }),
    {
        let serial = self.next_serial;
        self.next_serial = serial + 1;
        self.instances.push(
            InstanceInfo {
                model_id: model_id.to_owned(),
                pid,
                port,
                active: 0,
                uses_gpu: true,
                started_here: false,
                serial,
            },
        );
        assert(self.instances@.drop_last() =~= old(self).instances@);
    }

    /// Makes an instance known whose process is not.
    pub fn register_existing_port(&mut self, model_id: &str, port: u16)
        requires
            old(self).wf(),
            old(self).next_serial < u64::MAX,
        ensures
            final(self).wf(),
            *final(self) == (ProcessManager {
                instances: final(self).instances,
                next_serial: (old(self).next_serial + 1) as u64,
                ..*old(self)
            }),
            final(self).instances@.len() == old(self).instances@.len() + 1,
            final(self).instances@.drop_last() == old(self).instances@,
            final(self).instances@.last().model_id@ == model_id@,
            final(self).instances@.last() == (InstanceInfo {
                model_id: final(self).instances@.last().model_id,
                pid: -1i32 as i32,
                port,
                active: 0,
                uses_gpu: true,
                started_here: false,
                serial: old(self).next_serial,
            }),
    {
        self.register_existing_instance(model_id, -1, port);
    }

    // ----- requests -----

    fn find_idle(&self, model_id: &str) -> (r: Option<usize>)
        ensures
            match r {
                Some(i) => i < self.instances@.len() && first_idle(
                    self.instances@,
                    model_id@,
                    0,
                ) == Some(i as int),
                None => first_idle(self.instances@, model_id@, 0) is None,
            },
    {
        let mut i: usize = 0;
        while i < self.instances.len()
            invariant
                i <= self.instances@.len(),
                first_idle(self.instances@, model_id@, 0) == first_idle(
                    self.instances@,
                    model_id@,
                    i as int,
                ),
            decreases self.instances@.len() - i,
        {
            if same_text(self.instances[i].model_id.as_str(), model_id)
                && self.instances[i].active == 0 {
                return Some(i);
            }
            i += 1;
        }
        None
    }

    fn find_least_busy(&self, model_id: &str) -> (r: Option<usize>)
        ensures
            match r {
                Some(i) => i < self.instances@.len() && least_busy(
                    self.instances@,
                    model_id@,
                    self.instances@.len() as int,
                ) == Some(i as int),
                None => least_busy(
                    self.instances@,
                    model_id@,
                    self.instances@.len() as int,
                ) is None,
            },
    {
        let mut best: Option<usize> = None;
        let mut i: usize = 0;
        while i < self.instances.len()
            invariant
                i <= self.instances@.len(),
                match best {
                    Some(j) => j < i && least_busy(self.instances@, model_id@, i as int) == Some(
                        j as int,
                    ),
                    None => least_busy(self.instances@, model_id@, i as int) is None,
                },
            decreases self.instances@.len() - i,
        {
            if same_text(self.instances[i].model_id.as_str(), model_id) {
                let better = match best {
                    Some(j) => self.instances[i].active < self.instances[j].active,
                    None => true,
                };
                if better {
                    best = Some(i);
                }
            }
            i += 1;
        }
        best
    }

    fn take(&mut self, i: usize) -> (r: RequestGuard)
        requires
            old(self).wf(),
            i < old(self).instances@.len(),
        ensures
            final(self).wf(),
            final(self).instances@ == with_request(old(self).instances@, i as int),
            *final(self) == (ProcessManager { instances: final(self).instances, ..*old(self) }),
            r == guard_of(old(self).instances@[i as int]),
    {
        let mut inst = self.instances[i].clone();
        inst.active = inst.active.saturating_add(1);
        let guard = RequestGuard { port: inst.port, pid: inst.pid, serial: inst.serial };
        self.instances.set(i, inst);
        guard
    }

    /// Hands a request to an idle instance of the model, if there is one.
    pub fn acquire_idle_instance(&mut self, model_id: &str) -> (r: Option<RequestGuard>)
        requires
            old(self).wf(),
        ensures
            final(self).wf(),
            *final(self) == (ProcessManager { instances: final(self).instances, ..*old(self) }),
            match first_idle(old(self).instances@, model_id@, 0) {
                Some(i) => {
                    &&& r == Some(guard_of(old(self).instances@[i]))
                    &&& final(self).instances@ == with_request(old(self).instances@, i)
                },
                None => r is None && final(self).instances@ == old(self).instances@,
            },
    {
        match self.find_idle(model_id) {
            Some(i) => Some(self.take(i)),
            None => None,
        }
    }

    /// Hands a request to an instance of the model: an idle one, else the one
    /// with the fewest requests.
    pub fn acquire_any_instance(&mut self, model_id: &str) -> (r: Option<RequestGuard>)
        requires
            old(self).wf(),
        ensures
            final(self).wf(),
            *final(self) == (ProcessManager { instances: final(self).instances, ..*old(self) }),
            match next_instance(old(self).instances@, model_id@) {
                Some(i) => {
                    &&& r == Some(guard_of(old(self).instances@[i]))
                    &&& final(self).instances@ == with_request(old(self).instances@, i)
                },
                None => r is None && final(self).instances@ == old(self).instances@,
            },
    {
        match self.find_idle(model_id) {
            Some(i) => Some(self.take(i)),
            None => match self.find_least_busy(model_id) {
                Some(i) => Some(self.take(i)),
                None => None,
            },
        }
    }

    /// Ends a request. Nothing happens where its instance is gone.
    pub fn release(&mut self, guard: RequestGuard)
        requires
            old(self).wf(),
        ensures
            final(self).wf(),
            *final(self) == (ProcessManager { instances: final(self).instances, ..*old(self) }),
            final(self).instances@ == after_release(old(self).instances@, guard.serial),
    {
        let mut i: usize = 0;
        while i < self.instances.len()
            invariant
                i <= self.instances@.len(),
                *self == *old(self),
                self.wf(),
                at_serial(self.instances@, guard.serial, 0) == at_serial(
                    self.instances@,
                    guard.serial,
                    i as int,
                ),
            decreases self.instances@.len() - i,
        {
            if self.instances[i].serial == guard.serial {
                let mut inst = self.instances[i].clone();
                inst.active = inst.active.saturating_sub(1);
                self.instances.set(i, inst);
                return ;
            }
            i += 1;
        }
    }

    // ----- questions -----

    /// How many instances a model has.
    pub fn instance_count(&self, model_id: &str) -> (r: usize)
        ensures
            r == served_by(self.instances@, model_id@, self.instances@.len() as int),
    {
        let mut n: usize = 0;
        let mut i: usize = 0;
        while i < self.instances.len()
            invariant
                i <= self.instances@.len(),
                n <= i,
                n == served_by(self.instances@, model_id@, i as int),
            decreases self.instances@.len() - i,
        {
            if same_text(self.instances[i].model_id.as_str(), model_id) {
                n += 1;
            }
            i += 1;
        }
        n
    }

    /// How many processes of a model do not answer yet.
    pub fn pending_count(&self, model_id: &str) -> (r: usize)
        ensures
            r == reserved_for(self.pending@, model_id@, self.pending@.len() as int),
    {
        let mut n: usize = 0;
        let mut i: usize = 0;
        while i < self.pending.len()
            invariant
                i <= self.pending@.len(),
                n <= i,
                n == reserved_for(self.pending@, model_id@, i as int),
            decreases self.pending@.len() - i,
        {
            if same_text(self.pending[i].model_id.as_str(), model_id) {
                n += 1;
            }
            i += 1;
        }
        n
    }

    /// How many instances a model has, with those that do not answer yet.
    pub fn total_instance_count(&self, model_id: &str) -> (r: usize)
        ensures
            r == no_overflow(
                (served_by(self.instances@, model_id@, self.instances@.len() as int)
                    + reserved_for(self.pending@, model_id@, self.pending@.len() as int)) as int,
            ),
    {
        self.instance_count(model_id).saturating_add(self.pending_count(model_id))
    }

    /// Whether any request is in flight.
    pub fn has_active_requests(&self) -> (r: bool)
        ensures
            r == exists|i: int|
                0 <= i < self.instances@.len() && (#[trigger] self.instances@[i]).active > 0,
    {
        let mut i: usize = 0;
        while i < self.instances.len()
            invariant
                i <= self.instances@.len(),
                forall|j: int| 0 <= j < i ==> (#[trigger] self.instances@[j]).active == 0,
            decreases self.instances@.len() - i,
        {
            if self.instances[i].active > 0 {
                return true;
            }
            i += 1;
        }
        false
    }

    /// How a model is served.
    pub open spec fn runtime(&self, id: Seq<char>) -> ModelRuntime {
        ModelRuntime {
            instances: served_by(self.instances@, id, self.instances@.len() as int) as usize,
            pending: reserved_for(self.pending@, id, self.pending@.len() as int) as usize,
            active: active_for(self.instances@, id, self.instances@.len() as int),
        }
    }

    /// Whether a model has an instance or a pending process.
    pub open spec fn knows(&self, id: Seq<char>) -> bool {
        ||| exists|i: int| 0 <= i < self.instances@.len() && serves(#[trigger] self.instances@[i], id)
        ||| exists|i: int|
            0 <= i < self.pending@.len() && (#[trigger] self.pending@[i]).model_id@ == id
    }

    /// How a model is served.
    pub fn model_runtime(&self, model_id: &str) -> (r: ModelRuntime)
        ensures
            r == self.runtime(model_id@),
    {
        let mut active: usize = 0;
        let mut i: usize = 0;
        while i < self.instances.len()
            invariant
                i <= self.instances@.len(),
                active == active_for(self.instances@, model_id@, i as int),
            decreases self.instances@.len() - i,
        {
            if same_text(self.instances[i].model_id.as_str(), model_id) {
                active = active.saturating_add(self.instances[i].active);
            }
            i += 1;
        }
        ModelRuntime {
            instances: self.instance_count(model_id),
            pending: self.pending_count(model_id),
            active,
        }
    }

    /// How every model is served that has an instance or a pending process.
    pub fn model_runtimes(&self) -> (r: Table<NamedRuntime>)
        ensures
            r.wf(),
            forall|id: Seq<char>|
                #![trigger r@.dom().contains(id)]
                {
                    &&& r@.dom().contains(id) <==> self.knows(id)
                    &&& r@.dom().contains(id) ==> r@[id].runtime == self.runtime(id)
                },
    {
        let mut r: Table<NamedRuntime> = Table::new();
        let mut i: usize = 0;
        while i < self.instances.len()
            invariant
                i <= self.instances@.len(),
                r.wf(),
                forall|id: Seq<char>|
                    #![trigger r@.dom().contains(id)]
                    {
                        &&& r@.dom().contains(id) <==> exists|j: int|
                            0 <= j < i && serves(#[trigger] self.instances@[j], id)
                        &&& r@.dom().contains(id) ==> r@[id].runtime == self.runtime(id)
                    },
            decreases self.instances@.len() - i,
        {
            let id = self.instances[i].model_id.clone();
            let runtime = self.model_runtime(id.as_str());
            let ghost before = r@;
            r.insert(NamedRuntime { model_id: id, runtime });
            assert forall|id: Seq<char>| #[trigger] r@.dom().contains(id) == exists|j: int|
                0 <= j < i + 1 && serves(#[trigger] self.instances@[j], id) by {
                if r@.dom().contains(id) {
                    if id == self.instances@[i as int].model_id@ {
                        assert(serves(self.instances@[i as int], id));
                    } else {
                        assert(before.dom().contains(id));
                    }
                }
                if exists|j: int| 0 <= j < i + 1 && serves(#[trigger] self.instances@[j], id) {
                    let j = choose|j: int|
                        0 <= j < i + 1 && serves(#[trigger] self.instances@[j], id);
                    if j < i {
                        assert(before.dom().contains(id));
                    }
                }
            }
            assert forall|id: Seq<char>| #[trigger] r@.dom().contains(id) implies r@[id].runtime
                == self.runtime(id) by {
                if id != self.instances@[i as int].model_id@ {
                    assert(before.dom().contains(id));
                }
            }
            i += 1;
        }
        let mut k: usize = 0;
        while k < self.pending.len()
            invariant
                k <= self.pending@.len(),
                r.wf(),
                forall|id: Seq<char>|
                    #![trigger r@.dom().contains(id)]
                    {
                        &&& r@.dom().contains(id) <==> (exists|j: int|
                            0 <= j < self.instances@.len() && serves(
                                #[trigger] self.instances@[j],
                                id,
                            )) || (exists|j: int|
                            0 <= j < k && (#[trigger] self.pending@[j]).model_id@ == id)
                        &&& r@.dom().contains(id) ==> r@[id].runtime == self.runtime(id)
                    },
            decreases self.pending@.len() - k,
        {
            let id = self.pending[k].model_id.clone();
            let runtime = self.model_runtime(id.as_str());
            let ghost before = r@;
            r.insert(NamedRuntime { model_id: id, runtime });
            assert forall|id: Seq<char>| #[trigger] r@.dom().contains(id) == ((exists|j: int|
                0 <= j < self.instances@.len() && serves(#[trigger] self.instances@[j], id)) || (
            exists|j: int|
                0 <= j < k + 1 && (#[trigger] self.pending@[j]).model_id@ == id)) by {
                assert(before.dom().contains(id) ==> r@.dom().contains(id));
                if r@.dom().contains(id) && id != self.pending@[k as int].model_id@ {
                    assert(before.dom().contains(id));
                }
                if exists|j: int| 0 <= j < k + 1 && (#[trigger] self.pending@[j]).model_id@ == id {
                    let j = choose|j: int|
                        0 <= j < k + 1 && (#[trigger] self.pending@[j]).model_id@ == id;
                    if j < k {
                        assert(before.dom().contains(id));
                    }
                }
                assert(self.pending@[k as int].model_id@ == self.pending@[k as int].model_id@);
            }
            assert forall|id: Seq<char>| #[trigger] r@.dom().contains(id) implies r@[id].runtime
                == self.runtime(id) by {
                if id != self.pending@[k as int].model_id@ {
                    assert(before.dom().contains(id));
                }
            }
            k += 1;
        }
        r
    }

    fn model_is_idle(&self, id: &str) -> (r: bool)
        ensures
            r == is_idle(self.instances@, id@),
    {
        let mut any = false;
        let mut i: usize = 0;
        while i < self.instances.len()
            invariant
                i <= self.instances@.len(),
                any == exists|j: int| 0 <= j < i && serves(#[trigger] self.instances@[j], id@),
                forall|j: int|
                    0 <= j < i && serves(#[trigger] self.instances@[j], id@)
                        ==> self.instances@[j].active == 0,
            decreases self.instances@.len() - i,
        {
            if same_text(self.instances[i].model_id.as_str(), id) {
                assert(serves(self.instances@[i as int], id@));
                any = true;
                if self.instances[i].active > 0 {
                    return false;
                }
            }
            i += 1;
        }
        any
    }

    /// The models all of whose instances are idle, each once.
    pub fn idle_model_ids(&self) -> (r: Vec<String>)
        ensures
            forall|id: Seq<char>| #[trigger] names_hold(r@, id) == is_idle(self.instances@, id),
            forall|i: int, j: int|
                0 <= i < j < r@.len() ==> (#[trigger] r@[i])@ != (#[trigger] r@[j])@,
    {
        let mut r: Vec<String> = Vec::new();
        let mut i: usize = 0;
        while i < self.instances.len()
            invariant
                i <= self.instances@.len(),
                forall|id: Seq<char>| #[trigger]
                    names_hold(r@, id) == (is_idle(self.instances@, id) && exists|j: int|
                        0 <= j < i && serves(#[trigger] self.instances@[j], id)),
                forall|a: int, b: int|
                    0 <= a < b < r@.len() ==> (#[trigger] r@[a])@ != (#[trigger] r@[b])@,
            decreases self.instances@.len() - i,
        {
            let id = self.instances[i].model_id.clone();
            let ghost before = r@;
            let ghost here = self.instances@[i as int].model_id@;
            assert(serves(self.instances@[i as int], here));
            if !holds_name(&r, id.as_str()) && self.model_is_idle(id.as_str()) {
                r.push(id);
                assert(r@[before.len() as int]@ == here);
                assert forall|a: int, b: int| 0 <= a < b < r@.len() implies (#[trigger] r@[a])@
                    != (#[trigger] r@[b])@ by {
                    if b == before.len() && r@[a]@ == here {
                        assert(before[a]@ == here);
                        assert(names_hold(before, here));
                    }
                }
            }
            assert forall|id: Seq<char>| #[trigger]
                names_hold(r@, id) == (is_idle(self.instances@, id) && exists|j: int|
                    0 <= j < i + 1 && serves(#[trigger] self.instances@[j], id)) by {
                if names_hold(before, id) {
                    let k = choose|k: int| 0 <= k < before.len() && #[trigger] before[k]@ == id;
                    assert(r@[k]@ == id);
                }
                if names_hold(r@, id) && !names_hold(before, id) {
                    let k = choose|k: int| 0 <= k < r@.len() && #[trigger] r@[k]@ == id;
                    if k < before.len() {
                        assert(before[k]@ == id);
                    }
                    assert(id == here);
                }
                if exists|j: int| 0 <= j < i + 1 && serves(#[trigger] self.instances@[j], id) {
                    let j = choose|j: int|
                        0 <= j < i + 1 && serves(#[trigger] self.instances@[j], id);
                    if j < i {
                        assert(names_hold(before, id) == is_idle(self.instances@, id));
                    } else {
                        assert(id == here);
                    }
                }
            }
            i += 1;
        }
        r
    }

    /// The model and process id of every instance whose process is not among
    /// those alive.
    pub fn dead_instances(&self, alive: &Vec<i32>) -> (r: Vec<(String, i32)>)
        ensures
            r@ == self.instances@.filter(|i: InstanceInfo| !alive@.contains(i.pid)).map_values(
                |i: InstanceInfo| (i.model_id, i.pid),
            ),
    {
        let ghost p = |i: InstanceInfo| !alive@.contains(i.pid);
        let ghost f = |i: InstanceInfo| (i.model_id, i.pid);
        let mut r: Vec<(String, i32)> = Vec::new();
        let mut i: usize = 0;
        assert(self.instances@.take(0).filter(p) =~= Seq::empty()) by {
            reveal(Seq::filter);
        }
        while i < self.instances.len()
            invariant
                i <= self.instances@.len(),
                p == (|i: InstanceInfo| !alive@.contains(i.pid)),
                f == (|i: InstanceInfo| (i.model_id, i.pid)),
                r@ =~= self.instances@.take(i as int).filter(p).map_values(f),
            decreases self.instances@.len() - i,
        {
            proof {
                reveal(Seq::filter);
                assert(self.instances@.take(i + 1).drop_last() =~= self.instances@.take(i as int));
            }
            if !holds_pid(alive, self.instances[i].pid) {
                r.push((self.instances[i].model_id.clone(), self.instances[i].pid));
            }
            i += 1;
        }
        assert(self.instances@.take(i as int) =~= self.instances@);
        r
    }

    /// The process ids of a model's instances, oldest first.
    pub fn pids_for_model(&self, model_id: &str) -> (r: Vec<i32>)
        ensures
            r@ == of_model(self.instances@, model_id@).map_values(|i: InstanceInfo| i.pid),
    {
        let ghost p = |i: InstanceInfo| serves(i, model_id@);
        let ghost f = |i: InstanceInfo| i.pid;
        let mut r: Vec<i32> = Vec::new();
        let mut i: usize = 0;
        assert(self.instances@.take(0).filter(p) =~= Seq::empty()) by {
            reveal(Seq::filter);
        }
        while i < self.instances.len()
            invariant
                i <= self.instances@.len(),
                p == (|i: InstanceInfo| serves(i, model_id@)),
                f == (|i: InstanceInfo| i.pid),
                r@ =~= self.instances@.take(i as int).filter(p).map_values(f),
            decreases self.instances@.len() - i,
        {
            proof {
                reveal(Seq::filter);
                assert(self.instances@.take(i + 1).drop_last() =~= self.instances@.take(i as int));
            }
            if same_text(self.instances[i].model_id.as_str(), model_id) {
                r.push(self.instances[i].pid);
            }
            i += 1;
        }
        assert(self.instances@.take(i as int) =~= self.instances@);
        r
    }

    /// Model, process id and port of every instance without a request.
    pub fn idle_instances(&self) -> (r: Vec<(String, i32, u16)>)
        ensures
            r@ == self.instances@.filter(|i: InstanceInfo| i.active == 0).map_values(
                |i: InstanceInfo| (i.model_id, i.pid, i.port),
            ),
    {
        let ghost p = |i: InstanceInfo| i.active == 0;
        let ghost f = |i: InstanceInfo| (i.model_id, i.pid, i.port);
        let mut r: Vec<(String, i32, u16)> = Vec::new();
        let mut i: usize = 0;
        assert(self.instances@.take(0).filter(p) =~= Seq::empty()) by {
            reveal(Seq::filter);
        }
        while i < self.instances.len()
            invariant
                i <= self.instances@.len(),
                p == (|i: InstanceInfo| i.active == 0),
                f == (|i: InstanceInfo| (i.model_id, i.pid, i.port)),
                r@ =~= self.instances@.take(i as int).filter(p).map_values(f),
            decreases self.instances@.len() - i,
        {
            proof {
                reveal(Seq::filter);
                assert(self.instances@.take(i + 1).drop_last() =~= self.instances@.take(i as int));
            }
            if self.instances[i].active == 0 {
                r.push(
                    (
                        self.instances[i].model_id.clone(),
                        self.instances[i].pid,
                        self.instances[i].port,
                    ),
                );
            }
            i += 1;
        }
        assert(self.instances@.take(i as int) =~= self.instances@);
        r
    }

    /// Model and process id of every instance that uses a GPU.
    pub fn gpu_instances(&self) -> (r: Vec<(String, i32)>)
        ensures
            r@ == self.instances@.filter(|i: InstanceInfo| i.uses_gpu).map_values(
                |i: InstanceInfo| (i.model_id, i.pid),
            ),
    {
        let ghost p = |i: InstanceInfo| i.uses_gpu;
        let ghost f = |i: InstanceInfo| (i.model_id, i.pid);
        let mut r: Vec<(String, i32)> = Vec::new();
        let mut i: usize = 0;
        assert(self.instances@.take(0).filter(p) =~= Seq::empty()) by {
            reveal(Seq::filter);
        }
        while i < self.instances.len()
            invariant
                i <= self.instances@.len(),
                p == (|i: InstanceInfo| i.uses_gpu),
                f == (|i: InstanceInfo| (i.model_id, i.pid)),
                r@ =~= self.instances@.take(i as int).filter(p).map_values(f),
            decreases self.instances@.len() - i,
        {
            proof {
                reveal(Seq::filter);
                assert(self.instances@.take(i + 1).drop_last() =~= self.instances@.take(i as int));
            }
            if self.instances[i].uses_gpu {
                r.push((self.instances[i].model_id.clone(), self.instances[i].pid));
            }
            i += 1;
        }
        assert(self.instances@.take(i as int) =~= self.instances@);
        r
    }

    /// The model that a process serves.
    pub fn model_id_for_pid(&self, pid: i32) -> (r: Option<String>)
        ensures
            match at_pid(self.instances@, pid, 0) {
                Some(i) => r == Some(self.instances@[i].model_id),
                None => r is None,
            },
    {
        let mut i: usize = 0;
        while i < self.instances.len()
            invariant
                i <= self.instances@.len(),
                at_pid(self.instances@, pid, 0) == at_pid(self.instances@, pid, i as int),
            decreases self.instances@.len() - i,
        {
            if self.instances[i].pid == pid {
                return Some(self.instances[i].model_id.clone());
            }
            i += 1;
        }
        None
    }

    // ----- stopping -----

    fn child_for_pid(&self, pid: i32) -> (r: Option<(String, u16)>)
        ensures
            match at_child(self.instances@, pid, 0) {
                Some(i) => r == Some((self.instances@[i].model_id, self.instances@[i].port)),
                None => r is None,
            },
    {
        let mut i: usize = 0;
        while i < self.instances.len()
            invariant
                i <= self.instances@.len(),
                at_child(self.instances@, pid, 0) == at_child(self.instances@, pid, i as int),
            decreases self.instances@.len() - i,
        {
            if self.instances[i].pid == pid && self.instances[i].started_here {
                return Some((self.instances[i].model_id.clone(), self.instances[i].port));
            }
            i += 1;
        }
        None
    }

    fn remove_instance(&mut self, model_id: &str, pid: i32)
        requires
            old(self).wf(),
        ensures
            final(self).wf(),
            final(self).instances@ == without(old(self).instances@, model_id@, pid),
            *final(self) == (ProcessManager { instances: final(self).instances, ..*old(self) }),
    {
        let ghost s = self.instances@;
        let ghost p = |i: InstanceInfo| !(serves(i, model_id@) && i.pid == pid);
        let mut kept: Vec<InstanceInfo> = Vec::new();
        let mut i: usize = 0;
        assert(s.take(0).filter(p) =~= Seq::empty()) by {
            reveal(Seq::filter);
        }
        while i < self.instances.len()
            invariant
                i <= self.instances@.len(),
                *self == *old(self),
                s == self.instances@,
                p == (|i: InstanceInfo| !(serves(i, model_id@) && i.pid == pid)),
                kept@ == s.take(i as int).filter(p),
            decreases self.instances@.len() - i,
        {
            proof {
                reveal(Seq::filter);
                assert(s.take(i + 1).drop_last() =~= s.take(i as int));
            }
            if !(same_text(self.instances[i].model_id.as_str(), model_id) && self.instances[i].pid
                == pid) {
                kept.push(self.instances[i].clone());
            }
            i += 1;
        }
        assert(s.take(i as int) =~= s);
        proof {
            lemma_filter_keeps_serials(s, p);
        }
        self.instances = kept;
        assert forall|i: int| 0 <= i < self.instances@.len() implies (
        #[trigger] self.instances@[i]).serial < self.next_serial by {
            assert(self.instances@.contains(self.instances@[i]));
            assert(s.contains(self.instances@[i]));
        }
    }

    /// Takes a process that was started here out of service and says which
    /// model and port it had. Where it was not started here nothing happens
    /// and it is not to be signalled.
    pub fn stop(&mut self, pid: i32) -> (r: Option<(String, u16)>)
        requires
            old(self).wf(),
        ensures
            final(self).wf(),
            *final(self) == (ProcessManager { instances: final(self).instances, ..*old(self) }),
            match at_child(old(self).instances@, pid, 0) {
                Some(i) => {
                    let inst = old(self).instances@[i];
                    &&& r == Some((inst.model_id, inst.port))
                    &&& final(self).instances@ == without(
                        old(self).instances@,
                        inst.model_id@,
                        pid,
                    )
                },
                None => r is None && final(self).instances@ == old(self).instances@,
            },
    {
        match self.child_for_pid(pid) {
            Some(c) => {
                self.remove_instance(c.0.as_str(), pid);
                Some(c)
            },
            None => None,
        }
    }

    /// Takes every process of a model that was started here out of service
    /// and says which they were.
    pub fn stop_model_instances(&mut self, model_id: &str) -> (r: Vec<i32>)
        requires
            old(self).wf(),
        ensures
            final(self).wf(),
            final(self).instances@ == after_stop(old(self).instances@, model_id@),
            r@ == started_pids(old(self).instances@, model_id@),
            *final(self) == (ProcessManager { instances: final(self).instances, ..*old(self) }),
    {
        let ghost s = self.instances@;
        let ghost p = |i: InstanceInfo| !(serves(i, model_id@) && i.started_here);
        let ghost q = |i: InstanceInfo| serves(i, model_id@) && i.started_here;
        let ghost f = |i: InstanceInfo| i.pid;
        let mut kept: Vec<InstanceInfo> = Vec::new();
        let mut pids: Vec<i32> = Vec::new();
        let mut i: usize = 0;
        assert(s.take(0).filter(p) =~= Seq::empty() && s.take(0).filter(q) =~= Seq::empty()) by {
            reveal(Seq::filter);
        }
        while i < self.instances.len()
            invariant
                i <= self.instances@.len(),
                *self == *old(self),
                s == self.instances@,
                p == (|i: InstanceInfo| !(serves(i, model_id@) && i.started_here)),
                q == (|i: InstanceInfo| serves(i, model_id@) && i.started_here),
                f == (|i: InstanceInfo| i.pid),
                kept@ == s.take(i as int).filter(p),
                pids@ =~= s.take(i as int).filter(q).map_values(f),
            decreases self.instances@.len() - i,
        {
            proof {
                reveal(Seq::filter);
                assert(s.take(i + 1).drop_last() =~= s.take(i as int));
            }
            if same_text(self.instances[i].model_id.as_str(), model_id)
                && self.instances[i].started_here {
                pids.push(self.instances[i].pid);
            } else {
                kept.push(self.instances[i].clone());
            }
            i += 1;
        }
        assert(s.take(i as int) =~= s);
        proof {
            lemma_filter_keeps_serials(s, p);
        }
        self.instances = kept;
        assert forall|i: int| 0 <= i < self.instances@.len() implies (
        #[trigger] self.instances@[i]).serial < self.next_serial by {
            assert(self.instances@.contains(self.instances@[i]));
            assert(s.contains(self.instances@[i]));
        }
        pids
    }

    /// Takes every instance of a model out of service.
    pub fn drop_model(&mut self, model_id: &str)
        requires
            old(self).wf(),
        ensures
            final(self).wf(),
            final(self).instances@ == old(self).instances@.filter(
                |i: InstanceInfo| !serves(i, model_id@),
            ),
            *final(self) == (ProcessManager { instances: final(self).instances, ..*old(self) }),
    {
        let ghost s = self.instances@;
        let ghost p = |i: InstanceInfo| !serves(i, model_id@);
        let mut kept: Vec<InstanceInfo> = Vec::new();
        let mut i: usize = 0;
        assert(s.take(0).filter(p) =~= Seq::empty()) by {
            reveal(Seq::filter);
        }
        while i < self.instances.len()
            invariant
                i <= self.instances@.len(),
                *self == *old(self),
                s == self.instances@,
                p == (|i: InstanceInfo| !serves(i, model_id@)),
                kept@ == s.take(i as int).filter(p),
            decreases self.instances@.len() - i,
        {
            proof {
                reveal(Seq::filter);
                assert(s.take(i + 1).drop_last() =~= s.take(i as int));
            }
            if !same_text(self.instances[i].model_id.as_str(), model_id) {
                kept.push(self.instances[i].clone());
            }
            i += 1;
        }
        assert(s.take(i as int) =~= s);
        proof {
            lemma_filter_keeps_serials(s, p);
        }
        self.instances = kept;
        assert forall|i: int| 0 <= i < self.instances@.len() implies (
        #[trigger] self.instances@[i]).serial < self.next_serial by {
            assert(self.instances@.contains(self.instances@[i]));
            assert(s.contains(self.instances@[i]));
        }
    }

    /// Takes a process out of service, whether it was started here or not.
    pub fn forget(&mut self, pid: i32)
        requires
            old(self).wf(),
        ensures
            final(self).wf(),
            *final(self) == (ProcessManager { instances: final(self).instances, ..*old(self) }),
            final(self).instances@ == forgotten(old(self).instances@, pid),
    {
        match self.child_for_pid(pid) {
            Some(c) => {
                self.remove_instance(c.0.as_str(), pid);
            },
            None => match self.model_id_for_pid(pid) {
                Some(id) => {
                    self.remove_instance(id.as_str(), pid);
                },
                None => {},
            },
        }
    }

    // ----- ports -----

    fn takes_port(&self, port: u16) -> (r: bool)
        ensures
            r == port_taken(self.pending@, port),
    {
        let mut i: usize = 0;
        while i < self.pending.len()
            invariant
                i <= self.pending@.len(),
                forall|j: int| 0 <= j < i ==> (#[trigger] self.pending@[j]).port != port,
            decreases self.pending@.len() - i,
        {
            if self.pending[i].port == port {
                return true;
            }
            i += 1;
        }
        false
    }

    fn open_ports(&self, start: u16, end: u16) -> (r: Vec<u16>)
        ensures
            r@ == ports_to_try(self.pending@, start as int, end as int),
    {
        let mut r: Vec<u16> = Vec::new();
        let mut p: u32 = start as u32;
        assert(r@ =~= ports_to_try(self.pending@, start as int, p - 1)) by {
            assert(start > p - 1);
        }
        while p <= end as u32
            invariant
                start <= p,
                start <= end ==> p <= end + 1,
                start > end ==> p == start,
                r@ == ports_to_try(self.pending@, start as int, p - 1),
            decreases end + 1 - p,
        {
            if !self.takes_port(p as u16) {
                r.push(p as u16);
            }
            p += 1;
        }
        r
    }

    /// What to do next to get a port, after the answers so far. An answer is
    /// the port that could be opened, or that none could.
    pub fn next_port(&self, answers: &Vec<Option<u16>>) -> (r: PortStep)
        ensures
            r == port_step(self.pending@, self.backend_port_range, answers@),
    {
        match self.backend_port_range {
            Some(range) => {
                let open = self.open_ports(range.0, range.1);
                let mut i: usize = 0;
                while i < open.len()
                    invariant
                        i <= open@.len(),
                        self.backend_port_range == Some(range),
                        open@ == ports_to_try(self.pending@, range.0 as int, range.1 as int),
                        range_step(open@, answers@, 0) == range_step(open@, answers@, i as int),
                    decreases open@.len() - i,
                {
                    if i >= answers.len() {
                        return PortStep::TryPort(open[i]);
                    }
                    if answers[i].is_some() {
                        return PortStep::UsePort(open[i]);
                    }
                    i += 1;
                }
                PortStep::NoFreePort
            },
            None => {
                let mut i: usize = 0;
                while i < 128
                    invariant
                        i <= 128,
                        self.backend_port_range is None,
                        system_step(self.pending@, answers@, 0) == system_step(
                            self.pending@,
                            answers@,
                            i as int,
                        ),
                    decreases 128 - i,
                {
                    if i >= answers.len() {
                        return PortStep::AskSystem;
                    }
                    match answers[i] {
                        None => {
                            return PortStep::NoFreePort;
                        },
                        Some(p) => {
                            if !self.takes_port(p) {
                                return PortStep::UsePort(p);
                            }
                        },
                    }
                    i += 1;
                }
                PortStep::NoFreePort
            },
        }
    }
}

/// The ports that a range such as `9100-9200` names.
pub open spec fn range_of(raw: Seq<char>) -> Option<(nat, nat)> {
    match cut_once(raw, seq!['-']) {
        Some(p) => match (
            unsigned_up_to(trim(p.0), u16::MAX as nat),
            unsigned_up_to(trim(p.1), u16::MAX as nat),
        ) {
            (Some(a), Some(b)) => if a <= b {
                Some((a, b))
            } else {
                None
            },
            _ => None,
        },
        None => None,
    }
}

/// Reads a range of ports.
pub fn parse_port_range(raw: &str) -> (r: Option<(u16, u16)>)
    ensures
        match range_of(raw@) {
            Some(p) => r == Some((p.0 as u16, p.1 as u16)),
            None => r is None,
        },
{
    proof {
        reveal_strlit("-");
        assert("-"@ =~= seq!['-']);
    }
    match split_once_text(raw, "-") {
        Some(p) => {
            let a = trim_text(p.0.as_str());
            let b = trim_text(p.1.as_str());
            match (parse_unsigned(a.as_str(), 65535), parse_unsigned(b.as_str(), 65535)) {
                (Some(x), Some(y)) => if x <= y {
                    Some((x as u16, y as u16))
                } else {
                    None
                },
                _ => None,
            }
        },
        None => None,
    }
}

// ----- starting up -----

/// What is known of a started process.
#[derive(Debug)]
pub enum ChildStatus {
    Alive,
    /// It ended, with this code and description.
    Exited(Option<i32>, String),
    /// It could not be asked.
    Unknown(String),
}

/// Why a process did not come up.
#[derive(Debug)]
pub enum HealthCheckError {
    /// It did not answer in so many seconds.
    Timeout(u64),
    Http(String),
    /// It ended, with this code and description.
    ChildExited(Option<i32>, String),
}

/// Why no process was started.
#[derive(Debug)]
pub enum SpawnError {
    /// The reason and the binary.
    SpawnFailed(String, String),
    HealthCheckFailed(HealthCheckError),
    NoFreePort,
}

/// What to do while a process comes up.
#[derive(Debug)]
pub enum HealthStep {
    /// Ask whether it is healthy.
    Ask,
    /// Give up.
    GiveUp(HealthCheckError),
}

/// Whether to ask a process that was started `elapsed_ms` ago for its health.
/// A process that ended will not answer, and after the timeout none is waited
/// for.
pub fn health_step(child: ChildStatus, elapsed_ms: u64, timeout_ms: u64) -> (r: HealthStep)
    ensures
        match child {
            ChildStatus::Exited(code, what) => r == HealthStep::GiveUp(
                HealthCheckError::ChildExited(code, what),
            ),
            ChildStatus::Unknown(why) => r matches HealthStep::GiveUp(
                HealthCheckError::ChildExited(code, what),
            ) && code is None && what@ == "try_wait: "@ + why@,
            ChildStatus::Alive => if elapsed_ms > timeout_ms {
                r == HealthStep::GiveUp(HealthCheckError::Timeout((timeout_ms / 1000) as u64))
            } else {
                r == HealthStep::Ask
            },
        },
{
    match child {
        ChildStatus::Exited(code, what) => HealthStep::GiveUp(
            HealthCheckError::ChildExited(code, what),
        ),
        ChildStatus::Unknown(why) => {
            let mut what = "try_wait: ".to_owned();
            what.append(why.as_str());
            HealthStep::GiveUp(HealthCheckError::ChildExited(None, what))
        },
        ChildStatus::Alive => if elapsed_ms > timeout_ms {
            HealthStep::GiveUp(HealthCheckError::Timeout(timeout_ms / 1000))
        } else {
            HealthStep::Ask
        },
    }
}

/// Whether the answer to a health request says that the process is ready.
pub fn is_healthy(status: Option<u16>) -> (r: bool)
    ensures
        r == (status matches Some(s) && 200 <= s < 300),
{
    match status {
        Some(s) => 200 <= s && s < 300,
        None => false,
    }
}

/// The piece of a line between its first `size =` and the next one.
pub open spec fn size_piece(line: Seq<char>) -> Option<Seq<char>> {
    match cut_once(line, "size ="@) {
        Some(p) => match cut_once(p.1, "size ="@) {
            Some(q) => Some(q.0),
            None => Some(p.1),
        },
        None => None,
    }
}

/// The size in MiB that a log line gives for a cache, as it is written there.
/// Lines on caches count cells.
pub open spec fn cache_size(line: Seq<char>) -> Option<Seq<char>> {
    match size_piece(line) {
        Some(p) => {
            let after = trim_start(p);
            match first_at(after, " MiB"@, 0) {
                Some(i) => if has_infix(after.skip(i), "cells,"@) {
                    Some(trim(after.take(i)))
                } else {
                    None
                },
                None => None,
            }
        },
        None => None,
    }
}

/// The size in MiB that a log line gives for a cache, as it is written there.
pub fn parse_kv_size_mib(line: &str) -> (r: Option<String>)
    ensures
        option_text(r) == cache_size(line@),
{
    let piece = match split_once_text(line, "size =") {
        Some(p) => match split_once_text(p.1.as_str(), "size =") {
            Some(q) => q.0,
            None => p.1,
        },
        None => {
            return None;
        },
    };
    let after = trim_start_text(piece.as_str());
    let v = chars_of(after.as_str());
    let unit = chars_of(" MiB");
    match find_first(&v, &unit, 0) {
        Some(i) => {
            let head = string_of_range(&v, 0, i);
            let tail = string_of_range(&v, i, v.len());
            assert(head@ =~= after@.take(i as int));
            assert(tail@ =~= after@.skip(i as int));
            let rest = chars_of(tail.as_str());
            let cells = chars_of("cells,");
            if contains_chars(&rest, &cells) {
                Some(trim_text(head.as_str()))
            } else {
                None
            }
        },
        None => None,
    }
}

// ----- laws -----

/// A request that ends leaves its instance as it was before.
pub proof fn law_release_undoes_acquire(m: &ProcessManager, i: int)
    requires
        m.wf(),
        0 <= i < m.instances@.len(),
        m.instances@[i].active < usize::MAX,
    ensures
        after_release(with_request(m.instances@, i), guard_of(m.instances@[i]).serial)
            == m.instances@,
{
    let s = m.instances@;
    let t = with_request(s, i);
    assert forall|j: int| 0 <= j < i implies (#[trigger] t[j]).serial != s[i].serial by {
        assert(s[j].serial != s[i].serial);
    }
    lemma_at_serial(t, s[i].serial, 0, i);
    assert(after_release(t, s[i].serial) =~= s);
}

proof fn lemma_at_serial(s: Seq<InstanceInfo>, serial: u64, from: int, i: int)
    requires
        0 <= from <= i < s.len(),
        s[i].serial == serial,
        forall|j: int| 0 <= j < i ==> (#[trigger] s[j]).serial != serial,
    ensures
        at_serial(s, serial, from) == Some(i),
    decreases i - from,
{
    if from < i {
        lemma_at_serial(s, serial, from + 1, i);
    }
}

/// Requests go to the instance with the fewest of them.
pub proof fn law_requests_go_to_the_least_busy(s: Seq<InstanceInfo>, id: Seq<char>, j: int)
    requires
        0 <= j < s.len(),
        serves(s[j], id),
    ensures
        next_instance(s, id) matches Some(i) && 0 <= i < s.len() && serves(s[i], id) && s[i].active
            <= s[j].active,
{
    lemma_first_idle(s, id, 0);
    lemma_least_busy(s, id, s.len() as int);
}

pub(crate) proof fn lemma_first_idle(s: Seq<InstanceInfo>, id: Seq<char>, from: int)
    requires
        0 <= from,
    ensures
        match first_idle(s, id, from) {
            Some(i) => from <= i < s.len() && serves(s[i], id) && s[i].active == 0,
            None => forall|i: int|
                from <= i < s.len() && serves(#[trigger] s[i], id) ==> s[i].active > 0,
        },
    decreases s.len() - from,
{
    if from < s.len() {
        lemma_first_idle(s, id, from + 1);
    }
}

pub(crate) proof fn lemma_least_busy(s: Seq<InstanceInfo>, id: Seq<char>, n: int)
    requires
        0 <= n <= s.len(),
    ensures
        match least_busy(s, id, n) {
            Some(i) => 0 <= i < n && serves(s[i], id) && forall|j: int|
                0 <= j < n && serves(#[trigger] s[j], id) ==> s[i].active <= s[j].active,
            None => forall|j: int| 0 <= j < n ==> !serves(#[trigger] s[j], id),
        },
    decreases n,
{
    if n > 0 {
        lemma_least_busy(s, id, n - 1);
    }
}

/// No two pending processes get the same port.
pub proof fn law_pending_ports_are_not_shared(
    s: Seq<Reservation>,
    range: Option<(u16, u16)>,
    answers: Seq<Option<u16>>,
)
    ensures
        port_step(s, range, answers) matches PortStep::UsePort(p) ==> !port_taken(s, p),
        port_step(s, range, answers) matches PortStep::UsePort(p) ==> (range matches Some(r)
            ==> r.0 <= p <= r.1),
{
    match range {
        Some(r) => {
            let open = ports_to_try(s, r.0 as int, r.1 as int);
            lemma_ports_to_try(s, r.0 as int, r.1 as int);
            lemma_range_step(open, answers, 0);
        },
        None => {
            lemma_system_step(s, answers, 0);
        },
    }
}

proof fn lemma_ports_to_try(s: Seq<Reservation>, start: int, end: int)
    requires
        0 <= start,
        end <= u16::MAX,
    ensures
        forall|i: int|
            0 <= i < ports_to_try(s, start, end).len() ==> !port_taken(
                s,
                #[trigger] ports_to_try(s, start, end)[i],
            ) && start <= ports_to_try(s, start, end)[i] <= end,
    decreases end - start + 1,
{
    if start <= end {
        lemma_ports_to_try(s, start, end - 1);
        let front = ports_to_try(s, start, end - 1);
        let all = ports_to_try(s, start, end);
        assert forall|i: int| 0 <= i < all.len() implies !port_taken(s, #[trigger] all[i]) && start
            <= all[i] <= end by {
            if i < front.len() {
                assert(all[i] == front[i]);
            }
        }
    }
}

proof fn lemma_range_step(open: Seq<u16>, answers: Seq<Option<u16>>, i: int)
    requires
        0 <= i,
    ensures
        range_step(open, answers, i) matches PortStep::UsePort(p) ==> exists|j: int|
            0 <= j < open.len() && #[trigger] open[j] == p,
    decreases open.len() - i,
{
    if i < open.len() {
        lemma_range_step(open, answers, i + 1);
    }
}

proof fn lemma_system_step(s: Seq<Reservation>, answers: Seq<Option<u16>>, i: int)
    requires
        0 <= i,
    ensures
        system_step(s, answers, i) matches PortStep::UsePort(p) ==> !port_taken(s, p),
    decreases 128 - i,
{
    if i < 128 {
        lemma_system_step(s, answers, i + 1);
    }
}

/// A process that does not come up leaves no reservation behind.
pub proof fn law_discard_undoes_reserve(s: Seq<Reservation>, r: Reservation)
    requires
        !port_taken(s, r.port),
    ensures
        released(s.push(r), r.model_id@, r.port) == s,
{
    let t = s.push(r);
    assert forall|j: int| 0 <= j < s.len() implies (#[trigger] t[j]).port != r.port by {
        assert(s[j].port == t[j].port);
    }
    lemma_at_reservation(t, r.model_id@, r.port, 0);
    assert(t.remove(s.len() as int) =~= s);
}

proof fn lemma_at_reservation(t: Seq<Reservation>, id: Seq<char>, port: u16, from: int)
    requires
        0 <= from < t.len(),
        t.last().model_id@ == id,
        t.last().port == port,
        forall|j: int| 0 <= j < t.len() - 1 ==> (#[trigger] t[j]).port != port,
    ensures
        at_reservation(t, id, port, from) == Some(t.len() - 1),
    decreases t.len() - from,
{
    if from < t.len() - 1 {
        lemma_at_reservation(t, id, port, from + 1);
    }
}

} // verus!
