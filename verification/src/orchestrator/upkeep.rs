//! Keeping what is known in step with what happens, and recovering from
//! processes that hang.
use vstd::prelude::*;
use vstd::string::*;

use crate::api::json::{json_single, json_str, json_text, render_json, JsonView};
use crate::config::alias::ModelAlias;
use crate::config::model::{ModelConfig, ModelState};
use crate::config::preset::BinaryPreset;
use crate::config::settings::AppSettings;
use crate::orchestrator::crud::RunState;
use crate::orchestrator::engine::{put_state, AppData, EventLevel, Orchestrator};
use crate::process::manager::{
    at_child, at_pid, forgotten, without, InstanceInfo, ProcessManager,
};
use crate::text::{blank, decimal, decimal_int, decimal_text, decimal_text_signed, trim, trim_text};
use crate::vram::tracker::GpuInfo;

verus! {

broadcast use vstd::string::group_string_axioms;

// ----- recycling -----

/// What is left to do after an instance was recycled.
#[derive(Debug)]
pub struct Recycled {
    pub model_id: String,
    /// Whether the process was started here and is to be ended.
    pub signal: bool,
    /// What the operator is told.
    pub notice: String,
}

/// The mathematical content of a `Recycled`.
pub struct RecycledView {
    pub model_id: Seq<char>,
    pub signal: bool,
    pub notice: Seq<char>,
}

impl View for Recycled {
    type V = RecycledView;

    open spec fn view(&self) -> RecycledView {
        RecycledView { model_id: self.model_id@, signal: self.signal, notice: self.notice@ }
    }
}

/// Processes that were recycled, as values.
pub open spec fn recycled_views(s: Seq<(i32, Recycled)>) -> Seq<(i32, RecycledView)> {
    s.map_values(|x: (i32, Recycled)| (x.0, x.1@))
}

/// The instances after a process was stopped.
pub open spec fn after_stop_pid(s: Seq<InstanceInfo>, pid: i32) -> Seq<InstanceInfo> {
    match at_child(s, pid, 0) {
        Some(i) => without(s, s[i].model_id@, pid),
        None => s,
    }
}

impl RunState {
    /// With the model in a state if it has no instance left.
    pub open spec fn settle(self, id: Seq<char>, state: ModelState) -> RunState {
        if self.count(id) == 0 {
            self.put(id, state, None)
        } else {
            self
        }
    }

    /// With an instance recycled, if the process is known.
    pub open spec fn recycle(self, pid: i32, reason: Seq<char>, now: u64) -> RunState {
        match at_pid(self.instances, pid, 0) {
            Some(i) => {
                let id = self.instances[i].model_id@;
                let told = self.note(
                    EventLevel::Warn,
                    "recycling "@ + id + " (pid "@ + decimal_int(pid as int) + "): "@ + reason,
                    now,
                );
                RunState { instances: after_stop_pid(told.instances, pid), ..told }.settle(
                    id,
                    ModelState::Idle,
                )
            },
            None => self,
        }
    }

    /// With the first `n` processes recycled one after the other.
    pub open spec fn recycle_all(
        self,
        pids: Seq<i32>,
        n: int,
        reason: Seq<char>,
        now: u64,
    ) -> RunState
        decreases n,
    {
        if n <= 0 {
            self
        } else {
            self.recycle_all(pids, n - 1, reason, now).recycle(pids[n - 1], reason, now)
        }
    }

    /// What is left to do after an instance was recycled, if the process is
    /// known.
    pub open spec fn recovery(self, pid: i32, reason: Seq<char>) -> Option<RecycledView> {
        match at_pid(self.instances, pid, 0) {
            Some(i) => {
                let id = self.instances[i].model_id@;
                Some(
                    RecycledView {
                        model_id: id,
                        signal: at_child(self.instances, pid, 0) is Some,
                        notice: "inference-router recycled "@ + id + " (pid "@ + decimal_int(
                            pid as int,
                        ) + "): "@ + reason,
                    },
                )
            },
            None => None,
        }
    }

    /// What is left to do after the first `n` processes were recycled, as far
    /// as they are known when their turn comes.
    pub open spec fn recoveries(
        self,
        pids: Seq<i32>,
        n: int,
        reason: Seq<char>,
        now: u64,
    ) -> Seq<(i32, RecycledView)>
        decreases n,
    {
        if n <= 0 {
            Seq::empty()
        } else {
            let front = self.recoveries(pids, n - 1, reason, now);
            match self.recycle_all(pids, n - 1, reason, now).recovery(pids[n - 1], reason) {
                Some(x) => front.push((pids[n - 1], x)),
                None => front,
            }
        }
    }
}

impl Orchestrator {
    /// Takes an instance that hangs out of service, so that the next request
    /// starts a new one. Nothing happens where the process is not known.
    pub fn recycle_instance(&mut self, pid: i32, reason: &str, now: u64) -> (r: Option<Recycled>)
        requires
            old(self).wf(),
        ensures
            final(self).wf(),
            final(self).run_state() == old(self).run_state().recycle(pid, reason@, now),
            final(self).same_but_run_state(old(self)),
            match old(self).run_state().recovery(pid, reason@) {
                Some(v) => r is Some && (r->0)@ == v && final(self).dirty,
                None => r is None && final(self).dirty == old(self).dirty,
            },
    {
        let id = match self.process_manager.model_id_for_pid(pid) {
            Some(id) => id,
            None => {
                return None;
            },
        };
        let p = decimal_text_signed(pid as i64);
        self.record_event(
            EventLevel::Warn,
            "recycling ".to_owned().concat(id.as_str()).concat(" (pid ").concat(
                p.as_str(),
            ).concat("): ").concat(reason),
            now,
        );
        let signal = self.process_manager.stop(pid).is_some();
        if self.process_manager.instance_count(id.as_str()) == 0 {
            put_state(&mut self.data.models, id.as_str(), ModelState::Idle, None);
        }
        self.dirty = true;
        let notice = "inference-router recycled ".to_owned().concat(id.as_str()).concat(
            " (pid ",
        ).concat(p.as_str()).concat("): ").concat(reason);
        Some(Recycled { model_id: id, signal, notice })
    }

    /// The processes of the instances that use a GPU.
    pub open spec fn gpu_pids(&self) -> Seq<i32> {
        self.process_manager.instances@.filter(|i: InstanceInfo| i.uses_gpu).map_values(
            |i: InstanceInfo| i.pid,
        )
    }

    /// Recycles every instance that uses a GPU.
    pub fn recycle_gpu_instances(&mut self, reason: &str, now: u64) -> (r: Vec<(i32, Recycled)>)
        requires
            old(self).wf(),
        ensures
            final(self).wf(),
            ({
                let pids = old(self).gpu_pids();
                let before = old(self).run_state();
                &&& final(self).run_state() == before.recycle_all(
                    pids,
                    pids.len() as int,
                    reason@,
                    now,
                )
                &&& recycled_views(r@) == before.recoveries(
                    pids,
                    pids.len() as int,
                    reason@,
                    now,
                )
            }),
            final(self).same_but_run_state(old(self)),
    {
        let gpu = self.process_manager.gpu_instances();
        let ghost pids = self.gpu_pids();
        let ghost before = self.run_state();
        assert(gpu@.len() == pids.len());
        assert(forall|j: int| 0 <= j < gpu@.len() ==> (#[trigger] gpu@[j]).1 == pids[j]);
        let mut r: Vec<(i32, Recycled)> = Vec::new();
        assert(recycled_views(r@) =~= Seq::empty());
        let mut i: usize = 0;
        while i < gpu.len()
            invariant
                i <= gpu@.len(),
                self.wf(),
                gpu@.len() == pids.len(),
                forall|j: int| 0 <= j < gpu@.len() ==> (#[trigger] gpu@[j]).1 == pids[j],
                self.run_state() == before.recycle_all(pids, i as int, reason@, now),
                recycled_views(r@) == before.recoveries(pids, i as int, reason@, now),
                self.same_but_run_state(old(self)),
            decreases gpu@.len() - i,
        {
            let pid = gpu[i].1;
            match self.recycle_instance(pid, reason, now) {
                Some(x) => {
                    let ghost done = r@;
                    let ghost xv = x@;
                    r.push((pid, x));
                    assert(recycled_views(r@) =~= recycled_views(done).push((pid, xv)));
                },
                None => {},
            }
            i += 1;
        }
        r
    }

    /// Recovers from a reset of a GPU engine: recycles every instance that
    /// uses a GPU, and tells how many there were.
    pub fn engine_reset(&mut self, now: u64) -> (r: Vec<(i32, Recycled)>)
        requires
            old(self).wf(),
        ensures
            final(self).wf(),
            ({
                let pids = old(self).gpu_pids();
                let before = old(self).run_state();
                let why = "GPU engine reset (devcoredump detected)"@;
                &&& final(self).run_state() == before.recycle_all(
                    pids,
                    pids.len() as int,
                    why,
                    now,
                ).note(
                    EventLevel::Error,
                    "GPU engine reset detected; recycled "@ + decimal(r@.len())
                        + " GPU instance(s)"@,
                    now,
                )
                &&& recycled_views(r@) == before.recoveries(pids, pids.len() as int, why, now)
            }),
            final(self).same_but_run_state(old(self)),
    {
        let r = self.recycle_gpu_instances("GPU engine reset (devcoredump detected)", now);
        let n = decimal_text(r.len() as u64);
        self.record_event(
            EventLevel::Error,
            "GPU engine reset detected; recycled ".to_owned().concat(n.as_str()).concat(
                " GPU instance(s)",
            ),
            now,
        );
        r
    }

    /// Where the operator is told of recoveries, if anywhere.
    pub fn notify_target(&self) -> (r: Option<String>)
        ensures
            ({
                let url = trim(self.settings.watchdog.notify_webhook_url@);
                if url.len() == 0 {
                    r is None
                } else {
                    r matches Some(u) && u@ == url
                }
            }),
    {
        let url = trim_text(self.settings.watchdog.notify_webhook_url.as_str());
        if url.as_str().is_empty() {
            None
        } else {
            Some(url)
        }
    }
}

// ----- liveness -----

/// How often in a row a process has not answered.
#[derive(Debug)]
pub struct Silence {
    pub pid: i32,
    pub count: u32,
}

/// What is known of processes that do not answer.
#[derive(Debug)]
pub struct LivenessTracker {
    pub silent: Vec<Silence>,
}

/// How often in a row a process has not answered.
pub open spec fn silence_of(s: Seq<Silence>, pid: i32, n: int) -> u32
    decreases n,
{
    if n <= 0 {
        0
    } else if s[n - 1].pid == pid {
        s[n - 1].count
    } else {
        silence_of(s, pid, n - 1)
    }
}

impl LivenessTracker {
    /// How often in a row a process has not answered.
    pub open spec fn count(&self, pid: i32) -> u32 {
        silence_of(self.silent@, pid, self.silent@.len() as int)
    }

    /// Nothing is known yet.
    pub fn new() -> (r: LivenessTracker)
        ensures
            forall|pid: i32| #[trigger] r.count(pid) == 0,
    {
        LivenessTracker { silent: Vec::new() }
    }

    fn read(&self, pid: i32) -> (r: u32)
        ensures
            r == self.count(pid),
    {
        let mut i: usize = self.silent.len();
        while i > 0
            invariant
                i <= self.silent@.len(),
                self.count(pid) == silence_of(self.silent@, pid, i as int),
            decreases i,
        {
            if self.silent[i - 1].pid == pid {
                return self.silent[i - 1].count;
            }
            i -= 1;
        }
        0
    }

    fn write(&mut self, pid: i32, count: u32)
        ensures
            forall|p: i32| #[trigger]
                final(self).count(p) == (if p == pid {
                    count
                } else {
                    old(self).count(p)
                }),
    {
        let ghost s = self.silent@;
        let mut kept: Vec<Silence> = Vec::new();
        let mut i: usize = 0;
        while i < self.silent.len()
            invariant
                i <= self.silent@.len(),
                s == self.silent@,
                *self == *old(self),
                forall|p: i32| #[trigger]
                    silence_of(kept@, p, kept@.len() as int) == (if p == pid {
                        0
                    } else {
                        silence_of(s, p, i as int)
                    }),
            decreases self.silent@.len() - i,
        {
            if self.silent[i].pid != pid {
                let ghost before = kept@;
                kept.push(Silence { pid: self.silent[i].pid, count: self.silent[i].count });
                proof {
                    lemma_silence_push(before, kept@[before.len() as int]);
                }
            }
            i += 1;
        }
        let ghost before = kept@;
        kept.push(Silence { pid, count });
        proof {
            lemma_silence_push(before, kept@[before.len() as int]);
        }
        self.silent = kept;
    }

    /// Forgets processes that are gone.
    pub fn keep_only(&mut self, live: &Vec<i32>)
        ensures
            forall|p: i32| #[trigger]
                final(self).count(p) == (if live@.contains(p) {
                    old(self).count(p)
                } else {
                    0
                }),
    {
        let ghost s = self.silent@;
        let mut kept: Vec<Silence> = Vec::new();
        let mut i: usize = 0;
        while i < self.silent.len()
            invariant
                i <= self.silent@.len(),
                s == self.silent@,
                *self == *old(self),
                forall|p: i32| #[trigger]
                    silence_of(kept@, p, kept@.len() as int) == (if live@.contains(p) {
                        silence_of(s, p, i as int)
                    } else {
                        0
                    }),
            decreases self.silent@.len() - i,
        {
            if holds(live, self.silent[i].pid) {
                let ghost before = kept@;
                kept.push(Silence { pid: self.silent[i].pid, count: self.silent[i].count });
                proof {
                    lemma_silence_push(before, kept@[before.len() as int]);
                }
            }
            i += 1;
        }
        self.silent = kept;
    }

    /// Notes whether a process answered. Once it has not answered `max_fail`
    /// times in a row it is to be recycled; the result says how often it was.
    pub fn note(&mut self, pid: i32, timed_out: bool, max_fail: u32) -> (r: Option<u32>)
        requires
            old(self).count(pid) < max_fail,
        ensures
            ({
                let n = (old(self).count(pid) + 1) as u32;
                &&& r == (if timed_out && n >= max_fail {
                    Some(n)
                } else {
                    None
                })
                &&& forall|p: i32| #[trigger]
                    final(self).count(p) == (if p != pid {
                        old(self).count(p)
                    } else if timed_out && n < max_fail {
                        n
                    } else {
                        0
                    })
            }),
            final(self).count(pid) < max_fail,
    {
        if !timed_out {
            self.write(pid, 0);
            assert(self.count(pid) == 0);
            return None;
        }
        let n = self.read(pid) + 1;
        if n >= max_fail {
            self.write(pid, 0);
            assert(self.count(pid) == 0);
            Some(n)
        } else {
            self.write(pid, n);
            assert(self.count(pid) == n);
            None
        }
    }
}

proof fn lemma_silence_push(s: Seq<Silence>, x: Silence)
    ensures
        forall|p: i32| #[trigger]
            silence_of(s.push(x), p, s.len() as int + 1) == (if p == x.pid {
                x.count
            } else {
                silence_of(s, p, s.len() as int)
            }),
{
    assert forall|p: i32| #[trigger]
        silence_of(s.push(x), p, s.len() as int + 1) == (if p == x.pid {
            x.count
        } else {
            silence_of(s, p, s.len() as int)
        }) by {
        lemma_silence_prefix(s, x, p, s.len() as int);
    }
}

proof fn lemma_silence_prefix(s: Seq<Silence>, x: Silence, p: i32, n: int)
    requires
        0 <= n <= s.len(),
    ensures
        silence_of(s.push(x), p, n) == silence_of(s, p, n),
    decreases n,
{
    if n > 0 {
        lemma_silence_prefix(s, x, p, n - 1);
    }
}

fn holds(v: &Vec<i32>, x: i32) -> (r: bool)
    ensures
        r == v@.contains(x),
{
    let mut i: usize = 0;
    while i < v.len()
        invariant
            i <= v@.len(),
            forall|j: int| 0 <= j < i ==> v@[j] != x,
        decreases v@.len() - i,
    {
        if v[i] == x {
            return true;
        }
        i += 1;
    }
    false
}

impl LivenessTracker {
    /// No process has failed to answer so often that it should be recycled.
    pub open spec fn below(&self, max_fail: u32) -> bool {
        forall|pid: i32| #[trigger] self.count(pid) < max_fail
    }
}

/// How processes are asked whether they are alive.
#[derive(Debug)]
pub struct LivenessPlan {
    pub interval_secs: u64,
    pub timeout_secs: u64,
    pub path: String,
    pub max_fail: u32,
}

/// How resets of GPU engines are watched for.
#[derive(Debug)]
pub struct ResetWatchPlan {
    pub poll_secs: u64,
    pub drm_root: String,
    /// Where core dumps are kept, if they are.
    pub capture_dir: Option<String>,
}

/// The greater of a number and one.
pub open spec fn one_or_more(n: int) -> int {
    if n >= 1 {
        n
    } else {
        1
    }
}

impl Orchestrator {
    /// How processes are asked whether they are alive, if they are.
    pub fn liveness_plan(&self) -> (r: Option<LivenessPlan>)
        ensures
            ({
                let w = self.settings.watchdog;
                if w.enabled && w.liveness_enabled {
                    &&& r matches Some(p)
                    &&& p.interval_secs == one_or_more(w.liveness_interval_secs as int)
                    &&& p.timeout_secs == one_or_more(w.liveness_timeout_secs as int)
                    &&& p.path == w.liveness_probe_path
                    &&& p.max_fail == one_or_more(w.liveness_failures_to_recycle as int)
                } else {
                    r is None
                }
            }),
    {
        let w = &self.settings.watchdog;
        if !(w.enabled && w.liveness_enabled) {
            return None;
        }
        Some(
            LivenessPlan {
                interval_secs: if w.liveness_interval_secs >= 1 {
                    w.liveness_interval_secs
                } else {
                    1
                },
                timeout_secs: if w.liveness_timeout_secs >= 1 {
                    w.liveness_timeout_secs
                } else {
                    1
                },
                path: w.liveness_probe_path.clone(),
                max_fail: if w.liveness_failures_to_recycle >= 1 {
                    w.liveness_failures_to_recycle
                } else {
                    1
                },
            },
        )
    }

    /// How resets of GPU engines are watched for, if they are.
    pub fn reset_watch_plan(&self) -> (r: Option<ResetWatchPlan>)
        ensures
            ({
                let w = self.settings.watchdog;
                if w.enabled && w.engine_reset_watch {
                    &&& r matches Some(p)
                    &&& p.poll_secs == one_or_more(w.engine_reset_poll_secs as int)
                    &&& p.drm_root == w.drm_root
                    &&& p.capture_dir == (if crate::text::is_blank(w.devcoredump_capture_dir@) {
                        None
                    } else {
                        Some(w.devcoredump_capture_dir)
                    })
                } else {
                    r is None
                }
            }),
    {
        let w = &self.settings.watchdog;
        if !(w.enabled && w.engine_reset_watch) {
            return None;
        }
        Some(
            ResetWatchPlan {
                poll_secs: if w.engine_reset_poll_secs >= 1 {
                    w.engine_reset_poll_secs
                } else {
                    1
                },
                drm_root: w.drm_root.clone(),
                capture_dir: if blank(w.devcoredump_capture_dir.as_str()) {
                    None
                } else {
                    Some(w.devcoredump_capture_dir.clone())
                },
            },
        )
    }
}

/// Why an instance that stays silent is recycled.
pub fn liveness_reason(count: u32, path: &str) -> (r: String)
    ensures
        r@ == "liveness probe timed out "@ + decimal(count as nat) + "x on "@ + path@,
{
    let n = decimal_text(count as u64);
    "liveness probe timed out ".to_owned().concat(n.as_str()).concat("x on ").concat(path)
}

impl Orchestrator {
    /// Whether `r`, the state after it and the counts after it are what becomes
    /// of asking a process whether it is alive.
    pub open spec fn hears_of(
        &self,
        after: &Orchestrator,
        t: &LivenessTracker,
        then: &LivenessTracker,
        plan: &LivenessPlan,
        pid: i32,
        timed_out: bool,
        now: u64,
        r: Option<Recycled>,
    ) -> bool {
        let n = t.count(pid) + 1;
        let before = self.run_state();
        let why = "liveness probe timed out "@ + decimal(n as nat) + "x on "@ + plan.path@;
        &&& forall|p: i32| p != pid ==> #[trigger] then.count(p) == t.count(p)
        &&& if timed_out && n >= plan.max_fail {
            &&& then.count(pid) == 0
            &&& after.run_state() == before.recycle(pid, why, now)
            &&& r is Some == before.recovery(pid, why) is Some
        } else {
            &&& *after == *self
            &&& r is None
            &&& then.count(pid) == if timed_out {
                n
            } else {
                0
            }
        }
    }

    /// Goes on after a process was asked whether it is alive. One that stays
    /// silent too often is recycled.
    pub fn liveness_answered(
        &mut self,
        t: &mut LivenessTracker,
        plan: &LivenessPlan,
        pid: i32,
        timed_out: bool,
        now: u64,
    ) -> (r: Option<Recycled>)
        requires
            old(self).wf(),
            old(t).below(plan.max_fail),
        ensures
            final(self).wf(),
            final(t).below(plan.max_fail),
            old(self).hears_of(final(self), old(t), final(t), plan, pid, timed_out, now, r),
            forall|p: i32|
                p != pid ==> #[trigger] final(t).count(p) == old(t).count(p),
            ({
                let n = old(t).count(pid) + 1;
                let before = old(self).run_state();
                let why = "liveness probe timed out "@ + decimal(n as nat) + "x on "@ + plan.path@;
                if timed_out && n >= plan.max_fail {
                    &&& final(t).count(pid) == 0
                    &&& final(self).run_state() == before.recycle(pid, why, now)
                    &&& final(self).same_but_run_state(old(self))
                    &&& match before.recovery(pid, why) {
                        Some(v) => r is Some && (r->0)@ == v && final(self).dirty,
                        None => r is None && final(self).dirty == old(self).dirty,
                    }
                } else {
                    &&& *final(self) == *old(self)
                    &&& r is None
                    &&& final(t).count(pid) == if timed_out {
                        n
                    } else {
                        0
                    }
                }
            }),
    {
        let ghost counts = *t;
        match t.note(pid, timed_out, plan.max_fail) {
            Some(n) => {
                assert(t.below(plan.max_fail)) by {
                    assert forall|p: i32| #[trigger] t.count(p) < plan.max_fail by {
                        assert(counts.count(p) < plan.max_fail);
                    }
                }
                let why = liveness_reason(n, plan.path.as_str());
                self.recycle_instance(pid, why.as_str(), now)
            },
            None => {
                assert(t.below(plan.max_fail)) by {
                    assert forall|p: i32| #[trigger] t.count(p) < plan.max_fail by {
                        assert(counts.count(p) < plan.max_fail);
                    }
                }
                None
            },
        }
    }
}

/// What is sent to the operator.
pub fn notice_body(notice: &str) -> (r: String)
    ensures
        r@ == json_text(JsonView::Object(seq![("text"@, JsonView::Str(notice@))])),
{
    render_json(&json_single("text", json_str(notice)))
}

// ----- reconciling -----

/// What is to be stored.
pub struct SavePlan {
    pub models: Option<Vec<ModelConfig>>,
    pub presets: Option<Vec<BinaryPreset>>,
    pub aliases: Option<Vec<ModelAlias>>,
    pub settings: Option<AppSettings>,
}

impl RunState {
    /// With a process that died forgotten. A model without an instance left is
    /// faulty.
    pub open spec fn bury(self, id: Seq<char>, pid: i32, state: ModelState) -> RunState {
        RunState { instances: forgotten(self.instances, pid), ..self }.settle(id, state)
    }

    /// With the first `n` of the dead processes forgotten one after the other.
    /// A message for each is what its model may be left with.
    pub open spec fn bury_all(
        self,
        dead: Seq<(String, i32)>,
        messages: Seq<String>,
        n: int,
    ) -> RunState
        decreases n,
    {
        if n <= 0 {
            self
        } else {
            self.bury_all(dead, messages, n - 1).bury(
                dead[n - 1].0@,
                dead[n - 1].1,
                ModelState::Error(messages[n - 1]),
            )
        }
    }
}

/// Whether each message tells that its process died.
pub open spec fn tell_deaths(messages: Seq<String>, dead: Seq<(String, i32)>) -> bool {
    &&& messages.len() == dead.len()
    &&& forall|i: int| 0 <= i < dead.len() ==> told_dead(#[trigger] messages[i], dead[i].1)
}

/// Whether `after` is `before` with the dead processes forgotten.
pub open spec fn buried(before: RunState, dead: Seq<(String, i32)>, after: RunState) -> bool {
    exists|messages: Seq<String>| #[trigger]
        tell_deaths(messages, dead) && after == before.bury_all(
            dead,
            messages,
            dead.len() as int,
        )
}

proof fn lemma_bury_prefix(
    before: RunState,
    dead: Seq<(String, i32)>,
    messages: Seq<String>,
    more: String,
    n: int,
)
    requires
        0 <= n <= messages.len(),
    ensures
        before.bury_all(dead, messages.push(more), n) == before.bury_all(dead, messages, n),
    decreases n,
{
    if n > 0 {
        lemma_bury_prefix(before, dead, messages, more, n - 1);
    }
}

/// Whether a message tells that a process died.
pub open spec fn told_dead(m: String, pid: i32) -> bool {
    m@ == "process "@ + decimal_int(pid as int) + " died"@
}

/// The instances whose process is not alive.
pub open spec fn dead_among(s: Seq<InstanceInfo>, alive: Seq<i32>) -> Seq<(String, i32)> {
    s.filter(|i: InstanceInfo| !alive.contains(i.pid)).map_values(
        |i: InstanceInfo| (i.model_id, i.pid),
    )
}

impl Orchestrator {
    fn copy_models(&self) -> (r: Vec<ModelConfig>)
        ensures
            r@.len() == self.data.models.records().len(),
            forall|i: int|
                0 <= i < r@.len() ==> (#[trigger] r@[i]).like(&self.data.models.records()[i]),
    {
        let mut r: Vec<ModelConfig> = Vec::new();
        let mut i: usize = 0;
        while i < self.data.models.len()
            invariant
                i <= self.data.models.records().len(),
                r@.len() == i,
                forall|j: int|
                    0 <= j < i ==> (#[trigger] r@[j]).like(&self.data.models.records()[j]),
            decreases self.data.models.records().len() - i,
        {
            r.push(self.data.models.at(i).clone());
            i += 1;
        }
        r
    }

    fn copy_presets(&self) -> (r: Vec<BinaryPreset>)
        ensures
            r@.len() == self.data.presets.records().len(),
            forall|i: int|
                0 <= i < r@.len() ==> (#[trigger] r@[i]).like(&self.data.presets.records()[i]),
    {
        let mut r: Vec<BinaryPreset> = Vec::new();
        let mut i: usize = 0;
        while i < self.data.presets.len()
            invariant
                i <= self.data.presets.records().len(),
                r@.len() == i,
                forall|j: int|
                    0 <= j < i ==> (#[trigger] r@[j]).like(&self.data.presets.records()[j]),
            decreases self.data.presets.records().len() - i,
        {
            r.push(self.data.presets.at(i).clone());
            i += 1;
        }
        r
    }

    fn copy_aliases(&self) -> (r: Vec<ModelAlias>)
        ensures
            r@ == self.data.aliases.records(),
    {
        let mut r: Vec<ModelAlias> = Vec::new();
        let mut i: usize = 0;
        while i < self.data.aliases.len()
            invariant
                i <= self.data.aliases.records().len(),
                r@ == self.data.aliases.records().take(i as int),
            decreases self.data.aliases.records().len() - i,
        {
            r.push(self.data.aliases.at(i).clone());
            assert(self.data.aliases.records().take(i + 1) =~= self.data.aliases.records().take(
                i as int,
            ).push(self.data.aliases.records()[i as int]));
            i += 1;
        }
        assert(r@ =~= self.data.aliases.records());
        r
    }

    /// Forgets the processes that died.
    fn bury_dead(&mut self, alive: &Vec<i32>)
        requires
            old(self).wf(),
        ensures
            final(self).wf(),
            ({
                let dead = dead_among(old(self).process_manager.instances@, alive@);
                &&& buried(old(self).run_state(), dead, final(self).run_state())
                &&& final(self).dirty == (old(self).dirty || dead.len() > 0)
            }),
            final(self).same_but_run_state(old(self)),
    {
        let dead = self.process_manager.dead_instances(alive);
        let ghost before = self.run_state();
        let ghost mut messages: Seq<String> = Seq::empty();
        let mut i: usize = 0;
        while i < dead.len()
            invariant
                i <= dead@.len(),
                self.wf(),
                messages.len() == i,
                forall|j: int| 0 <= j < i ==> told_dead(#[trigger] messages[j], dead@[j].1),
                self.run_state() == before.bury_all(dead@, messages, i as int),
                self.same_but_run_state(old(self)),
                self.dirty == old(self).dirty,
            decreases dead@.len() - i,
        {
            let ghost mid = self.run_state();
            let pid = dead[i].1;
            let p = decimal_text_signed(pid as i64);
            let m = "process ".to_owned().concat(p.as_str()).concat(" died");
            let ghost told = m;
            assert(told_dead(told, pid));
            self.process_manager.forget(pid);
            if self.process_manager.instance_count(dead[i].0.as_str()) == 0 {
                put_state(
                    &mut self.data.models,
                    dead[i].0.as_str(),
                    ModelState::Error(m),
                    None,
                );
            }
            assert(self.run_state() == mid.bury(dead@[i as int].0@, pid, ModelState::Error(told)));
            proof {
                lemma_bury_prefix(before, dead@, messages, told, i as int);
                messages = messages.push(told);
            }
            i += 1;
        }
        assert(tell_deaths(messages, dead@));
        if dead.len() > 0 {
            self.dirty = true;
        }
    }

    /// Whether `r` is what is to be stored of the state after it.
    pub open spec fn stores(&self, after: &Orchestrator, alive: Seq<i32>, r: SavePlan) -> bool {
        let dead = dead_among(self.process_manager.instances@, alive);
        &&& r.models is Some <==> self.dirty || dead.len() > 0
        &&& r.presets is Some <==> self.presets_dirty
        &&& r.aliases is Some <==> self.aliases_dirty
        &&& r.settings is Some <==> self.settings_dirty && self.stores_settings
        &&& r.models matches Some(list) ==> list@.len() == after.data.models.records().len()
        &&& r.aliases matches Some(list) ==> list@ == self.data.aliases.records()
        &&& r.settings matches Some(x) ==> x == self.settings
        &&& !after.dirty && !after.presets_dirty && !after.aliases_dirty && !after.settings_dirty
    }

    /// Takes over what is known of the GPUs, forgets the processes that died,
    /// and says what is to be stored.
    pub fn reconcile(&mut self, gpus: Vec<GpuInfo>, alive: &Vec<i32>) -> (r: SavePlan)
        requires
            old(self).wf(),
        ensures
            final(self).wf(),
            old(self).stores(final(self), alive@, r),
            ({
                let dead = dead_among(old(self).process_manager.instances@, alive@);
                let dirty = old(self).dirty || dead.len() > 0;
                &&& buried(old(self).run_state(), dead, final(self).run_state())
                &&& match r.models {
                    Some(list) => {
                        &&& dirty
                        &&& list@.len() == final(self).data.models.records().len()
                        &&& forall|i: int|
                            0 <= i < list@.len() ==> (#[trigger] list@[i]).like(
                                &final(self).data.models.records()[i],
                            )
                    },
                    None => !dirty,
                }
            }),
            match r.presets {
                Some(list) => {
                    &&& old(self).presets_dirty
                    &&& list@.len() == old(self).data.presets.records().len()
                    &&& forall|i: int|
                        0 <= i < list@.len() ==> (#[trigger] list@[i]).like(
                            &old(self).data.presets.records()[i],
                        )
                },
                None => !old(self).presets_dirty,
            },
            match r.aliases {
                Some(list) => old(self).aliases_dirty && list@
                    == old(self).data.aliases.records(),
                None => !old(self).aliases_dirty,
            },
            r.settings == (if old(self).settings_dirty && old(self).stores_settings {
                Some(old(self).settings)
            } else {
                None
            }),
            *final(self) == (Orchestrator {
                data: AppData { models: final(self).data.models, gpus, ..old(self).data },
                process_manager: ProcessManager {
                    instances: final(self).process_manager.instances,
                    ..old(self).process_manager
                },
                events: final(self).events,
                dirty: false,
                presets_dirty: false,
                aliases_dirty: false,
                settings_dirty: false,
                ..*old(self)
            }),
    {
        self.data.gpus = gpus;
        self.bury_dead(alive);
        let mut plan = SavePlan { models: None, presets: None, aliases: None, settings: None };
        if self.dirty {
            plan.models = Some(self.copy_models());
            self.dirty = false;
        }
        if self.presets_dirty {
            plan.presets = Some(self.copy_presets());
            self.presets_dirty = false;
        }
        if self.aliases_dirty {
            plan.aliases = Some(self.copy_aliases());
            self.aliases_dirty = false;
        }
        if self.settings_dirty {
            if self.stores_settings {
                plan.settings = Some(self.settings.clone());
            }
            self.settings_dirty = false;
        }
        plan
    }

    /// Notes what could not be stored, so that it is tried again.
    pub fn save_failed(&mut self, models: bool, presets: bool, aliases: bool, settings: bool)
        requires
            old(self).wf(),
        ensures
            final(self).wf(),
            *final(self) == (Orchestrator {
                dirty: old(self).dirty || models,
                presets_dirty: old(self).presets_dirty || presets,
                aliases_dirty: old(self).aliases_dirty || aliases,
                settings_dirty: old(self).settings_dirty || settings,
                ..*old(self)
            }),
    {
        if models {
            self.dirty = true;
        }
        if presets {
            self.presets_dirty = true;
        }
        if aliases {
            self.aliases_dirty = true;
        }
        if settings {
            self.settings_dirty = true;
        }
    }
}

} // verus!
