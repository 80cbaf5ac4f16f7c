//! Throughput reports of the backends.
use vstd::prelude::*;
use vstd::string::*;

use crate::api::json::{Json, JsonView};
use crate::table::{Keyed, Table};
use crate::text::{
    chars_of, cut_once, has_prefix, is_digit, same_text, split_on, split_once_text, split_text,
    split_words, starts_with_text, texts, words,
};

verus! {

broadcast use vstd::string::group_string_axioms;

// ----- llama.cpp -----

/// Whether no exponent begins before `n`.
pub open spec fn no_exponent_before(s: Seq<char>, n: int) -> bool {
    forall|j: int| 0 <= j < n ==> s[j] != 'e' && s[j] != 'E'
}

/// Whether a digit other than zero stands before the exponent.
pub open spec fn has_nonzero_digit(s: Seq<char>) -> bool {
    exists|i: int|
        0 <= i < s.len() && is_digit(s[i]) && s[i] != '0' && #[trigger] no_exponent_before(s, i)
}

/// Whether a JSON number is greater than zero.
pub open spec fn is_positive_text(s: Seq<char>) -> bool {
    s.len() > 0 && s[0] != '-' && has_nonzero_digit(s)
}

/// Whether a JSON number is greater than zero.
pub fn positive_text(s: &str) -> (r: bool)
    ensures
        r == is_positive_text(s@),
{
    let v = chars_of(s);
    if v.len() == 0 || v[0] == '-' {
        return false;
    }
    let mut i: usize = 0;
    while i < v.len()
        invariant
            i <= v@.len(),
            v@ == s@,
            s@.len() > 0,
            s@[0] != '-',
            no_exponent_before(s@, i as int),
            forall|j: int| 0 <= j < i ==> !(is_digit(#[trigger] s@[j]) && s@[j] != '0'),
        decreases v@.len() - i,
    {
        let c = v[i];
        if c == 'e' || c == 'E' {
            assert forall|k: int| 0 <= k < s@.len() && #[trigger] no_exponent_before(
                s@,
                k,
            ) implies !(is_digit(s@[k]) && s@[k] != '0') by {
                if k > i {
                    assert(s@[i as int] != 'e' && s@[i as int] != 'E');
                }
            }
            return false;
        }
        if '1' <= c && c <= '9' {
            assert(has_nonzero_digit(s@));
            return true;
        }
        i += 1;
    }
    false
}

/// The speeds that a response reports, as JSON numbers.
#[derive(Debug)]
pub struct Timings {
    pub decode: String,
    pub prefill: String,
}

/// The number of that name, or zero.
pub open spec fn number_or_zero(v: JsonView, key: Seq<char>) -> Seq<char> {
    match v.get(key) {
        Some(JsonView::Number(t)) => t,
        _ => "0"@,
    }
}

fn number_at(v: &Json, key: &str) -> (r: String)
    ensures
        r@ == number_or_zero(v@, key@),
{
    match v.get(key) {
        Some(j) => match j {
            Json::Number(t) => t.clone(),
            _ => "0".to_owned(),
        },
        None => "0".to_owned(),
    }
}

/// The speeds that a response of llama.cpp reports: decoding and prefill, in
/// tokens per second. There are none where neither is greater than zero.
pub open spec fn timings_of(v: JsonView) -> Option<(Seq<char>, Seq<char>)> {
    match v.get("timings"@) {
        Some(t) => {
            let decode = number_or_zero(t, "predicted_per_second"@);
            let prefill = number_or_zero(t, "prompt_per_second"@);
            if is_positive_text(decode) || is_positive_text(prefill) {
                Some((decode, prefill))
            } else {
                None
            }
        },
        None => None,
    }
}

/// The speeds that a response of llama.cpp reports.
pub fn timings_from_json(v: &Json) -> (r: Option<Timings>)
    ensures
        match r {
            Some(x) => timings_of(v@) == Some((x.decode@, x.prefill@)),
            None => timings_of(v@) is None,
        },
{
    match v.get("timings") {
        Some(t) => {
            let decode = number_at(t, "predicted_per_second");
            let prefill = number_at(t, "prompt_per_second");
            if positive_text(decode.as_str()) || positive_text(prefill.as_str()) {
                Some(Timings { decode, prefill })
            } else {
                None
            }
        },
        None => None,
    }
}

// ----- vLLM -----

/// The name of a series, without its labels.
pub open spec fn series_name(word: Seq<char>) -> Seq<char> {
    match cut_once(word, "{"@) {
        Some((name, _)) => name,
        None => word,
    }
}

/// The value that a line gives to the metric of that name.
pub open spec fn line_value(line: Seq<char>, name: Seq<char>) -> Option<Seq<char>> {
    let w = words(line);
    if w.len() < 2 || has_prefix(w[0], "#"@) || series_name(w[0]) != name {
        None
    } else {
        Some(w[1])
    }
}

/// The values that the first `n` lines give to the metric of that name.
pub open spec fn line_values(lines: Seq<Seq<char>>, name: Seq<char>, n: int) -> Seq<Seq<char>>
    decreases n,
{
    if n <= 0 {
        Seq::empty()
    } else {
        match line_value(lines[n - 1], name) {
            Some(v) => line_values(lines, name, n - 1).push(v),
            None => line_values(lines, name, n - 1),
        }
    }
}

/// The values of the metric of that name, as they stand in the text.
pub open spec fn metric(text: Seq<char>, name: Seq<char>) -> Seq<Seq<char>> {
    let lines = split_on(text, '\n');
    line_values(lines, name, lines.len() as int)
}

fn value_of_line(line: &str, name: &str) -> (r: Option<String>)
    ensures
        match r {
            Some(v) => line_value(line@, name@) == Some(v@),
            None => line_value(line@, name@) is None,
        },
{
    let w = split_words(line);
    assert(words(line@).len() == w@.len());
    if w.len() < 2 {
        return None;
    }
    assert(words(line@)[0] == w@[0]@ && words(line@)[1] == w@[1]@);
    if starts_with_text(w[0].as_str(), "#") {
        return None;
    }
    let named = match split_once_text(w[0].as_str(), "{") {
        Some((n, _)) => same_text(n.as_str(), name),
        None => same_text(w[0].as_str(), name),
    };
    if named {
        Some(w[1].clone())
    } else {
        None
    }
}

/// The values of the metric of that name in a Prometheus report, as they stand
/// in the text.
pub fn metric_values(text: &str, name: &str) -> (r: Vec<String>)
    ensures
        texts(r@) == metric(text@, name@),
{
    let lines = split_text(text, '\n');
    let ghost all = split_on(text@, '\n');
    let mut r: Vec<String> = Vec::new();
    let mut i: usize = 0;
    assert(texts(r@) =~= Seq::empty());
    while i < lines.len()
        invariant
            i <= lines@.len(),
            texts(lines@) == all,
            texts(r@) == line_values(all, name@, i as int),
        decreases lines@.len() - i,
    {
        assert(all[i as int] == lines@[i as int]@);
        match value_of_line(lines[i].as_str(), name) {
            Some(v) => {
                let ghost before = r@;
                let ghost vv = v@;
                r.push(v);
                assert(texts(r@) =~= texts(before).push(vv));
            },
            None => {},
        }
        i += 1;
    }
    assert(all.len() == lines@.len());
    r
}

/// The counters of a vLLM process, each with the values that a report gives for
/// it, as they stand in the text. There are several values where a process runs
/// several engines.
#[derive(Debug)]
pub struct VllmMetrics {
    pub process_start_seconds: Vec<String>,
    pub decode_tokens: Vec<String>,
    pub decode_seconds: Vec<String>,
    pub decode_samples: Vec<String>,
    pub prefill_tokens: Vec<String>,
    pub prefill_seconds: Vec<String>,
    pub prefill_samples: Vec<String>,
}

/// The counters that a report of a vLLM process gives.
pub fn vllm_metrics_from_prometheus(text: &str) -> (r: VllmMetrics)
    ensures
        texts(r.process_start_seconds@) == metric(text@, "process_start_time_seconds"@),
        texts(r.decode_tokens@) == metric(text@, "vllm:request_generation_tokens_sum"@),
        texts(r.decode_seconds@) == metric(text@, "vllm:request_decode_time_seconds_sum"@),
        texts(r.decode_samples@) == metric(text@, "vllm:request_decode_time_seconds_count"@),
        texts(r.prefill_tokens@) == metric(
            text@,
            "vllm:request_prefill_kv_computed_tokens_sum"@,
        ),
        texts(r.prefill_seconds@) == metric(text@, "vllm:request_prefill_time_seconds_sum"@),
        texts(r.prefill_samples@) == metric(text@, "vllm:request_prefill_time_seconds_count"@),
{
    VllmMetrics {
        process_start_seconds: metric_values(text, "process_start_time_seconds"),
        decode_tokens: metric_values(text, "vllm:request_generation_tokens_sum"),
        decode_seconds: metric_values(text, "vllm:request_decode_time_seconds_sum"),
        decode_samples: metric_values(text, "vllm:request_decode_time_seconds_count"),
        prefill_tokens: metric_values(text, "vllm:request_prefill_kv_computed_tokens_sum"),
        prefill_seconds: metric_values(text, "vllm:request_prefill_time_seconds_sum"),
        prefill_samples: metric_values(text, "vllm:request_prefill_time_seconds_count"),
    }
}

/// The counters of one vLLM process. Those that are not counts stand for
/// numbers of at least zero by integers in the same order.
#[derive(Debug, Clone, Copy, PartialEq, Eq, Structural)]
pub struct VllmPerfSnapshot {
    pub process_start_seconds: u64,
    pub decode_tokens: u64,
    pub decode_seconds: u64,
    pub decode_samples: u64,
    pub prefill_tokens: u64,
    pub prefill_seconds: u64,
    pub prefill_samples: u64,
}

/// The counters of a report, where it gives all of them. A report that lacks any
/// counts for nothing.
pub fn complete_snapshot(
    process_start_seconds: Option<u64>,
    decode_tokens: Option<u64>,
    decode_seconds: Option<u64>,
    decode_samples: Option<u64>,
    prefill_tokens: Option<u64>,
    prefill_seconds: Option<u64>,
    prefill_samples: Option<u64>,
) -> (r: Option<VllmPerfSnapshot>)
    ensures
        r is Some <==> {
            &&& process_start_seconds is Some
            &&& decode_tokens is Some
            &&& decode_seconds is Some
            &&& decode_samples is Some
            &&& prefill_tokens is Some
            &&& prefill_seconds is Some
            &&& prefill_samples is Some
        },
        r is Some ==> r->0 == (VllmPerfSnapshot {
            process_start_seconds: process_start_seconds->0,
            decode_tokens: decode_tokens->0,
            decode_seconds: decode_seconds->0,
            decode_samples: decode_samples->0,
            prefill_tokens: prefill_tokens->0,
            prefill_seconds: prefill_seconds->0,
            prefill_samples: prefill_samples->0,
        }),
{
    match (
        process_start_seconds,
        decode_tokens,
        decode_seconds,
        decode_samples,
        prefill_tokens,
        prefill_seconds,
        prefill_samples,
    ) {
        (Some(a), Some(b), Some(c), Some(d), Some(e), Some(f), Some(g)) => Some(
            VllmPerfSnapshot {
                process_start_seconds: a,
                decode_tokens: b,
                decode_seconds: c,
                decode_samples: d,
                prefill_tokens: e,
                prefill_seconds: f,
                prefill_samples: g,
            },
        ),
        _ => None,
    }
}

/// What is new in a snapshot: everything since another one, or everything
/// since the process began.
#[derive(Debug, Clone, Copy, PartialEq, Eq, Structural)]
pub struct VllmPerfDelta {
    pub decode_samples: u64,
    pub prefill_samples: u64,
    pub since: Option<VllmPerfSnapshot>,
}

impl VllmPerfDelta {
    /// How many requests the new work counts as: the larger of both counts, and
    /// one at least.
    pub open spec fn requests(&self) -> int {
        if self.decode_samples >= self.prefill_samples && self.decode_samples >= 1 {
            self.decode_samples as int
        } else if self.prefill_samples >= 1 {
            self.prefill_samples as int
        } else {
            1
        }
    }

    /// How many requests were counted once the new work is, as far as they can
    /// be counted.
    pub fn samples_after(&self, samples: u64) -> (r: u64)
        ensures
            r == (if samples + self.requests() <= u64::MAX {
                samples + self.requests()
            } else {
                u64::MAX as int
            }),
    {
        let larger: u64 = if self.decode_samples >= self.prefill_samples {
            self.decode_samples
        } else {
            self.prefill_samples
        };
        let n: u64 = if larger >= 1 {
            larger
        } else {
            1
        };
        samples.saturating_add(n)
    }
}

/// The last snapshot of a process.
#[derive(Debug)]
pub struct TrackedVllmSnapshot {
    pub pid: i32,
    pub model_id: String,
    pub snapshot: VllmPerfSnapshot,
}

/// The mathematical content of a `TrackedVllmSnapshot`.
pub struct TrackedView {
    pub pid: i32,
    pub model_id: Seq<char>,
    pub snapshot: VllmPerfSnapshot,
}

impl View for TrackedVllmSnapshot {
    type V = TrackedView;

    open spec fn view(&self) -> TrackedView {
        TrackedView { pid: self.pid, model_id: self.model_id@, snapshot: self.snapshot }
    }
}

/// The snapshots as values.
pub open spec fn tracked_views(s: Seq<TrackedVllmSnapshot>) -> Seq<TrackedView> {
    s.map_values(|t: TrackedVllmSnapshot| t@)
}

/// How often a model was configured anew.
#[derive(Debug)]
pub struct ModelGeneration {
    pub model_id: String,
    pub count: u64,
}

impl Keyed for ModelGeneration {
    open spec fn key(&self) -> Seq<char> {
        self.model_id@
    }

    fn name_of(&self) -> (r: &String) {
        &self.model_id
    }
}

/// Where the process stands, among those from `i` on.
pub open spec fn tracked_at(s: Seq<TrackedView>, pid: i32, i: int) -> Option<int>
    decreases s.len() - i,
{
    if i < 0 || i >= s.len() {
        None
    } else if s[i].pid == pid {
        Some(i)
    } else {
        tracked_at(s, pid, i + 1)
    }
}

/// Whether a snapshot has less of anything than an earlier one.
pub open spec fn is_older(next: VllmPerfSnapshot, previous: VllmPerfSnapshot) -> bool {
    ||| next.decode_samples < previous.decode_samples
    ||| next.prefill_samples < previous.prefill_samples
    ||| next.decode_tokens < previous.decode_tokens
    ||| next.decode_seconds < previous.decode_seconds
    ||| next.prefill_tokens < previous.prefill_tokens
    ||| next.prefill_seconds < previous.prefill_seconds
}

/// Whether a snapshot has less of anything than an earlier one.
pub fn snapshot_is_older(next: &VllmPerfSnapshot, previous: &VllmPerfSnapshot) -> (r: bool)
    ensures
        r == is_older(*next, *previous),
{
    next.decode_samples < previous.decode_samples || next.prefill_samples
        < previous.prefill_samples || next.decode_tokens < previous.decode_tokens
        || next.decode_seconds < previous.decode_seconds || next.prefill_tokens
        < previous.prefill_tokens || next.prefill_seconds < previous.prefill_seconds
}

/// What a snapshot adds to what is known of its process: nothing where it is
/// out of date.
pub open spec fn delta_of(
    s: Seq<TrackedView>,
    model_id: Seq<char>,
    pid: i32,
    next: VllmPerfSnapshot,
) -> Option<VllmPerfDelta> {
    let from_zero = VllmPerfDelta {
        decode_samples: next.decode_samples,
        prefill_samples: next.prefill_samples,
        since: None,
    };
    match tracked_at(s, pid, 0) {
        None => Some(from_zero),
        Some(i) => {
            let previous = s[i].snapshot;
            if s[i].model_id != model_id || next.process_start_seconds
                > previous.process_start_seconds {
                Some(from_zero)
            } else if next.process_start_seconds < previous.process_start_seconds || is_older(
                next,
                previous,
            ) {
                None
            } else {
                Some(
                    VllmPerfDelta {
                        decode_samples: (next.decode_samples - previous.decode_samples) as u64,
                        prefill_samples: (next.prefill_samples - previous.prefill_samples) as u64,
                        since: Some(previous),
                    },
                )
            }
        },
    }
}

/// The snapshots after one more.
pub open spec fn with_tracked(s: Seq<TrackedView>, t: TrackedView) -> Seq<TrackedView> {
    match tracked_at(s, t.pid, 0) {
        Some(i) => s.update(i, t),
        None => s.push(t),
    }
}

/// Follows the counters of the vLLM processes. Snapshots that come late, from
/// before a process began or a model was configured anew, count for nothing.
pub struct VllmPerfTracker {
    pub instances: Vec<TrackedVllmSnapshot>,
    pub generations: Table<ModelGeneration>,
}

impl VllmPerfTracker {
    /// No two generations belong to the same model.
    pub open spec fn wf(&self) -> bool {
        self.generations.wf()
    }

    /// What is known of the processes.
    pub open spec fn known(&self) -> Seq<TrackedView> {
        tracked_views(self.instances@)
    }

    /// How often a model was configured anew.
    pub open spec fn generation_of(&self, model_id: Seq<char>) -> u64 {
        if self.generations@.dom().contains(model_id) {
            self.generations@[model_id].count
        } else {
            0
        }
    }

    /// A tracker that knows of no process.
    pub fn new() -> (r: VllmPerfTracker)
        ensures
            r.wf(),
            r.known() == Seq::<TrackedView>::empty(),
            forall|id: Seq<char>| #[trigger] r.generation_of(id) == 0,
    {
        let r = VllmPerfTracker { instances: Vec::new(), generations: Table::new() };
        assert(r.known() =~= Seq::<TrackedView>::empty());
        r
    }

    /// How often a model was configured anew.
    pub fn generation(&self, model_id: &str) -> (r: u64)
        requires
            self.wf(),
        ensures
            r == self.generation_of(model_id@),
    {
        match self.generations.get(model_id) {
            Some(g) => g.count,
            None => 0,
        }
    }

    /// Forgets the processes of a model that is configured anew.
    pub fn reset_model(&mut self, model_id: &str)
        requires
            old(self).wf(),
        ensures
            final(self).wf(),
            final(self).generation_of(model_id@) == (if old(self).generation_of(model_id@)
                < u64::MAX {
                (old(self).generation_of(model_id@) + 1) as u64
            } else {
                u64::MAX
            }),
            forall|id: Seq<char>|
                id != model_id@ ==> #[trigger] final(self).generation_of(id) == old(
                    self,
                ).generation_of(id),
            final(self).known() == old(self).known().filter(
                |t: TrackedView| t.model_id != model_id@,
            ),
    {
        let count = self.generation(model_id).saturating_add(1);
        let ghost id = model_id@;
        self.generations.insert(ModelGeneration { model_id: model_id.to_owned(), count });
        let ghost all = self.known();
        let ghost keeps = |t: TrackedView| t.model_id != id;
        let mut kept: Vec<TrackedVllmSnapshot> = Vec::new();
        let mut i: usize = 0;
        assert(all.take(0).filter(keeps) =~= Seq::empty()) by {
            reveal(Seq::filter);
        }
        assert(tracked_views(kept@) =~= Seq::empty());
        while i < self.instances.len()
            invariant
                i <= self.instances@.len(),
                id == model_id@,
                all == tracked_views(self.instances@),
                keeps == (|t: TrackedView| t.model_id != id),
                tracked_views(kept@) == all.take(i as int).filter(keeps),
            decreases self.instances@.len() - i,
        {
            proof {
                reveal(Seq::filter);
                assert(all.take(i + 1).drop_last() =~= all.take(i as int));
                assert(all.take(i + 1).last() == self.instances@[i as int]@);
            }
            if !same_text(self.instances[i].model_id.as_str(), model_id) {
                let t = TrackedVllmSnapshot {
                    pid: self.instances[i].pid,
                    model_id: self.instances[i].model_id.clone(),
                    snapshot: self.instances[i].snapshot,
                };
                let ghost tv = t@;
                let ghost before = kept@;
                kept.push(t);
                assert(tracked_views(kept@) =~= tracked_views(before).push(tv));
            }
            i += 1;
        }
        assert(all.take(i as int) =~= all);
        self.instances = kept;
    }

    fn find(&self, pid: i32) -> (r: Option<usize>)
        ensures
            match r {
                Some(i) => i < self.instances@.len() && tracked_at(self.known(), pid, 0) == Some(
                    i as int,
                ),
                None => tracked_at(self.known(), pid, 0) is None,
            },
    {
        let mut i: usize = 0;
        while i < self.instances.len()
            invariant
                i <= self.instances@.len(),
                tracked_at(self.known(), pid, 0) == tracked_at(self.known(), pid, i as int),
            decreases self.instances@.len() - i,
        {
            assert(self.known()[i as int] == self.instances@[i as int]@);
            if self.instances[i].pid == pid {
                return Some(i);
            }
            i += 1;
        }
        None
    }

    /// Takes in a snapshot of a process and says what is new in it. Nothing
    /// comes out where no request was completed, and a snapshot that is out of
    /// date changes nothing.
    pub fn observe(
        &mut self,
        model_id: &str,
        pid: i32,
        generation: u64,
        next: VllmPerfSnapshot,
    ) -> (r: Option<VllmPerfDelta>)
        requires
            old(self).wf(),
        ensures
            final(self).wf(),
            final(self).generations == old(self).generations,
            if generation != old(self).generation_of(model_id@) {
                r is None && final(self).known() == old(self).known()
            } else {
                match delta_of(old(self).known(), model_id@, pid, next) {
                    None => r is None && final(self).known() == old(self).known(),
                    Some(d) => {
                        &&& final(self).known() == with_tracked(
                            old(self).known(),
                            TrackedView { pid, model_id: model_id@, snapshot: next },
                        )
                        &&& r == (if d.decode_samples > 0 || d.prefill_samples > 0 {
                            Some(d)
                        } else {
                            None
                        })
                    },
                }
            },
    {
        if generation != self.generation(model_id) {
            return None;
        }
        let ghost before = self.known();
        let t = TrackedVllmSnapshot { pid, model_id: model_id.to_owned(), snapshot: next };
        let ghost tv = t@;
        let mut delta = VllmPerfDelta {
            decode_samples: next.decode_samples,
            prefill_samples: next.prefill_samples,
            since: None,
        };
        match self.find(pid) {
            None => {
                let ghost was = self.instances@;
                self.instances.push(t);
                assert(self.known() =~= tracked_views(was).push(tv));
            },
            Some(i) => {
                assert(before[i as int] == self.instances@[i as int]@);
                let previous = self.instances[i].snapshot;
                if !same_text(self.instances[i].model_id.as_str(), model_id)
                    || next.process_start_seconds > previous.process_start_seconds {
                } else if next.process_start_seconds < previous.process_start_seconds
                    || snapshot_is_older(&next, &previous) {
                    return None;
                } else {
                    delta =
                    VllmPerfDelta {
                        decode_samples: next.decode_samples - previous.decode_samples,
                        prefill_samples: next.prefill_samples - previous.prefill_samples,
                        since: Some(previous),
                    };
                }
                let ghost was = self.instances@;
                self.instances.set(i, t);
                assert(self.known() =~= tracked_views(was).update(i as int, tv));
            },
        }
        if delta.decode_samples > 0 || delta.prefill_samples > 0 {
            Some(delta)
        } else {
            None
        }
    }
}

// ----- laws -----

proof fn lemma_tracked_at(s: Seq<TrackedView>, pid: i32, i: int)
    requires
        0 <= i,
    ensures
        match tracked_at(s, pid, i) {
            Some(k) => i <= k < s.len() && s[k].pid == pid && forall|j: int|
                i <= j < k ==> (#[trigger] s[j]).pid != pid,
            None => forall|j: int| i <= j < s.len() ==> (#[trigger] s[j]).pid != pid,
        },
    decreases s.len() - i,
{
    if i < s.len() && s[i].pid != pid {
        lemma_tracked_at(s, pid, i + 1);
    }
}

/// A snapshot counts once: taken in again, it adds nothing.
pub proof fn law_a_snapshot_counts_once(
    s: Seq<TrackedView>,
    model_id: Seq<char>,
    pid: i32,
    next: VllmPerfSnapshot,
)
    ensures
        ({
            let after = with_tracked(s, TrackedView { pid, model_id, snapshot: next });
            delta_of(after, model_id, pid, next) == Some(
                VllmPerfDelta { decode_samples: 0, prefill_samples: 0, since: Some(next) },
            )
        }),
{
    let t = TrackedView { pid, model_id, snapshot: next };
    let after = with_tracked(s, t);
    lemma_tracked_at(s, pid, 0);
    lemma_tracked_at(after, pid, 0);
    match tracked_at(s, pid, 0) {
        Some(i) => {
            assert(after[i] == t);
            let k = tracked_at(after, pid, 0)->0;
            assert(tracked_at(after, pid, 0) is Some);
            if k < i {
                assert(after[k] == s[k]);
            }
            assert(k == i);
        },
        None => {
            assert(after[s.len() as int] == t);
            let k = tracked_at(after, pid, 0)->0;
            if k < s.len() {
                assert(after[k] == s[k]);
            }
        },
    }
}

} // verus!
