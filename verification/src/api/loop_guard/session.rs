//! One guarded stream: what its choices say, and what follows from a loop.
use vstd::prelude::*;
use vstd::string::*;
use vstd::utf8::{decode_utf8, valid_utf8};

use crate::api::json::{
    byte_views, entry_views, json_document, json_str, json_text, lemma_entries_push, parse_json,
    render_json, Json, JsonView,
};
use crate::api::loop_guard::detector::{
    keep_last, law_append_is_chunk_independent, tandem, Detector,
};
use crate::api::loop_guard::endpoint::{
    halt_bytes, has_spoken, snapshot_views, text_bytes, to_bytes, ChoiceSnapshot, EndpointKind,
    SnapshotView,
};
use crate::api::loop_guard::sse;
use crate::api::loop_guard::sse::{
    delta_views, done_mark, take_bytes, trimmed, ChoiceDelta, DeltaView, EventParser,
};
use crate::config::perf::{timings_from_json, timings_of, Timings};
use crate::config::settings::{StreamingLoopAction, StreamingLoopSettings};

verus! {

broadcast use vstd::string::group_string_axioms;

// ----- settings -----

/// How a stream is guarded.
#[derive(Clone, Copy, Debug, PartialEq, Eq, Structural)]
pub struct Config {
    pub enabled: bool,
    /// How many bytes of a choice are looked at.
    pub window: usize,
    /// How many copies make a loop.
    pub repeats: usize,
    pub check_interval_ms: u64,
    pub max_retries: usize,
    pub action: StreamingLoopAction,
    /// Whether a retry carries what was already said.
    pub replay_partial: bool,
}

impl Default for Config {
    fn default() -> (r: Self)
        ensures
            r == (Config {
                enabled: true,
                window: 65536,
                repeats: 10,
                check_interval_ms: 5000,
                max_retries: 3,
                action: StreamingLoopAction::Heal,
                replay_partial: true,
            }),
    {
        Config {
            enabled: true,
            window: 65536,
            repeats: 10,
            check_interval_ms: 5000,
            max_retries: 3,
            action: StreamingLoopAction::Heal,
            replay_partial: true,
        }
    }
}

impl Config {
    /// The configuration that the settings ask for. The window has 1024 bytes
    /// at least, a loop two copies, and the interval one millisecond.
    pub open spec fn of(s: StreamingLoopSettings) -> Config {
        Config {
            enabled: s.enabled,
            window: if s.window_bytes >= 1024 {
                s.window_bytes
            } else {
                1024
            },
            repeats: if s.repeats >= 2 {
                s.repeats
            } else {
                2
            },
            check_interval_ms: if s.check_interval_ms >= 1 {
                s.check_interval_ms
            } else {
                1
            },
            max_retries: s.max_retries,
            action: s.action,
            replay_partial: s.replay_partial,
        }
    }

    /// The configuration that the settings ask for.
    pub fn from_settings(s: &StreamingLoopSettings) -> (r: Config)
        ensures
            r == Config::of(*s),
    {
        Config {
            enabled: s.enabled,
            window: if s.window_bytes >= 1024 {
                s.window_bytes
            } else {
                1024
            },
            repeats: if s.repeats >= 2 {
                s.repeats
            } else {
                2
            },
            check_interval_ms: if s.check_interval_ms >= 1 {
                s.check_interval_ms
            } else {
                1
            },
            max_retries: s.max_retries,
            action: s.action,
            replay_partial: s.replay_partial,
        }
    }
}

// ----- what a choice has said -----

/// A part of an answer that can be replayed.
#[derive(Clone, Copy, Debug, PartialEq, Eq, Structural)]
pub enum FieldKind {
    Reasoning,
    Content,
}

/// One byte of an answer with the part it belongs to. The bytes of tool calls
/// belong to none.
#[derive(Clone, Copy, Debug, PartialEq, Eq, Structural)]
pub struct Spoken {
    pub field: Option<FieldKind>,
    pub byte: u8,
}

/// The bytes of an answer.
pub open spec fn spoken_bytes(s: Seq<Spoken>) -> Seq<u8> {
    s.map_values(|x: Spoken| x.byte)
}

/// Bytes that all belong to one part.
pub open spec fn speech(field: Option<FieldKind>, p: Seq<u8>) -> Seq<Spoken> {
    p.map_values(|b: u8| (Spoken { field, byte: b }))
}

/// The bytes of one part.
pub open spec fn only(s: Seq<Spoken>, field: FieldKind) -> Seq<u8>
    decreases s.len(),
{
    if s.len() == 0 {
        Seq::empty()
    } else if s.last().field == Some(field) {
        only(s.drop_last(), field).push(s.last().byte)
    } else {
        only(s.drop_last(), field)
    }
}

/// The text that bytes stand for that are not UTF-8.
pub uninterp spec fn lossy_text(bytes: Seq<u8>) -> Seq<char>;

/// The text that bytes stand for: the one that they encode where they are
/// UTF-8.
pub open spec fn text_for(bytes: Seq<u8>) -> Seq<char> {
    if valid_utf8(bytes) {
        decode_utf8(bytes)
    } else {
        lossy_text(bytes)
    }
}

/// Makes a text of bytes with `String::from_utf8_lossy`. The claim is that the
/// text depends on the bytes alone, that it is the text that they encode where
/// they are UTF-8, and that what is put in for other bytes is not ASCII: an
/// ASCII character of the text is a byte that was there.
#[verifier::external_body]
pub(crate) fn text_of_bytes(bytes: &[u8]) -> (r: String)
    ensures
        r@ == (if valid_utf8(bytes@) {
            decode_utf8(bytes@)
        } else {
            lossy_text(bytes@)
        }),
        forall|i: int|
            0 <= i < r@.len() && (#[trigger] r@[i] as u32) < 128 ==> bytes@.contains(r@[i] as u8),
{
    String::from_utf8_lossy(bytes).into_owned()
}

/// Whether `e` copies of the last `p` bytes stand at the end, and no more.
pub open spec fn is_extent(buf: Seq<u8>, p: int, e: int) -> bool {
    if 1 <= p <= buf.len() {
        &&& e >= 1
        &&& tandem(buf, p, e)
        &&& !tandem(buf, p, e + 1)
    } else {
        e == 0
    }
}

/// How many copies of the last `p` bytes stand at the end.
pub open spec fn extent(buf: Seq<u8>, p: int) -> int {
    choose|e: int| is_extent(buf, p, e)
}

proof fn lemma_fewer_copies(buf: Seq<u8>, p: int, k: int, j: int)
    requires
        tandem(buf, p, k),
        0 <= j <= k,
    ensures
        tandem(buf, p, j),
{
    assert(j * p <= k * p) by (nonlinear_arith)
        requires
            0 <= j <= k,
            p >= 1,
    ;
}

pub proof fn lemma_extent(buf: Seq<u8>, p: int, e: int)
    requires
        is_extent(buf, p, e),
    ensures
        extent(buf, p) == e,
{
    let f = extent(buf, p);
    assert(is_extent(buf, p, f));
    if 1 <= p <= buf.len() {
        if f < e {
            lemma_fewer_copies(buf, p, e, f + 1);
        }
        if e < f {
            lemma_fewer_copies(buf, p, f, e + 1);
        }
    }
}

/// Where the loop of period `period` begins in an answer. At least `repeats`
/// copies belong to it.
pub open spec fn loop_start(s: Seq<Spoken>, window: nat, repeats: int, period: int) -> int {
    let found = extent(keep_last(spoken_bytes(s), window), period);
    let copies = if found < repeats {
        repeats
    } else {
        found
    };
    if copies * period <= s.len() {
        s.len() - copies * period
    } else {
        0
    }
}

/// What can be replayed of an answer: all of it, or what came before the loop.
pub open spec fn replay(s: Seq<Spoken>, window: nat, repeats: int, period: int) -> Seq<Spoken> {
    if period == 0 {
        s
    } else {
        s.take(loop_start(s, window, repeats, period))
    }
}

/// A snapshot of an answer.
pub open spec fn snapshot_of(index: i64, s: Seq<Spoken>) -> SnapshotView {
    SnapshotView {
        index,
        content: text_for(only(s, FieldKind::Content)),
        reasoning_content: text_for(only(s, FieldKind::Reasoning)),
    }
}

/// What one choice has said in the current attempt.
pub struct ChoiceState {
    pub detector: Detector,
    pub said: Vec<Spoken>,
}

impl View for ChoiceState {
    type V = Seq<Spoken>;

    open spec fn view(&self) -> Seq<Spoken> {
        self.said@
    }
}

fn add_speech(v: &mut Vec<Spoken>, field: Option<FieldKind>, p: &[u8])
    ensures
        final(v)@ == old(v)@ + speech(field, p@),
{
    let ghost before = v@;
    let mut i: usize = 0;
    assert(v@ =~= before + speech(field, p@).take(0));
    while i < p.len()
        invariant
            i <= p@.len(),
            v@ == before + speech(field, p@).take(i as int),
        decreases p@.len() - i,
    {
        v.push(Spoken { field, byte: p[i] });
        assert(v@ =~= before + speech(field, p@).take(i + 1));
        i += 1;
    }
    assert(speech(field, p@).take(i as int) =~= speech(field, p@));
}

impl ChoiceState {
    /// The detector holds the end of what was said.
    pub open spec fn wf(&self) -> bool {
        &&& self.detector.wf()
        &&& self.detector@ == keep_last(spoken_bytes(self@), self.detector.limit())
    }

    /// A choice that has said nothing.
    pub fn new(window: usize, repeats: usize) -> (r: ChoiceState)
        ensures
            r.wf(),
            r@ == Seq::<Spoken>::empty(),
            r.detector.limit() == (if window >= 1 {
                window as nat
            } else {
                1
            }),
            r.detector.copies() == (if repeats >= 2 {
                repeats as nat
            } else {
                2
            }),
    {
        let r = ChoiceState { detector: Detector::new(window, repeats), said: Vec::new() };
        assert(spoken_bytes(r@) =~= Seq::<u8>::empty());
        r
    }

    fn append(&mut self, field: Option<FieldKind>, p: &[u8])
        requires
            old(self).wf(),
        ensures
            final(self).wf(),
            final(self)@ == old(self)@ + speech(field, p@),
            final(self).detector.limit() == old(self).detector.limit(),
            final(self).detector.copies() == old(self).detector.copies(),
    {
        let ghost before = self.said@;
        let ghost limit = self.detector.limit();
        proof {
            law_append_is_chunk_independent(Seq::empty(), spoken_bytes(before), p@, limit);
            assert(Seq::<u8>::empty() + spoken_bytes(before) =~= spoken_bytes(before));
            assert(Seq::<u8>::empty() + (spoken_bytes(before) + p@) =~= spoken_bytes(before) + p@);
        }
        add_speech(&mut self.said, field, p);
        self.detector.append(p);
        assert(spoken_bytes(self.said@) =~= spoken_bytes(before) + p@);
    }

    /// Adds bytes of a part that can be replayed.
    pub fn append_tracked(&mut self, field: FieldKind, p: &[u8])
        requires
            old(self).wf(),
        ensures
            final(self).wf(),
            final(self)@ == old(self)@ + speech(Some(field), p@),
            final(self).detector.limit() == old(self).detector.limit(),
            final(self).detector.copies() == old(self).detector.copies(),
    {
        self.append(Some(field), p);
    }

    /// Adds bytes that are not replayed.
    pub fn append_untracked(&mut self, p: &[u8])
        requires
            old(self).wf(),
        ensures
            final(self).wf(),
            final(self)@ == old(self)@ + speech(None, p@),
            final(self).detector.limit() == old(self).detector.limit(),
            final(self).detector.copies() == old(self).detector.copies(),
    {
        self.append(None, p);
    }

    fn part(&self, field: FieldKind, upto: usize) -> (r: Vec<u8>)
        requires
            upto <= self@.len(),
        ensures
            r@ == only(self@.take(upto as int), field),
    {
        let mut r: Vec<u8> = Vec::new();
        let mut i: usize = 0;
        assert(self.said@.take(0) =~= Seq::empty());
        while i < upto
            invariant
                i <= upto <= self.said@.len(),
                r@ == only(self.said@.take(i as int), field),
            decreases upto - i,
        {
            assert(self.said@.take(i + 1).drop_last() =~= self.said@.take(i as int));
            let x = self.said[i];
            match x.field {
                Some(f) => {
                    if f == field {
                        r.push(x.byte);
                    }
                },
                None => {},
            }
            i += 1;
        }
        r
    }

    /// What can be replayed of the answer: all of it where `period` is zero,
    /// else what came before the loop of that period.
    pub fn snapshot(&self, repeats: usize, period: usize) -> (r: ChoiceSnapshot)
        requires
            self.wf(),
        ensures
            r@ == snapshot_of(
                0,
                replay(self@, self.detector.limit(), repeats as int, period as int),
            ),
    {
        let total = self.said.len();
        let upto: usize = if period == 0 {
            total
        } else {
            let found = self.detector.loop_extent(period);
            proof {
                lemma_extent(self.detector@, period as int, found as int);
            }
            let copies: usize = if found < repeats {
                repeats
            } else {
                found
            };
            assert(copies * period <= usize::MAX * usize::MAX) by (nonlinear_arith)
                requires
                    copies <= usize::MAX,
                    period <= usize::MAX,
            ;
            assert(usize::MAX * usize::MAX <= u128::MAX) by (nonlinear_arith)
                requires
                    usize::MAX <= 0xffff_ffff_ffff_ffff,
            ;
            let length: u128 = copies as u128 * period as u128;
            if length <= total as u128 {
                total - length as usize
            } else {
                0
            }
        };
        assert(self.said@.take(self.said@.len() as int) =~= self.said@);
        let content = self.part(FieldKind::Content, upto);
        let reasoning = self.part(FieldKind::Reasoning, upto);
        ChoiceSnapshot {
            index: 0,
            content: text_of_bytes(content.as_slice()),
            reasoning_content: text_of_bytes(reasoning.as_slice()),
        }
    }
}

// ----- all choices -----

/// A choice with its index.
pub struct IndexedChoice {
    pub index: i64,
    pub state: ChoiceState,
}

/// What the choices have said, in the order in which they began to speak.
pub open spec fn all_said(s: Seq<IndexedChoice>) -> Seq<(i64, Seq<Spoken>)> {
    s.map_values(|c: IndexedChoice| (c.index, c.state@))
}

/// Where the choice of that index stands, among those from `i` on.
pub open spec fn choice_at(s: Seq<(i64, Seq<Spoken>)>, index: i64, i: int) -> Option<int>
    decreases s.len() - i,
{
    if i < 0 || i >= s.len() {
        None
    } else if s[i].0 == index {
        Some(i)
    } else {
        choice_at(s, index, i + 1)
    }
}

/// What a choice says in one event: its reasoning, its content, its tool calls.
pub open spec fn delta_speech(d: DeltaView) -> Seq<Spoken> {
    speech(Some(FieldKind::Reasoning), text_bytes(d.reasoning_content)) + speech(
        Some(FieldKind::Content),
        text_bytes(d.content),
    ) + speech(None, d.tool_calls)
}

/// What the choices have said after one more delta.
pub open spec fn heard(s: Seq<(i64, Seq<Spoken>)>, d: DeltaView) -> Seq<(i64, Seq<Spoken>)> {
    match choice_at(s, d.index, 0) {
        Some(i) => s.update(i, (d.index, s[i].1 + delta_speech(d))),
        None => s.push((d.index, delta_speech(d))),
    }
}

/// What the choices have said after the first `n` deltas.
pub open spec fn heard_all(s: Seq<(i64, Seq<Spoken>)>, d: Seq<DeltaView>, n: int) -> Seq<
    (i64, Seq<Spoken>),
>
    decreases n,
{
    if n <= 0 {
        s
    } else {
        heard(heard_all(s, d, n - 1), d[n - 1])
    }
}

/// Whether the choice has a loop whose smallest period is `p`.
pub open spec fn loops(said: Seq<Spoken>, window: nat, copies: int, p: int) -> bool {
    let buf = keep_last(spoken_bytes(said), window);
    &&& tandem(buf, p, copies)
    &&& forall|q: int| q < p ==> !tandem(buf, q, copies)
}

/// Whether the choice has no loop.
pub open spec fn no_loop(said: Seq<Spoken>, window: nat, copies: int) -> bool {
    forall|q: int| !tandem(keep_last(spoken_bytes(said), window), q, copies)
}

/// Whether the choice at position `i` is the one of the lowest index with a
/// loop, and `p` the period of that loop.
pub open spec fn first_loop(
    s: Seq<(i64, Seq<Spoken>)>,
    window: nat,
    copies: int,
    i: int,
    p: int,
) -> bool {
    &&& 0 <= i < s.len()
    &&& p >= 1
    &&& loops(s[i].1, window, copies, p)
    &&& forall|j: int|
        0 <= j < s.len() && (#[trigger] s[j]).0 < s[i].0 ==> no_loop(s[j].1, window, copies)
}

/// The snapshots of the first `n` choices that have said anything; for the one
/// with the loop, of what came before it.
pub open spec fn partials(
    s: Seq<(i64, Seq<Spoken>)>,
    window: nat,
    repeats: int,
    looping: i64,
    period: int,
    n: int,
) -> Seq<SnapshotView>
    decreases n,
{
    if n <= 0 {
        Seq::empty()
    } else {
        let front = partials(s, window, repeats, looping, period, n - 1);
        let (index, said) = s[n - 1];
        let p = if index == looping {
            period
        } else {
            0
        };
        let shot = snapshot_of(index, replay(said, window, repeats, p));
        if has_spoken(shot) {
            front.push(shot)
        } else {
            front
        }
    }
}

/// How an attempt at a stream ended.
#[derive(Clone, Copy, Debug, PartialEq, Eq, Structural)]
pub enum Outcome {
    FinishedNaturally,
    ClientDisconnected,
    /// The server sent nothing for too long.
    IdleTimeout,
    LoopDetected { choice_index: i64, period: usize },
    UpstreamError,
}

/// What is to be done after an attempt.
#[derive(Debug)]
pub enum NextStep {
    /// Nothing more.
    Stop,
    /// Recycle the instance and end the stream with an error.
    Recycle,
    /// End the stream with these bytes.
    Halt(Vec<u8>),
    /// Send the request again.
    Retry,
}

/// What a look at the choices led to.
#[derive(Debug)]
pub enum Look {
    /// There is nothing to report.
    Quiet,
    /// A loop is to be noted, and the stream goes on.
    Note { choice_index: i64, period: usize },
    /// A loop ends the attempt.
    Loop { choice_index: i64, period: usize, snippet: Vec<u8> },
}

/// Whether a request asks for a stream.
pub open spec fn wants_stream(doc: JsonView) -> bool {
    doc.get("stream"@) == Some(JsonView::Bool(true))
}

/// Whether a request is guarded, and as what.
pub open spec fn guarded_kind(path: Seq<char>, doc: JsonView, cfg: StreamingLoopSettings) -> Option<
    EndpointKind,
> {
    if cfg.enabled && wants_stream(doc) {
        EndpointKind::of_path(path)
    } else {
        None
    }
}

/// A guarded stream.
pub struct StreamSession {
    pub cfg: Config,
    pub kind: EndpointKind,
    pub req_doc: Json,
    pub choices: Vec<IndexedChoice>,
    pub attempt: usize,
    /// Whether the throughput of this request was taken down.
    pub perf_recorded: bool,
}

/// What the choices have said after the first `n` events. The mark `[DONE]`
/// says nothing; the last event of llama.cpp's own stream still does.
pub open spec fn heard_events(
    kind: EndpointKind,
    s: Seq<(i64, Seq<Spoken>)>,
    events: Seq<Seq<u8>>,
    n: int,
) -> Seq<(i64, Seq<Spoken>)>
    decreases n,
{
    if n <= 0 {
        s
    } else {
        let front = heard_events(kind, s, events, n - 1);
        let e = events[n - 1];
        if trimmed(e) == done_mark() {
            front
        } else {
            heard_all(front, kind.says(e), kind.says(e).len() as int)
        }
    }
}

/// The throughput that an event reports.
pub open spec fn event_timings(e: Seq<u8>) -> Option<(Seq<char>, Seq<char>)> {
    match json_document(e) {
        Some(doc) => timings_of(doc),
        None => None,
    }
}

/// The throughput that the first of the first `n` events reports that reports
/// one. It may be the last event of llama.cpp's own stream; the mark `[DONE]`
/// reports none.
pub open spec fn first_timings(events: Seq<Seq<u8>>, n: int) -> Option<(Seq<char>, Seq<char>)>
    decreases n,
{
    if n <= 0 {
        None
    } else {
        match first_timings(events, n - 1) {
            Some(t) => Some(t),
            None => if trimmed(events[n - 1]) == done_mark() {
                None
            } else {
                event_timings(events[n - 1])
            },
        }
    }
}

/// The throughput as a value.
pub open spec fn timings_view(t: Option<Timings>) -> Option<(Seq<char>, Seq<char>)> {
    match t {
        Some(x) => Some((x.decode@, x.prefill@)),
        None => None,
    }
}

/// What came back first from the server.
#[derive(Clone, Copy, Debug, PartialEq, Eq, Structural)]
pub enum FirstAnswer {
    /// Nothing came for too long.
    TimedOut,
    /// The request failed.
    Failed,
    /// An answer of that status began.
    Status(u16),
}

/// What is to be done about the first answer.
#[derive(Clone, Copy, Debug, PartialEq, Eq, Structural)]
pub enum FirstStep {
    /// Recycle the instance, and tell the client to retry.
    Restart,
    /// Tell the client that the server failed.
    TellFailure,
    /// Pass the answer on as it is.
    PassOn,
    /// Pass the answer on and watch it.
    Watch,
}

/// What is to be done about the first answer.
pub open spec fn step_for(answer: FirstAnswer) -> FirstStep {
    match answer {
        FirstAnswer::TimedOut => FirstStep::Restart,
        FirstAnswer::Failed => FirstStep::TellFailure,
        FirstAnswer::Status(n) => if n == 200 {
            FirstStep::Watch
        } else {
            FirstStep::PassOn
        },
    }
}

/// What is to be done about the first answer: only an answer that is in order
/// is watched.
pub fn first_step(answer: FirstAnswer) -> (r: FirstStep)
    ensures
        r == step_for(answer),
        r == (match answer {
            FirstAnswer::TimedOut => FirstStep::Restart,
            FirstAnswer::Failed => FirstStep::TellFailure,
            FirstAnswer::Status(n) => if n == 200 {
                FirstStep::Watch
            } else {
                FirstStep::PassOn
            },
        }),
{
    match answer {
        FirstAnswer::TimedOut => FirstStep::Restart,
        FirstAnswer::Failed => FirstStep::TellFailure,
        FirstAnswer::Status(n) => {
            if n == 200 {
                FirstStep::Watch
            } else {
                FirstStep::PassOn
            }
        },
    }
}

impl StreamSession {
    /// Every choice is watched as configured, and no more retries were made
    /// than are allowed.
    pub open spec fn wf(&self) -> bool {
        &&& self.cfg.window >= 1024
        &&& self.cfg.repeats >= 2
        &&& self.attempt <= self.cfg.max_retries
        &&& forall|i: int|
            0 <= i < self.choices@.len() ==> {
                &&& (#[trigger] self.choices@[i]).state.wf()
                &&& self.choices@[i].state.detector.limit() == self.cfg.window
                &&& self.choices@[i].state.detector.copies() == self.cfg.repeats
            }
    }

    /// What the choices have said in the current attempt.
    pub open spec fn said(&self) -> Seq<(i64, Seq<Spoken>)> {
        all_said(self.choices@)
    }

    /// Whether no choice has a loop.
    pub open spec fn no_loops(&self) -> bool {
        forall|i: int|
            0 <= i < self.said().len() ==> no_loop(
                (#[trigger] self.said()[i]).1,
                self.cfg.window as nat,
                self.cfg.repeats as int,
            )
    }

    /// Whether the choice of that index is the one of the lowest index with a
    /// loop, and `period` the period of that loop.
    pub open spec fn has_loop(&self, index: i64, period: int) -> bool {
        exists|i: int| #[trigger]
            first_loop(
                self.said(),
                self.cfg.window as nat,
                self.cfg.repeats as int,
                i,
                period,
            ) && self.said()[i].0 == index
    }

    /// The start of the last `period` bytes of a choice, `max` bytes at most.
    pub open spec fn snippet_of(&self, index: i64, period: int, max: int) -> Seq<u8> {
        match choice_at(self.said(), index, 0) {
            Some(i) => {
                let buf = keep_last(spoken_bytes(self.said()[i].1), self.cfg.window as nat);
                if 1 <= period <= buf.len() {
                    buf.subrange(
                        buf.len() - period,
                        buf.len() - period + (if 0 < max < period {
                            max
                        } else {
                            period
                        }),
                    )
                } else {
                    Seq::empty()
                }
            },
            None => Seq::empty(),
        }
    }

    /// The session for a request that was read, if the request is guarded.
    pub fn for_document(path: &str, doc: Json, cfg: &StreamingLoopSettings) -> (r: Option<
        StreamSession,
    >)
        ensures
            match r {
                Some(s) => {
                    &&& s.wf()
                    &&& guarded_kind(path@, doc@, *cfg) == Some(s.kind)
                    &&& s.cfg == Config::of(*cfg)
                    &&& s.req_doc == doc
                    &&& s.said() == Seq::<(i64, Seq<Spoken>)>::empty()
                    &&& s.attempt == 0
                    &&& !s.perf_recorded
                },
                None => guarded_kind(path@, doc@, *cfg) is None,
            },
    {
        if !cfg.enabled {
            return None;
        }
        let kind = match EndpointKind::detect(path) {
            Some(k) => k,
            None => {
                return None;
            },
        };
        let streaming = match doc.get("stream") {
            Some(j) => match j {
                Json::Bool(b) => *b,
                _ => false,
            },
            None => false,
        };
        if !streaming {
            return None;
        }
        let s = StreamSession {
            cfg: Config::from_settings(cfg),
            kind,
            req_doc: doc,
            choices: Vec::new(),
            attempt: 0,
            perf_recorded: false,
        };
        assert(s.said() =~= Seq::<(i64, Seq<Spoken>)>::empty());
        Some(s)
    }

    /// Whether `r` is the session for a request, where the request is guarded.
    pub open spec fn opens(
        path: Seq<char>,
        body: Seq<u8>,
        cfg: StreamingLoopSettings,
        r: Option<StreamSession>,
    ) -> bool {
        match json_document(body) {
            Some(doc) => match r {
                Some(s) => {
                    &&& s.wf()
                    &&& guarded_kind(path, doc, cfg) == Some(s.kind)
                    &&& s.cfg == Config::of(cfg)
                    &&& s.req_doc@ == doc
                    &&& s.said() == Seq::<(i64, Seq<Spoken>)>::empty()
                    &&& s.attempt == 0
                    &&& !s.perf_recorded
                },
                None => guarded_kind(path, doc, cfg) is None,
            },
            None => r is None,
        }
    }

    /// The session for a request, if the request is guarded.
    pub fn new(path: &str, body: &[u8], cfg: &StreamingLoopSettings) -> (r: Option<StreamSession>)
        ensures
            StreamSession::opens(path@, body@, *cfg, r),
    {
        match parse_json(body) {
            Some(doc) => StreamSession::for_document(path, doc, cfg),
            None => None,
        }
    }

    /// The request as it is sent.
    pub fn request_body(&self) -> (r: Vec<u8>)
        ensures
            r@ == text_bytes(json_text(self.req_doc@)),
    {
        let text = render_json(&self.req_doc);
        to_bytes(&text)
    }

    fn find_choice(&self, index: i64) -> (r: Option<usize>)
        ensures
            match r {
                Some(i) => i < self.choices@.len() && choice_at(self.said(), index, 0) == Some(
                    i as int,
                ) && self.choices@[i as int].index == index,
                None => choice_at(self.said(), index, 0) is None,
            },
    {
        let mut i: usize = 0;
        while i < self.choices.len()
            invariant
                i <= self.choices@.len(),
                choice_at(self.said(), index, 0) == choice_at(self.said(), index, i as int),
            decreases self.choices@.len() - i,
        {
            assert(self.said()[i as int].0 == self.choices@[i as int].index);
            if self.choices[i].index == index {
                return Some(i);
            }
            i += 1;
        }
        None
    }

    /// Takes in what one choice says.
    pub fn hear(&mut self, d: &ChoiceDelta)
        requires
            old(self).wf(),
        ensures
            final(self).wf(),
            final(self).said() == heard(old(self).said(), d@),
            *final(self) == (StreamSession { choices: final(self).choices, ..*old(self) }),
    {
        let ghost before = self.said();
        let at: usize = match self.find_choice(d.index) {
            Some(i) => i,
            None => {
                let state = ChoiceState::new(self.cfg.window, self.cfg.repeats);
                self.choices.push(IndexedChoice { index: d.index, state });
                self.choices.len() - 1
            },
        };
        let ghost mid = self.choices@;
        let ghost start = mid[at as int].state@;
        let state = &mut self.choices[at].state;
        let a = to_bytes(&d.reasoning_content);
        let b = to_bytes(&d.content);
        state.append_tracked(FieldKind::Reasoning, a.as_slice());
        state.append_tracked(FieldKind::Content, b.as_slice());
        state.append_untracked(d.tool_calls.as_slice());
        proof {
            assert(self.choices@[at as int].state@ =~= start + delta_speech(d@));
            assert(forall|j: int|
                0 <= j < mid.len() && j != at ==> #[trigger] self.choices@[j] == mid[j]);
            assert(start =~= Seq::<Spoken>::empty() ==> start + delta_speech(d@)
                =~= delta_speech(d@));
            assert(self.said() =~= heard(before, d@));
        }
    }

    /// Takes in what several choices say.
    pub fn hear_all(&mut self, deltas: &Vec<ChoiceDelta>)
        requires
            old(self).wf(),
        ensures
            final(self).wf(),
            final(self).said() == heard_all(
                old(self).said(),
                delta_views(deltas@),
                deltas@.len() as int,
            ),
            *final(self) == (StreamSession { choices: final(self).choices, ..*old(self) }),
    {
        let ghost start = *self;
        let ghost all = delta_views(deltas@);
        let mut i: usize = 0;
        while i < deltas.len()
            invariant
                i <= deltas@.len(),
                all == delta_views(deltas@),
                self.wf(),
                self.said() == heard_all(start.said(), all, i as int),
                *self == (StreamSession { choices: self.choices, ..start }),
            decreases deltas@.len() - i,
        {
            assert(all[i as int] == deltas@[i as int]@);
            self.hear(&deltas[i]);
            i += 1;
        }
    }

    /// Takes in a streamed event.
    pub fn feed_detectors(&mut self, payload: &[u8])
        requires
            old(self).wf(),
        ensures
            final(self).wf(),
            final(self).said() == heard_all(
                old(self).said(),
                old(self).kind.says(payload@),
                old(self).kind.says(payload@).len() as int,
            ),
            *final(self) == (StreamSession { choices: final(self).choices, ..*old(self) }),
    {
        let deltas = self.kind.parse_chunk(payload);
        assert(delta_views(deltas@).len() == deltas@.len());
        self.hear_all(&deltas);
    }

    /// The throughput that an event reports, unless one was taken down before.
    pub fn note_timings(&mut self, payload: &[u8]) -> (r: Option<Timings>)
        ensures
            timings_view(r) == (if old(self).perf_recorded {
                None
            } else {
                event_timings(payload@)
            }),
            *final(self) == (StreamSession {
                perf_recorded: old(self).perf_recorded || r is Some,
                ..*old(self)
            }),
    {
        if self.perf_recorded {
            return None;
        }
        let t = match parse_json(payload) {
            Some(doc) => timings_from_json(&doc),
            None => None,
        };
        if t.is_some() {
            self.perf_recorded = true;
        }
        t
    }

    /// Whether the session after it has heard the events, and `r` is the
    /// throughput that they report, unless one was taken down before.
    pub open spec fn hears(
        &self,
        after: &StreamSession,
        events: Seq<Seq<u8>>,
        r: Option<Timings>,
    ) -> bool {
        &&& after.said() == heard_events(self.kind, self.said(), events, events.len() as int)
        &&& timings_view(r) == (if self.perf_recorded {
            None
        } else {
            first_timings(events, events.len() as int)
        })
        &&& *after == (StreamSession {
            choices: after.choices,
            perf_recorded: self.perf_recorded || r is Some,
            ..*self
        })
    }

    /// Takes in streamed events, and returns the throughput that they report,
    /// unless one was taken down before.
    pub fn feed_events(&mut self, events: &Vec<Vec<u8>>) -> (r: Option<Timings>)
        requires
            old(self).wf(),
        ensures
            final(self).wf(),
            old(self).hears(final(self), byte_views(events@), r),
    {
        let ghost start = *self;
        let ghost all = byte_views(events@);
        let mut r: Option<Timings> = None;
        let mut i: usize = 0;
        while i < events.len()
            invariant
                i <= events@.len(),
                all == byte_views(events@),
                self.wf(),
                self.said() == heard_events(start.kind, start.said(), all, i as int),
                timings_view(r) == (if start.perf_recorded {
                    None
                } else {
                    first_timings(all, i as int)
                }),
                *self == (StreamSession {
                    choices: self.choices,
                    perf_recorded: start.perf_recorded || r is Some,
                    ..start
                }),
            decreases events@.len() - i,
        {
            assert(all[i as int] == events@[i as int]@);
            if !sse::is_done(events[i].as_slice()) {
                self.feed_detectors(events[i].as_slice());
                match self.note_timings(events[i].as_slice()) {
                    Some(t) => {
                        r = Some(t);
                    },
                    None => {},
                }
            }
            i += 1;
        }
        r
    }

    /// Takes in a piece of the stream.
    pub fn take_in(&mut self, parser: &mut EventParser, piece: &[u8]) -> (r: Option<Timings>)
        requires
            old(self).wf(),
        ensures
            final(self).wf(),
            final(parser)@ == take_bytes(old(parser)@, piece@).0,
            old(self).hears(final(self), take_bytes(old(parser)@, piece@).1, r),
    {
        let events = parser.push(piece);
        assert(byte_views(events@).len() == events@.len());
        self.feed_events(&events)
    }

    /// The choice of the lowest index with a loop, and the period of that loop;
    /// the period is zero where there is none.
    pub fn scan_all(&self) -> (r: (i64, usize))
        requires
            self.wf(),
        ensures
            r.1 == 0 ==> r.0 == 0 && self.no_loops(),
            r.1 > 0 ==> self.has_loop(r.0, r.1 as int),
    {
        let ghost window = self.cfg.window as nat;
        let ghost copies = self.cfg.repeats as int;
        let mut best: (i64, usize) = (0, 0);
        let ghost mut at: int = 0;
        let mut i: usize = 0;
        while i < self.choices.len()
            invariant
                i <= self.choices@.len(),
                self.wf(),
                window == self.cfg.window as nat,
                copies == self.cfg.repeats as int,
                best.1 == 0 ==> best.0 == 0 && forall|j: int|
                    0 <= j < i ==> no_loop((#[trigger] self.said()[j]).1, window, copies),
                best.1 > 0 ==> {
                    &&& 0 <= at < i
                    &&& self.said()[at].0 == best.0
                    &&& loops(self.said()[at].1, window, copies, best.1 as int)
                    &&& forall|j: int|
                        0 <= j < i && (#[trigger] self.said()[j]).0 < best.0 ==> no_loop(
                            self.said()[j].1,
                            window,
                            copies,
                        )
                },
            decreases self.choices@.len() - i,
        {
            let ghost was = best;
            assert(self.said()[i as int] == (
                self.choices@[i as int].index,
                self.choices@[i as int].state@,
            ));
            let p = self.choices[i].state.detector.scan();
            if p > 0 && (best.1 == 0 || self.choices[i].index < best.0) {
                best = (self.choices[i].index, p);
                proof {
                    at = i as int;
                }
            }
            i += 1;
        }
        if best.1 > 0 {
            assert(first_loop(self.said(), window, copies, at, best.1 as int));
        }
        best
    }

    /// The start of the last `period` bytes of a choice.
    pub fn snapshot_snippet(&self, index: i64, period: usize, max: usize) -> (r: Vec<u8>)
        requires
            self.wf(),
        ensures
            r@ == self.snippet_of(index, period as int, max as int),
    {
        match self.find_choice(index) {
            Some(i) => {
                assert(self.said()[i as int] == (
                    self.choices@[i as int].index,
                    self.choices@[i as int].state@,
                ));
                self.choices[i].state.detector.snippet(period, max)
            },
            None => Vec::new(),
        }
    }

    /// Looks for a loop. Where loops are only noted, each attempt notes one;
    /// `noted` says that this was done.
    pub fn look(&self, noted: bool) -> (r: Look)
        requires
            self.wf(),
        ensures
            match r {
                Look::Quiet => (noted && self.cfg.action == StreamingLoopAction::Log)
                    || self.no_loops(),
                Look::Note { choice_index, period } => {
                    &&& !noted
                    &&& self.cfg.action == StreamingLoopAction::Log
                    &&& self.has_loop(choice_index, period as int)
                },
                Look::Loop { choice_index, period, snippet } => {
                    &&& self.cfg.action != StreamingLoopAction::Log
                    &&& self.has_loop(choice_index, period as int)
                    &&& snippet@ == self.snippet_of(choice_index, period as int, 256)
                },
            },
    {
        let (choice_index, period) = self.scan_all();
        if period == 0 {
            return Look::Quiet;
        }
        if self.cfg.action == StreamingLoopAction::Log {
            if noted {
                return Look::Quiet;
            }
            return Look::Note { choice_index, period };
        }
        let snippet = self.snapshot_snippet(choice_index, period, 256);
        Look::Loop { choice_index, period, snippet }
    }

    /// What can be replayed of the choices, if anything is replayed.
    pub fn build_partials(&self, looping: i64, period: usize) -> (r: Option<Vec<ChoiceSnapshot>>)
        requires
            self.wf(),
        ensures
            match r {
                Some(v) => self.cfg.replay_partial && snapshot_views(v@) == partials(
                    self.said(),
                    self.cfg.window as nat,
                    self.cfg.repeats as int,
                    looping,
                    period as int,
                    self.said().len() as int,
                ),
                None => !self.cfg.replay_partial,
            },
    {
        if !self.cfg.replay_partial {
            return None;
        }
        let ghost window = self.cfg.window as nat;
        let ghost copies = self.cfg.repeats as int;
        let mut out: Vec<ChoiceSnapshot> = Vec::new();
        let mut i: usize = 0;
        assert(snapshot_views(out@) =~= Seq::empty());
        while i < self.choices.len()
            invariant
                i <= self.choices@.len(),
                self.wf(),
                window == self.cfg.window as nat,
                copies == self.cfg.repeats as int,
                snapshot_views(out@) == partials(
                    self.said(),
                    window,
                    copies,
                    looping,
                    period as int,
                    i as int,
                ),
            decreases self.choices@.len() - i,
        {
            assert(self.said()[i as int] == (
                self.choices@[i as int].index,
                self.choices@[i as int].state@,
            ));
            let p: usize = if self.choices[i].index == looping {
                period
            } else {
                0
            };
            let mut shot = self.choices[i].state.snapshot(self.cfg.repeats, p);
            shot.index = self.choices[i].index;
            let ghost sv = shot@;
            let ghost before = out@;
            if !shot.content.as_str().is_empty() || !shot.reasoning_content.as_str().is_empty() {
                out.push(shot);
                assert(snapshot_views(out@) =~= snapshot_views(before).push(sv));
            }
            i += 1;
        }
        Some(out)
    }

    /// Whether a loop ends the stream.
    pub open spec fn gives_up(&self) -> bool {
        self.cfg.action != StreamingLoopAction::Heal || self.attempt >= self.cfg.max_retries
    }

    /// The request after one more corrective message.
    pub open spec fn healed(&self, looping: i64, period: int) -> JsonView {
        self.kind.corrected(
            self.req_doc@,
            self.attempt as nat,
            if self.cfg.replay_partial {
                Some(
                    partials(
                        self.said(),
                        self.cfg.window as nat,
                        self.cfg.repeats as int,
                        looping,
                        period,
                        self.said().len() as int,
                    ),
                )
            } else {
                None
            },
        )
    }

    /// Whether `r` is what is to be done after an attempt, and `then` the
    /// session that goes on.
    pub open spec fn goes_on(&self, then: &StreamSession, outcome: Outcome, r: NextStep) -> bool {
        match outcome {
            Outcome::FinishedNaturally => r is Stop && *then == *self,
            Outcome::ClientDisconnected => r is Stop && *then == *self,
            Outcome::UpstreamError => r is Stop && *then == *self,
            Outcome::IdleTimeout => r is Recycle && *then == *self,
            Outcome::LoopDetected { choice_index, period } => if self.gives_up() {
                &&& *then == *self
                &&& r matches NextStep::Halt(out)
                &&& out@ == halt_bytes(self.kind, self.attempt as nat + 1, period as nat)
            } else {
                &&& r is Retry
                &&& then.cfg == self.cfg
                &&& then.kind == self.kind
                &&& then.perf_recorded == self.perf_recorded
                &&& then.attempt == self.attempt + 1
                &&& then.said() == Seq::<(i64, Seq<Spoken>)>::empty()
                &&& then.req_doc@ == self.healed(choice_index, period as int)
            },
        }
    }

    /// What is to be done after an attempt. A loop that can be healed puts a
    /// corrective message into the request, and the choices begin anew.
    pub fn after(&mut self, outcome: Outcome) -> (r: NextStep)
        requires
            old(self).wf(),
            old(self).attempt < usize::MAX,
        ensures
            final(self).wf(),
            old(self).goes_on(final(self), outcome, r),
            match outcome {
                Outcome::FinishedNaturally => r is Stop && *final(self) == *old(self),
                Outcome::ClientDisconnected => r is Stop && *final(self) == *old(self),
                Outcome::UpstreamError => r is Stop && *final(self) == *old(self),
                Outcome::IdleTimeout => r is Recycle && *final(self) == *old(self),
                Outcome::LoopDetected { choice_index, period } => if old(self).gives_up() {
                    &&& *final(self) == *old(self)
                    &&& r matches NextStep::Halt(out)
                    &&& out@ == halt_bytes(old(self).kind, old(self).attempt as nat + 1, period as nat)
                } else {
                    &&& r is Retry
                    &&& final(self).cfg == old(self).cfg
                    &&& final(self).kind == old(self).kind
                    &&& final(self).perf_recorded == old(self).perf_recorded
                    &&& final(self).attempt == old(self).attempt + 1
                    &&& final(self).said() == Seq::<(i64, Seq<Spoken>)>::empty()
                    &&& final(self).req_doc@ == old(self).healed(choice_index, period as int)
                },
            },
    {
        match outcome {
            Outcome::FinishedNaturally => NextStep::Stop,
            Outcome::ClientDisconnected => NextStep::Stop,
            Outcome::UpstreamError => NextStep::Stop,
            Outcome::IdleTimeout => NextStep::Recycle,
            Outcome::LoopDetected { choice_index, period } => {
                if self.cfg.action != StreamingLoopAction::Heal || self.attempt
                    >= self.cfg.max_retries {
                    return NextStep::Halt(self.kind.format_halt_delta(self.attempt + 1, period));
                }
                let shots = self.build_partials(choice_index, period);
                let mut doc = Json::Null;
                std::mem::swap(&mut doc, &mut self.req_doc);
                self.req_doc =
                match &shots {
                    Some(v) => self.kind.inject_corrective(doc, self.attempt, Some(v)),
                    None => self.kind.inject_corrective(doc, self.attempt, None),
                };
                self.choices = Vec::new();
                self.attempt = self.attempt + 1;
                assert(self.said() =~= Seq::<(i64, Seq<Spoken>)>::empty());
                NextStep::Retry
            },
        }
    }
}

/// The message that ends a stream whose instance is recycled.
pub open spec fn recycle_notice(model_id: Seq<char>, msg: Seq<char>) -> JsonView {
    JsonView::Object(
        seq![
            (
                "error"@,
                JsonView::Object(
                    seq![
                        ("message"@, JsonView::Str(msg)),
                        ("type"@, JsonView::Str("router_recycle"@)),
                        ("model"@, JsonView::Str(model_id)),
                    ],
                ),
            ),
        ],
    )
}

fn recycle_document(model_id: &str, msg: &str) -> (r: Json)
    ensures
        r@ == recycle_notice(model_id@, msg@),
{
    let a = ("message".to_owned(), json_str(msg));
    let b = ("type".to_owned(), json_str("router_recycle"));
    let c = ("model".to_owned(), json_str(model_id));
    let mut v: Vec<(String, Json)> = Vec::new();
    proof {
        lemma_entries_push(v@, a);
        lemma_entries_push(v@.push(a), b);
        lemma_entries_push(v@.push(a).push(b), c);
    }
    v.push(a);
    v.push(b);
    v.push(c);
    assert(entry_views(v@) =~= seq![
        ("message"@, JsonView::Str(msg@)),
        ("type"@, JsonView::Str("router_recycle"@)),
        ("model"@, JsonView::Str(model_id@)),
    ]);
    let inner = Json::Object(v);
    let ghost iv = inner@;
    let e = ("error".to_owned(), inner);
    let mut w: Vec<(String, Json)> = Vec::new();
    proof {
        lemma_entries_push(w@, e);
    }
    w.push(e);
    assert(entry_views(w@) =~= seq![("error"@, iv)]);
    Json::Object(w)
}

/// The bytes that end a stream whose instance is recycled.
pub fn stream_error(model_id: &str, msg: &str) -> (r: Vec<u8>)
    ensures
        r@ == text_bytes(
            "data: "@ + json_text(recycle_notice(model_id@, msg@)) + "\n\ndata: [DONE]\n\n"@,
        ),
{
    let doc = recycle_document(model_id, msg);
    let text = render_json(&doc);
    let out = "data: ".to_owned().concat(text.as_str()).concat("\n\ndata: [DONE]\n\n");
    to_bytes(&out)
}

/// The text of the first `n` bytes, with three dots where there are more.
pub fn snippet_text(bytes: &[u8], n: usize) -> (r: String)
    ensures
        bytes@.len() <= n ==> r@ == text_for(bytes@),
        bytes@.len() > n ==> r@ == text_for(bytes@.take(n as int)) + "..."@,
{
    if bytes.len() <= n {
        return text_of_bytes(bytes);
    }
    let mut head: Vec<u8> = Vec::new();
    let mut i: usize = 0;
    assert(head@ =~= bytes@.take(0));
    while i < n
        invariant
            i <= n < bytes@.len(),
            head@ == bytes@.take(i as int),
        decreases n - i,
    {
        head.push(bytes[i]);
        assert(head@ =~= bytes@.take(i + 1));
        i += 1;
    }
    text_of_bytes(head.as_slice()).concat("...")
}

// ----- laws -----

proof fn lemma_only_prefix(s: Seq<Spoken>, n: int, field: FieldKind)
    requires
        0 <= n <= s.len(),
    ensures
        only(s.take(n), field).is_prefix_of(only(s, field)),
    decreases s.len() - n,
{
    if n < s.len() {
        lemma_only_prefix(s, n + 1, field);
        assert(s.take(n + 1).drop_last() =~= s.take(n));
        assert(only(s.take(n), field).is_prefix_of(only(s.take(n + 1), field)));
    } else {
        assert(s.take(n) =~= s);
    }
}

/// What is replayed of an answer is the beginning of what was said.
pub proof fn law_replay_is_a_prefix(
    s: Seq<Spoken>,
    window: nat,
    repeats: int,
    period: int,
    field: FieldKind,
)
    requires
        repeats >= 2,
        period >= 0,
    ensures
        replay(s, window, repeats, period).is_prefix_of(s),
        only(replay(s, window, repeats, period), field).is_prefix_of(only(s, field)),
{
    if period == 0 {
        assert(s.is_prefix_of(s));
    } else {
        let n = loop_start(s, window, repeats, period);
        let found = extent(keep_last(spoken_bytes(s), window), period);
        let copies = if found < repeats {
            repeats
        } else {
            found
        };
        assert(copies * period >= 0) by (nonlinear_arith)
            requires
                copies >= 0,
                period >= 0,
        ;
        lemma_only_prefix(s, n, field);
    }
}

/// Splitting what a choice says over several events changes nothing.
pub proof fn law_speech_is_chunk_independent(field: Option<FieldKind>, a: Seq<u8>, b: Seq<u8>)
    ensures
        speech(field, a) + speech(field, b) == speech(field, a + b),
{
    assert(speech(field, a) + speech(field, b) =~= speech(field, a + b));
}

} // verus!
