//! The kinds of streamed answers, and how a loop in each is ended or talked
//! out of.
use vstd::prelude::*;
use vstd::string::*;

use crate::api::json::{
    append_items, entry_views, find_entry, item_views, json_list, json_pair, json_single, json_str,
    json_text, json_triple,
    lemma_entries_update, lemma_entry_found, lemma_entry_views, lemma_item_views,
    lemma_items_push, render_json, with_entry, with_items, Json, JsonView,
};
use crate::api::loop_guard::sse;
use crate::api::loop_guard::sse::{
    bytes_between, chat_event, chat_says, delta_views, done_mark, native_event, native_says,
    text_event, text_says, trimmed, ChoiceDelta, DeltaView,
};
use crate::text::{decimal, decimal_text, ends_with_text, has_suffix};

verus! {

broadcast use vstd::string::group_string_axioms;

/// A kind of streamed answer.
#[derive(Debug, Clone, Copy, PartialEq, Eq, Structural)]
pub enum EndpointKind {
    Chat,
    Completion,
    LlamaCpp,
}

/// What a choice has said so far.
#[derive(Debug)]
pub struct ChoiceSnapshot {
    pub index: i64,
    pub content: String,
    pub reasoning_content: String,
}

/// The mathematical content of a `ChoiceSnapshot`.
pub struct SnapshotView {
    pub index: i64,
    pub content: Seq<char>,
    pub reasoning_content: Seq<char>,
}

impl View for ChoiceSnapshot {
    type V = SnapshotView;

    open spec fn view(&self) -> SnapshotView {
        SnapshotView {
            index: self.index,
            content: self.content@,
            reasoning_content: self.reasoning_content@,
        }
    }
}

/// The snapshots as values.
pub open spec fn snapshot_views(s: Seq<ChoiceSnapshot>) -> Seq<SnapshotView> {
    s.map_values(|c: ChoiceSnapshot| c@)
}

/// The snapshots of an optional list.
pub open spec fn partial_view(p: Option<&Vec<ChoiceSnapshot>>) -> Option<Seq<SnapshotView>> {
    match p {
        Some(v) => Some(snapshot_views(v@)),
        None => None,
    }
}

/// The text of a value as bytes.
pub open spec fn text_bytes(s: Seq<char>) -> Seq<u8> {
    vstd::utf8::encode_utf8(s)
}

pub(crate) fn to_bytes(s: &String) -> (r: Vec<u8>)
    ensures
        r@ == text_bytes(s@),
{
    let b = s.as_str().as_bytes();
    let r = bytes_between(b, 0, b.len());
    assert(r@ =~= b@);
    r
}

// ----- ending a stream -----

/// Tells that a loop ended the answer.
pub open spec fn halt_text(attempts: nat, period: nat, what: Seq<char>) -> Seq<char> {
    "\n\n[loop detected after "@ + decimal(attempts) + " attempt(s) (period="@ + decimal(period)
        + "), "@ + what + "]\n"@
}

fn halt_message(attempts: usize, period: usize, what: &str) -> (r: String)
    ensures
        r@ == halt_text(attempts as nat, period as nat, what@),
{
    let a = decimal_text(attempts as u64);
    let p = decimal_text(period as u64);
    "\n\n[loop detected after ".to_owned().concat(a.as_str()).concat(
        " attempt(s) (period=",
    ).concat(p.as_str()).concat("), ").concat(what).concat("]\n")
}

/// The last event of an answer that a loop ended.
pub open spec fn halt_chunk(kind: EndpointKind, attempts: nat, period: nat) -> JsonView {
    match kind {
        EndpointKind::Chat => JsonView::Object(
            seq![
                (
                    "choices"@,
                    JsonView::Array(
                        seq![
                            JsonView::Object(
                                seq![
                                    ("index"@, JsonView::Number("0"@)),
                                    (
                                        "delta"@,
                                        JsonView::Object(
                                            seq![
                                                (
                                                    "content"@,
                                                    JsonView::Str(
                                                        halt_text(
                                                            attempts,
                                                            period,
                                                            "generation halted"@,
                                                        ),
                                                    ),
                                                ),
                                            ],
                                        ),
                                    ),
                                    ("finish_reason"@, JsonView::Str("stop"@)),
                                ],
                            ),
                        ],
                    ),
                ),
            ],
        ),
        EndpointKind::Completion => JsonView::Object(
            seq![
                (
                    "choices"@,
                    JsonView::Array(
                        seq![
                            JsonView::Object(
                                seq![
                                    ("index"@, JsonView::Number("0"@)),
                                    (
                                        "text"@,
                                        JsonView::Str(halt_text(attempts, period, "halted"@)),
                                    ),
                                    ("finish_reason"@, JsonView::Str("stop"@)),
                                ],
                            ),
                        ],
                    ),
                ),
            ],
        ),
        EndpointKind::LlamaCpp => JsonView::Object(
            seq![
                ("content"@, JsonView::Str(halt_text(attempts, period, "halted"@))),
                ("stop"@, JsonView::Bool(true)),
                ("stopped_eos"@, JsonView::Bool(false)),
                ("stopped_word"@, JsonView::Bool(false)),
            ],
        ),
    }
}

/// The bytes that end an answer in which there is a loop.
pub open spec fn halt_bytes(kind: EndpointKind, attempts: nat, period: nat) -> Seq<u8> {
    let data = "data: "@ + json_text(halt_chunk(kind, attempts, period)) + "\n\n"@;
    match kind {
        EndpointKind::LlamaCpp => text_bytes(data),
        _ => text_bytes(data + "data: [DONE]\n\n"@),
    }
}

/// The last event of an answer that a loop ended.
pub fn halt_document(kind: EndpointKind, attempts: usize, period: usize) -> (r: Json)
    ensures
        r@ == halt_chunk(kind, attempts as nat, period as nat),
{
    match kind {
        EndpointKind::Chat => {
            let m = halt_message(attempts, period, "generation halted");
            let delta = json_single("content", Json::Str(m));
            let choice = json_triple(
                "index",
                Json::Number("0".to_owned()),
                "delta",
                delta,
                "finish_reason",
                json_str("stop"),
            );
            json_single("choices", json_list(choice))
        },
        EndpointKind::Completion => {
            let m = halt_message(attempts, period, "halted");
            let choice = json_triple(
                "index",
                Json::Number("0".to_owned()),
                "text",
                Json::Str(m),
                "finish_reason",
                json_str("stop"),
            );
            json_single("choices", json_list(choice))
        },
        EndpointKind::LlamaCpp => {
            let m = halt_message(attempts, period, "halted");
            let ghost mv = m@;
            let v = with_entry(
                with_entry(
                    with_entry(
                        with_entry(Vec::new(), "content", Json::Str(m)),
                        "stop",
                        Json::Bool(true),
                    ),
                    "stopped_eos",
                    Json::Bool(false),
                ),
                "stopped_word",
                Json::Bool(false),
            );
            assert(entry_views(v@) =~= seq![
                ("content"@, JsonView::Str(mv)),
                ("stop"@, JsonView::Bool(true)),
                ("stopped_eos"@, JsonView::Bool(false)),
                ("stopped_word"@, JsonView::Bool(false)),
            ]);
            Json::Object(v)
        },
    }
}

impl EndpointKind {
    /// The kind of answer that a path asks for.
    pub open spec fn of_path(path: Seq<char>) -> Option<EndpointKind> {
        if has_suffix(path, "/chat/completions"@) {
            Some(EndpointKind::Chat)
        } else if has_suffix(path, "/completions"@) {
            Some(EndpointKind::Completion)
        } else if has_suffix(path, "/completion"@) {
            Some(EndpointKind::LlamaCpp)
        } else {
            None
        }
    }

    /// The kind of answer that a path asks for.
    pub fn detect(path: &str) -> (r: Option<EndpointKind>)
        ensures
            r == Self::of_path(path@),
    {
        if ends_with_text(path, "/chat/completions") {
            Some(EndpointKind::Chat)
        } else if ends_with_text(path, "/completions") {
            Some(EndpointKind::Completion)
        } else if ends_with_text(path, "/completion") {
            Some(EndpointKind::LlamaCpp)
        } else {
            None
        }
    }

    /// What the kind is called.
    pub fn name(&self) -> (r: &'static str)
        ensures
            r@ == (match self {
                EndpointKind::Chat => "chat/completions"@,
                EndpointKind::Completion => "completions"@,
                EndpointKind::LlamaCpp => "llama.cpp /completion"@,
            }),
    {
        match self {
            EndpointKind::Chat => "chat/completions",
            EndpointKind::Completion => "completions",
            EndpointKind::LlamaCpp => "llama.cpp /completion",
        }
    }

    /// What an event says.
    pub open spec fn says(&self, payload: Seq<u8>) -> Seq<DeltaView> {
        match self {
            EndpointKind::Chat => match chat_event(payload) {
                Some(c) => chat_says(c, c.len() as int),
                None => Seq::empty(),
            },
            EndpointKind::Completion => match text_event(payload) {
                Some(c) => text_says(c, c.len() as int),
                None => Seq::empty(),
            },
            EndpointKind::LlamaCpp => match native_event(payload) {
                Some(e) => native_says(e.0, e.1),
                None => Seq::empty(),
            },
        }
    }

    /// What an event says.
    pub fn parse_chunk(&self, payload: &[u8]) -> (r: Vec<ChoiceDelta>)
        ensures
            delta_views(r@) == self.says(payload@),
    {
        match self {
            EndpointKind::Chat => sse::extract_chat(payload),
            EndpointKind::Completion => sse::extract_completion(payload),
            EndpointKind::LlamaCpp => sse::extract_llama_cpp(payload),
        }
    }

    /// Whether an event says that the answer is complete: with the bytes
    /// `[DONE]`, or in llama.cpp's own stream with its stop mark.
    pub fn is_done(&self, payload: &[u8]) -> (r: bool)
        ensures
            r == (trimmed(payload@) == done_mark() || (*self is LlamaCpp && (native_event(payload@)
                matches Some(e) && e.1))),
    {
        if sse::is_done(payload) {
            return true;
        }
        match self {
            EndpointKind::LlamaCpp => sse::stops(payload),
            _ => false,
        }
    }

    /// The bytes that end an answer in which there is a loop.
    pub fn format_halt_delta(&self, attempts: usize, period: usize) -> (r: Vec<u8>)
        ensures
            r@ == halt_bytes(*self, attempts as nat, period as nat),
    {
        let doc = halt_document(*self, attempts, period);
        let text = render_json(&doc);
        let data = "data: ".to_owned().concat(text.as_str()).concat("\n\n");
        match self {
            EndpointKind::LlamaCpp => to_bytes(&data),
            _ => {
                let all = data.concat("data: [DONE]\n\n");
                to_bytes(&all)
            },
        }
    }

    /// The request with a corrective message.
    pub open spec fn corrected(
        &self,
        doc: JsonView,
        attempt: nat,
        partial: Option<Seq<SnapshotView>>,
    ) -> JsonView {
        match self {
            EndpointKind::Chat => chat_corrected(doc, attempt, partial),
            _ => completion_corrected(doc, attempt, partial),
        }
    }

    /// Puts a corrective message into the request, after what the model has
    /// said so far.
    pub fn inject_corrective(
        &self,
        doc: Json,
        attempt: usize,
        partial: Option<&Vec<ChoiceSnapshot>>,
    ) -> (r: Json)
        ensures
            r@ == self.corrected(doc@, attempt as nat, partial_view(partial)),
    {
        match self {
            EndpointKind::Chat => chat_inject_corrective(doc, attempt, partial),
            _ => completion_inject_corrective(doc, attempt, partial),
        }
    }
}

// ----- talking out of a loop -----

/// What the model is told after so many attempts.
pub open spec fn corrective(attempt: nat) -> Seq<char> {
    if attempt == 0 {
        "[INTERRUPT — automated proxy notice] The previous attempt entered a thinking/output loop. Step back, identify the real next concrete action, and proceed without restating analysis you've already done."@
    } else if attempt == 1 {
        "[INTERRUPT — automated proxy notice] Two attempts have looped. Skip all deliberation and produce the next tool call or concrete output directly."@
    } else {
        "[INTERRUPT — automated proxy notice] Final attempt — emit only the next required action, no thinking, no commentary."@
    }
}

/// What the model is told after so many attempts.
pub fn corrective_text(attempt: usize) -> (r: &'static str)
    ensures
        r@ == corrective(attempt as nat),
{
    if attempt == 0 {
        "[INTERRUPT — automated proxy notice] The previous attempt entered a thinking/output loop. Step back, identify the real next concrete action, and proceed without restating analysis you've already done."
    } else if attempt == 1 {
        "[INTERRUPT — automated proxy notice] Two attempts have looped. Skip all deliberation and produce the next tool call or concrete output directly."
    } else {
        "[INTERRUPT — automated proxy notice] Final attempt — emit only the next required action, no thinking, no commentary."
    }
}

/// Whether a choice has said anything.
pub open spec fn has_spoken(s: SnapshotView) -> bool {
    s.content.len() > 0 || s.reasoning_content.len() > 0
}

/// Where the choice of the lowest index stands that has said anything, among
/// the first `n`.
pub open spec fn first_spoken(s: Seq<SnapshotView>, n: int) -> Option<int>
    decreases n,
{
    if n <= 0 {
        None
    } else {
        let front = first_spoken(s, n - 1);
        if !has_spoken(s[n - 1]) {
            front
        } else {
            match front {
                Some(j) => if s[n - 1].index < s[j].index {
                    Some(n - 1)
                } else {
                    front
                },
                None => Some(n - 1),
            }
        }
    }
}

/// The choice to be replayed.
pub open spec fn replayed(partial: Option<Seq<SnapshotView>>) -> Option<SnapshotView> {
    match partial {
        Some(s) => match first_spoken(s, s.len() as int) {
            Some(i) => Some(s[i]),
            None => None,
        },
        None => None,
    }
}

fn pick_partial<'a>(partial: Option<&'a Vec<ChoiceSnapshot>>) -> (r: Option<&'a ChoiceSnapshot>)
    ensures
        match r {
            Some(c) => replayed(partial_view(partial)) == Some(c@) && has_spoken(c@),
            None => replayed(partial_view(partial)) is None,
        },
{
    let list = match partial {
        Some(v) => v,
        None => {
            return None;
        },
    };
    let ghost s = snapshot_views(list@);
    let mut best: Option<usize> = None;
    let mut i: usize = 0;
    while i < list.len()
        invariant
            i <= list@.len(),
            s == snapshot_views(list@),
            match best {
                Some(j) => j < i && first_spoken(s, i as int) == Some(j as int) && has_spoken(
                    s[j as int],
                ),
                None => first_spoken(s, i as int) is None,
            },
        decreases list@.len() - i,
    {
        assert(s[i as int] == list@[i as int]@);
        let spoken = !list[i].content.as_str().is_empty()
            || !list[i].reasoning_content.as_str().is_empty();
        if spoken {
            let better = match best {
                Some(j) => {
                    assert(s[j as int] == list@[j as int]@);
                    list[i].index < list[j].index
                },
                None => true,
            };
            if better {
                best = Some(i);
            }
        }
        i += 1;
    }
    match best {
        Some(j) => {
            assert(s[j as int] == list@[j as int]@);
            Some(&list[j])
        },
        None => None,
    }
}

/// What a choice has said, with its reasoning marked.
pub open spec fn assistant_body(s: SnapshotView) -> Seq<char> {
    if s.reasoning_content.len() > 0 {
        "<think>"@ + s.reasoning_content + "</think>"@ + s.content
    } else {
        s.content
    }
}

fn build_assistant_body(s: &ChoiceSnapshot) -> (r: String)
    ensures
        r@ == assistant_body(s@),
{
    if s.reasoning_content.as_str().is_empty() {
        s.content.clone()
    } else {
        "<think>".to_owned().concat(s.reasoning_content.as_str()).concat("</think>").concat(
            s.content.as_str(),
        )
    }
}

/// A chat message.
pub open spec fn message(role: Seq<char>, content: Seq<char>) -> JsonView {
    JsonView::Object(
        seq![("role"@, JsonView::Str(role)), ("content"@, JsonView::Str(content))],
    )
}

/// A chat message.
pub(crate) fn chat_message(role: &str, content: &str) -> (r: Json)
    ensures
        r@ == message(role@, content@),
{
    json_pair("role", json_str(role), "content", json_str(content))
}

/// The messages that talk a chat out of a loop.
pub open spec fn chat_extra(attempt: nat, partial: Option<Seq<SnapshotView>>) -> Seq<JsonView> {
    let told = message("user"@, corrective(attempt));
    match replayed(partial) {
        Some(s) => if assistant_body(s).len() > 0 {
            seq![message("assistant"@, assistant_body(s)), told]
        } else {
            seq![told]
        },
        None => seq![told],
    }
}

/// A chat request with a corrective message at its end, after what the model
/// has said so far.
pub open spec fn chat_corrected(
    doc: JsonView,
    attempt: nat,
    partial: Option<Seq<SnapshotView>>,
) -> JsonView {
    with_items(doc, "messages"@, chat_extra(attempt, partial))
}

fn chat_inject_corrective(doc: Json, attempt: usize, partial: Option<&Vec<ChoiceSnapshot>>) -> (r:
    Json)
    ensures
        r@ == chat_corrected(doc@, attempt as nat, partial_view(partial)),
{
    let mut extra: Vec<Json> = Vec::new();
    let told = chat_message("user", corrective_text(attempt));
    let ghost tv = told@;
    match pick_partial(partial) {
        Some(s) => {
            let body = build_assistant_body(s);
            if !body.as_str().is_empty() {
                let m = chat_message("assistant", body.as_str());
                proof {
                    lemma_items_push(extra@, m);
                }
                extra.push(m);
            }
        },
        None => {},
    }
    proof {
        lemma_items_push(extra@, told);
    }
    extra.push(told);
    assert(item_views(extra@) =~= chat_extra(attempt as nat, partial_view(partial)));
    append_items(doc, "messages", extra)
}

/// What is put behind a prompt.
pub open spec fn completion_suffix(attempt: nat, partial: Option<Seq<SnapshotView>>) -> Seq<char> {
    (match replayed(partial) {
        Some(s) => s.content,
        None => Seq::empty(),
    }) + "\n\n["@ + corrective(attempt) + "]\n\n"@
}

fn build_completion_suffix(attempt: usize, partial: Option<&Vec<ChoiceSnapshot>>) -> (r: String)
    ensures
        r@ == completion_suffix(attempt as nat, partial_view(partial)),
{
    let said = match pick_partial(partial) {
        Some(s) => s.content.clone(),
        None => {
            let s = String::new();
            assert(s@ =~= Seq::empty());
            s
        },
    };
    said.concat("\n\n[").concat(corrective_text(attempt)).concat("]\n\n")
}

/// A prompt with something put behind it; anything else is left alone.
pub open spec fn longer_prompt(v: JsonView, suffix: Seq<char>) -> JsonView {
    match v {
        JsonView::Str(s) => JsonView::Str(s + suffix),
        _ => v,
    }
}

/// The prompts with something put behind each.
pub open spec fn longer_prompts(s: Seq<JsonView>, suffix: Seq<char>) -> Seq<JsonView> {
    s.map_values(|v: JsonView| longer_prompt(v, suffix))
}

/// A completion request with a corrective message behind its prompt.
pub open spec fn completion_corrected(
    doc: JsonView,
    attempt: nat,
    partial: Option<Seq<SnapshotView>>,
) -> JsonView {
    let suffix = completion_suffix(attempt, partial);
    match doc.get("prompt"@) {
        Some(JsonView::Str(s)) => doc.with("prompt"@, JsonView::Str(s + suffix)),
        Some(JsonView::Array(items)) => doc.with(
            "prompt"@,
            JsonView::Array(longer_prompts(items, suffix)),
        ),
        _ => doc,
    }
}

fn lengthen_prompts(items: Vec<Json>, suffix: &str) -> (r: Vec<Json>)
    ensures
        item_views(r@) == longer_prompts(item_views(items@), suffix@),
{
    let ghost all = items@;
    let mut r: Vec<Json> = Vec::new();
    proof {
        lemma_item_views(all);
        assert(item_views(r@) =~= longer_prompts(item_views(all).take(0), suffix@));
    }
    for x in it: items
        invariant
            it.seq() == all,
            item_views(all).len() == all.len(),
            forall|i: int| 0 <= i < all.len() ==> #[trigger] item_views(all)[i] == all[i]@,
            item_views(r@) == longer_prompts(item_views(all).take(it.index() as int), suffix@),
    {
        let ghost at = it.index() as int;
        let ghost xv = x@;
        assert(item_views(all)[at] == xv);
        let y = match x {
            Json::Str(s) => Json::Str(s.concat(suffix)),
            other => other,
        };
        proof {
            assert(y@ == longer_prompt(xv, suffix@));
            lemma_items_push(r@, y);
            assert(longer_prompts(item_views(all).take(at + 1), suffix@) =~= longer_prompts(
                item_views(all).take(at),
                suffix@,
            ).push(longer_prompt(xv, suffix@)));
        }
        r.push(y);
    }
    assert(item_views(all).take(all.len() as int) =~= item_views(all));
    r
}

fn completion_inject_corrective(
    doc: Json,
    attempt: usize,
    partial: Option<&Vec<ChoiceSnapshot>>,
) -> (r: Json)
    ensures
        r@ == completion_corrected(doc@, attempt as nat, partial_view(partial)),
{
    let suffix = build_completion_suffix(attempt, partial);
    match doc {
        Json::Object(entries) => {
            let mut entries = entries;
            let ghost s = entries@;
            match find_entry(&entries, "prompt") {
                Some(i) => {
                    proof {
                        lemma_entry_views(s);
                        lemma_entry_found(entry_views(s), "prompt"@, 0);
                        assert(entry_views(s)[i as int] == (s[i as int].0@, s[i as int].1@));
                    }
                    let (name, value) = entries.remove(i);
                    let longer = match value {
                        Json::Str(p) => Json::Str(p.concat(suffix.as_str())),
                        Json::Array(items) => Json::Array(
                            lengthen_prompts(items, suffix.as_str()),
                        ),
                        other => other,
                    };
                    let x = (name, longer);
                    let ghost xv = x;
                    entries.insert(i, x);
                    proof {
                        assert(entries@ =~= s.update(i as int, xv));
                        lemma_entries_update(s, i as int, xv);
                        assert(entry_views(s).update(i as int, (s[i as int].0@, s[i as int].1@))
                            =~= entry_views(s));
                    }
                    Json::Object(entries)
                },
                None => Json::Object(entries),
            }
        },
        other => other,
    }
}

// ----- laws -----

/// Talking a chat out of a loop keeps every message that there was, and ends
/// with what the model is told.
pub proof fn law_chat_correction_keeps_messages(
    doc: JsonView,
    attempt: nat,
    partial: Option<Seq<SnapshotView>>,
)
    requires
        doc.items_at("messages"@) is Some,
    ensures
        ({
            let before = doc.items_at("messages"@)->0;
            let after = chat_corrected(doc, attempt, partial).items_at("messages"@);
            &&& after is Some
            &&& after->0.len() > before.len()
            &&& after->0.take(before.len() as int) == before
            &&& after->0.last() == message("user"@, corrective(attempt))
        }),
{
    let key = "messages"@;
    let before = doc.items_at(key)->0;
    let extra = chat_extra(attempt, partial);
    let s = doc->Object_0;
    lemma_entry_found(s, key, 0);
    let i = JsonView::entry(s, key, 0)->0;
    let v = JsonView::Array(before + extra);
    let t = s.update(i, (key, v));
    lemma_entry_kept(s, key, v, i, 0);
    assert(chat_corrected(doc, attempt, partial) == JsonView::Object(t));
    assert((before + extra).take(before.len() as int) =~= before);
    assert(extra.last() == message("user"@, corrective(attempt)));
    assert((before + extra).last() == extra.last());
}

proof fn lemma_entry_kept(
    s: Seq<(Seq<char>, JsonView)>,
    key: Seq<char>,
    v: JsonView,
    i: int,
    from: int,
)
    requires
        0 <= from,
        JsonView::entry(s, key, from) == Some(i),
    ensures
        JsonView::entry(s.update(i, (key, v)), key, from) == Some(i),
    decreases s.len() - from,
{
    lemma_entry_found(s, key, from);
    if from < i {
        lemma_entry_kept(s, key, v, i, from + 1);
    }
}

} // verus!
