//! Tool calls that repeat from turn to turn.
use vstd::prelude::*;
use vstd::string::*;

use crate::api::json::{
    append_items, item_views, json_document, json_text, lemma_item_views, lemma_items_push,
    parse_json, render_json, with_items, Json, JsonView,
};
use crate::api::loop_guard::endpoint::{chat_message, message, text_bytes, to_bytes};
use crate::config::settings::ToolLoopSettings;
use crate::text::{
    chars_of, decimal, decimal_text, ends_with_text, has_suffix, join, join_texts, same_text,
    string_of_range, texts, trim, trim_text,
};

verus! {

broadcast use vstd::string::group_string_axioms;

// ----- tool events -----

/// A tool call with what came of it.
#[derive(Debug)]
pub struct ToolEvent {
    pub name: String,
    pub arguments: String,
    pub output: String,
}

/// The mathematical content of a `ToolEvent`.
pub struct ToolEventView {
    pub name: Seq<char>,
    pub arguments: Seq<char>,
    pub output: Seq<char>,
}

impl View for ToolEvent {
    type V = ToolEventView;

    open spec fn view(&self) -> ToolEventView {
        ToolEventView {
            name: self.name@,
            arguments: self.arguments@,
            output: self.output@,
        }
    }
}

impl Clone for ToolEvent {
    fn clone(&self) -> (r: Self)
        ensures
            r == *self,
    {
        ToolEvent {
            name: self.name.clone(),
            arguments: self.arguments.clone(),
            output: self.output.clone(),
        }
    }
}

impl ToolEvent {
    /// Whether two events are the same.
    pub fn same(&self, other: &ToolEvent) -> (r: bool)
        ensures
            r == (self@ == other@),
    {
        self.name == other.name && self.arguments == other.arguments && self.output
            == other.output
    }
}

/// The events as values.
pub open spec fn tool_views(s: Seq<ToolEvent>) -> Seq<ToolEventView> {
    s.map_values(|e: ToolEvent| e@)
}

/// A tool call. Calls of the older kind have no id.
#[derive(Debug)]
pub struct ToolCall {
    pub id: String,
    pub name: String,
    pub arguments: String,
}

/// The mathematical content of a `ToolCall`.
pub struct ToolCallView {
    pub id: Seq<char>,
    pub name: Seq<char>,
    pub arguments: Seq<char>,
}

impl View for ToolCall {
    type V = ToolCallView;

    open spec fn view(&self) -> ToolCallView {
        ToolCallView { id: self.id@, name: self.name@, arguments: self.arguments@ }
    }
}

/// The calls as values.
pub open spec fn call_views(s: Seq<ToolCall>) -> Seq<ToolCallView> {
    s.map_values(|c: ToolCall| c@)
}

/// Arguments in a form in which equal ones look alike: JSON is written anew,
/// any other text is trimmed.
pub open spec fn canonical_args(v: Option<JsonView>) -> Seq<char> {
    match v {
        None => Seq::empty(),
        Some(JsonView::Str(s)) => match json_document(text_bytes(s)) {
            Some(d) => json_text(d),
            None => trim(s),
        },
        Some(other) => json_text(other),
    }
}

fn canonical_arguments(v: Option<&Json>) -> (r: String)
    ensures
        r@ == canonical_args(
            match v {
                Some(j) => Some(j@),
                None => None,
            },
        ),
{
    match v {
        None => {
            let s = String::new();
            assert(s@ =~= Seq::empty());
            s
        },
        Some(j) => match j {
            Json::Str(s) => {
                let b = to_bytes(s);
                match parse_json(&b) {
                    Some(d) => render_json(&d),
                    None => trim_text(s.as_str()),
                }
            },
            other => render_json(other),
        },
    }
}

/// An output in a form in which equal ones look alike.
pub open spec fn canonical_output(v: Option<JsonView>) -> Seq<char> {
    match v {
        None => Seq::empty(),
        Some(JsonView::Str(s)) => trim(s),
        Some(other) => json_text(other),
    }
}

fn canonical_content(v: Option<&Json>) -> (r: String)
    ensures
        r@ == canonical_output(
            match v {
                Some(j) => Some(j@),
                None => None,
            },
        ),
{
    match v {
        None => {
            let s = String::new();
            assert(s@ =~= Seq::empty());
            s
        },
        Some(j) => match j {
            Json::Str(s) => trim_text(s.as_str()),
            other => render_json(other),
        },
    }
}

/// The call that an item of `tool_calls` makes, if it makes one.
pub open spec fn tool_call(item: JsonView) -> Option<ToolCallView> {
    match (item.text_at("id"@), item.get("function"@)) {
        (Some(id), Some(f)) => match f.text_at("name"@) {
            Some(name) => Some(
                ToolCallView { id, name, arguments: canonical_args(f.get("arguments"@)) },
            ),
            None => None,
        },
        _ => None,
    }
}

/// The calls that the first `n` items make.
pub open spec fn tool_calls(items: Seq<JsonView>, n: int) -> Seq<ToolCallView>
    decreases n,
{
    if n <= 0 {
        Seq::empty()
    } else {
        match tool_call(items[n - 1]) {
            Some(c) => tool_calls(items, n - 1).push(c),
            None => tool_calls(items, n - 1),
        }
    }
}

/// The tool calls that a message makes.
pub open spec fn calls_of(msg: JsonView) -> Seq<ToolCallView> {
    match msg.items_at("tool_calls"@) {
        Some(items) => tool_calls(items, items.len() as int),
        None => Seq::empty(),
    }
}

fn read_tool_call(item: &Json) -> (r: Option<ToolCall>)
    ensures
        match r {
            Some(c) => tool_call(item@) == Some(c@),
            None => tool_call(item@) is None,
        },
{
    let id = match item.text_at("id") {
        Some(id) => id.clone(),
        None => {
            return None;
        },
    };
    match item.get("function") {
        Some(f) => match f.text_at("name") {
            Some(name) => {
                let arguments = canonical_arguments(f.get("arguments"));
                Some(ToolCall { id, name: name.clone(), arguments })
            },
            None => None,
        },
        None => None,
    }
}

fn assistant_tool_calls(msg: &Json) -> (r: Vec<ToolCall>)
    ensures
        call_views(r@) == calls_of(msg@),
{
    let mut r: Vec<ToolCall> = Vec::new();
    assert(call_views(r@) =~= Seq::empty());
    match msg.items_at("tool_calls") {
        Some(items) => {
            let ghost all = item_views(items@);
            let mut i: usize = 0;
            while i < items.len()
                invariant
                    i <= items@.len(),
                    all == item_views(items@),
                    call_views(r@) == tool_calls(all, i as int),
                decreases items@.len() - i,
            {
                proof {
                    lemma_item_views(items@);
                    assert(all[i as int] == items@[i as int]@);
                }
                match read_tool_call(&items[i]) {
                    Some(c) => {
                        let ghost before = r@;
                        let ghost cv = c@;
                        r.push(c);
                        assert(call_views(r@) =~= call_views(before).push(cv));
                    },
                    None => {},
                }
                i += 1;
            }
            assert(all.len() == items@.len());
        },
        None => {},
    }
    r
}

/// The call of the older kind that a message makes, if it makes one.
pub open spec fn function_call_of(msg: JsonView) -> Option<ToolCallView> {
    match msg.get("function_call"@) {
        Some(f) => match f.text_at("name"@) {
            Some(name) => Some(
                ToolCallView {
                    id: Seq::empty(),
                    name,
                    arguments: canonical_args(f.get("arguments"@)),
                },
            ),
            None => None,
        },
        None => None,
    }
}

fn assistant_function_call(msg: &Json) -> (r: Option<ToolCall>)
    ensures
        match r {
            Some(c) => function_call_of(msg@) == Some(c@),
            None => function_call_of(msg@) is None,
        },
{
    match msg.get("function_call") {
        Some(f) => match f.text_at("name") {
            Some(name) => {
                let arguments = canonical_arguments(f.get("arguments"));
                let id = String::new();
                assert(id@ =~= Seq::empty());
                Some(ToolCall { id, name: name.clone(), arguments })
            },
            None => None,
        },
        None => None,
    }
}

/// The last of the first `n` calls with that id.
pub open spec fn call_with_id(calls: Seq<ToolCallView>, id: Seq<char>, n: int) -> Option<
    ToolCallView,
>
    decreases n,
{
    if n <= 0 {
        None
    } else if calls[n - 1].id == id {
        Some(calls[n - 1])
    } else {
        call_with_id(calls, id, n - 1)
    }
}

fn find_call(calls: &Vec<ToolCall>, id: &str) -> (r: Option<usize>)
    ensures
        match r {
            Some(i) => i < calls@.len() && call_with_id(
                call_views(calls@),
                id@,
                calls@.len() as int,
            ) == Some(calls@[i as int]@),
            None => call_with_id(call_views(calls@), id@, calls@.len() as int) is None,
        },
{
    let ghost all = call_views(calls@);
    let mut i: usize = calls.len();
    while i > 0
        invariant
            i <= calls@.len(),
            all == call_views(calls@),
            call_with_id(all, id@, calls@.len() as int) == call_with_id(all, id@, i as int),
        decreases i,
    {
        assert(all[i - 1] == calls@[i - 1]@);
        if same_text(calls[i - 1].id.as_str(), id) {
            return Some(i - 1);
        }
        i -= 1;
    }
    None
}

/// What came of a call.
pub open spec fn event_of(call: ToolCallView, msg: JsonView) -> ToolEventView {
    ToolEventView {
        name: call.name,
        arguments: call.arguments,
        output: canonical_output(msg.get("content"@)),
    }
}

/// What came of the calls, from the answers that follow directly from message
/// `i` on.
pub open spec fn tool_results(msgs: Seq<JsonView>, i: int, calls: Seq<ToolCallView>) -> Seq<
    ToolEventView,
>
    decreases msgs.len() - i,
{
    if i < 0 || i >= msgs.len() {
        Seq::empty()
    } else {
        let rest = tool_results(msgs, i + 1, calls);
        let role = msgs[i].text_at("role"@);
        if role == Some("tool"@) {
            match msgs[i].text_at("tool_call_id"@) {
                Some(id) => match call_with_id(calls, id, calls.len() as int) {
                    Some(c) => seq![event_of(c, msgs[i])] + rest,
                    None => rest,
                },
                None => rest,
            }
        } else if role == Some("function"@) {
            rest
        } else {
            Seq::empty()
        }
    }
}

/// What came of a call of the older kind, from the answers that follow
/// directly from message `i` on.
pub open spec fn function_result(msgs: Seq<JsonView>, i: int, call: ToolCallView) -> Seq<
    ToolEventView,
>
    decreases msgs.len() - i,
{
    if i < 0 || i >= msgs.len() {
        Seq::empty()
    } else {
        let role = msgs[i].text_at("role"@);
        if role == Some("function"@) {
            if msgs[i].text_at("name"@) == Some(call.name) {
                seq![event_of(call, msgs[i])]
            } else {
                function_result(msgs, i + 1, call)
            }
        } else if role == Some("tool"@) {
            function_result(msgs, i + 1, call)
        } else {
            Seq::empty()
        }
    }
}

fn role_is(msg: &Json, role: &str) -> (r: bool)
    ensures
        r == (msg@.text_at("role"@) == Some(role@)),
{
    match msg.text_at("role") {
        Some(s) => same_text(s.as_str(), role),
        None => false,
    }
}

/// The texts `tool` and `function` differ.
pub proof fn lemma_roles()
    ensures
        "tool"@ != "function"@,
{
    reveal_strlit("tool");
    reveal_strlit("function");
    assert("tool"@.len() != "function"@.len());
}

fn collect_openai_tool_results(
    msgs: &Vec<Json>,
    start: usize,
    calls: &Vec<ToolCall>,
    events: &mut Vec<ToolEvent>,
)
    requires
        start <= msgs@.len(),
    ensures
        tool_views(final(events)@) == tool_views(old(events)@) + tool_results(
            item_views(msgs@),
            start as int,
            call_views(calls@),
        ),
{
    let ghost all = item_views(msgs@);
    let ghost cv = call_views(calls@);
    let ghost want = tool_views(events@) + tool_results(all, start as int, cv);
    proof {
        lemma_item_views(msgs@);
        lemma_roles();
    }
    let mut i: usize = start;
    while i < msgs.len()
        invariant
            start <= i <= msgs@.len(),
            all == item_views(msgs@),
            all.len() == msgs@.len(),
            forall|j: int| 0 <= j < msgs@.len() ==> #[trigger] all[j] == msgs@[j]@,
            cv == call_views(calls@),
            "tool"@ != "function"@,
            want == tool_views(events@) + tool_results(all, i as int, cv),
        ensures
            want == tool_views(events@),
        decreases msgs@.len() - i,
    {
        let ghost before = events@;
        let ghost rest = tool_results(all, i + 1, cv);
        assert(all[i as int] == msgs@[i as int]@);
        if role_is(&msgs[i], "tool") {
            match msgs[i].text_at("tool_call_id") {
                Some(id) => match find_call(calls, id.as_str()) {
                    Some(k) => {
                        let e = ToolEvent {
                            name: calls[k].name.clone(),
                            arguments: calls[k].arguments.clone(),
                            output: canonical_content(msgs[i].get("content")),
                        };
                        let ghost ev = e@;
                        events.push(e);
                        assert(tool_views(events@) =~= tool_views(before).push(ev));
                        assert(tool_views(before) + (seq![ev] + rest) =~= tool_views(events@)
                            + rest);
                    },
                    None => {},
                },
                None => {},
            }
        } else if role_is(&msgs[i], "function") {
        } else {
            assert(tool_results(all, i as int, cv) =~= Seq::empty());
            assert(want =~= tool_views(events@));
            break;
        }
        i += 1;
        if i == msgs.len() {
            assert(tool_results(all, i as int, cv) =~= Seq::empty());
            assert(want =~= tool_views(events@));
        }
    }
    if start == msgs.len() {
        assert(tool_results(all, start as int, cv) =~= Seq::empty());
        assert(want =~= tool_views(events@));
    }
}

fn collect_legacy_function_result(
    msgs: &Vec<Json>,
    start: usize,
    call: &ToolCall,
    events: &mut Vec<ToolEvent>,
)
    requires
        start <= msgs@.len(),
    ensures
        tool_views(final(events)@) == tool_views(old(events)@) + function_result(
            item_views(msgs@),
            start as int,
            call@,
        ),
{
    let ghost all = item_views(msgs@);
    let ghost before = events@;
    proof {
        lemma_item_views(msgs@);
        lemma_roles();
    }
    let mut i: usize = start;
    while i < msgs.len()
        invariant
            start <= i <= msgs@.len(),
            all == item_views(msgs@),
            all.len() == msgs@.len(),
            forall|j: int| 0 <= j < msgs@.len() ==> #[trigger] all[j] == msgs@[j]@,
            "tool"@ != "function"@,
            *events == *old(events),
            before == events@,
            function_result(all, start as int, call@) == function_result(all, i as int, call@),
        decreases msgs@.len() - i,
    {
        assert(all[i as int] == msgs@[i as int]@);
        if role_is(&msgs[i], "function") {
            let named = match msgs[i].text_at("name") {
                Some(n) => same_text(n.as_str(), call.name.as_str()),
                None => false,
            };
            if named {
                let e = ToolEvent {
                    name: call.name.clone(),
                    arguments: call.arguments.clone(),
                    output: canonical_content(msgs[i].get("content")),
                };
                let ghost ev = e@;
                events.push(e);
                assert(tool_views(events@) =~= tool_views(before) + seq![ev]);
                return;
            }
        } else if role_is(&msgs[i], "tool") {
        } else {
            assert(tool_views(events@) =~= tool_views(before) + Seq::empty());
            return;
        }
        i += 1;
    }
    assert(tool_views(events@) =~= tool_views(before) + Seq::empty());
}

/// Whether a message begins a new stretch of the conversation.
pub open spec fn is_boundary(msg: JsonView) -> bool {
    let role = msg.text_at("role"@);
    role == Some("user"@) || role == Some("system"@) || role == Some("developer"@)
}

fn is_conversation_boundary(msg: &Json) -> (r: bool)
    ensures
        r == is_boundary(msg@),
{
    role_is(msg, "user") || role_is(msg, "system") || role_is(msg, "developer")
}

/// Where the last stretch of the conversation begins, at `low` or above.
pub open spec fn stretch_start(msgs: Seq<JsonView>, low: int, n: int) -> int
    decreases n - low,
{
    if n <= low {
        low
    } else if is_boundary(msgs[n - 1]) {
        n
    } else {
        stretch_start(msgs, low, n - 1)
    }
}

/// What the message at position `i` brings.
pub open spec fn events_of(msgs: Seq<JsonView>, i: int) -> Seq<ToolEventView> {
    if msgs[i].text_at("role"@) == Some("assistant"@) {
        tool_results(msgs, i + 1, calls_of(msgs[i])) + (match function_call_of(msgs[i]) {
            Some(c) => function_result(msgs, i + 1, c),
            None => Seq::empty(),
        })
    } else {
        Seq::empty()
    }
}

/// What the messages from `low` up to `n` bring.
pub open spec fn events_between(msgs: Seq<JsonView>, low: int, n: int) -> Seq<ToolEventView>
    decreases n - low,
{
    if n <= low {
        Seq::empty()
    } else {
        events_between(msgs, low, n - 1) + events_of(msgs, n - 1)
    }
}

/// The tool events in the last stretch of the conversation, as far as the last
/// `window` messages reach.
pub open spec fn recent_events(msgs: Seq<JsonView>, window: int) -> Seq<ToolEventView> {
    let low = if msgs.len() > window {
        msgs.len() - window
    } else {
        0
    };
    let start = stretch_start(msgs, low, msgs.len() as int);
    events_between(msgs, start, msgs.len() as int)
}

/// The tool events in the last stretch of the conversation, as far as the last
/// `window_messages` messages reach.
pub fn collect_tool_events(msgs: &Vec<Json>, window_messages: usize) -> (r: Vec<ToolEvent>)
    ensures
        tool_views(r@) == recent_events(item_views(msgs@), window_messages as int),
{
    let ghost all = item_views(msgs@);
    proof {
        lemma_item_views(msgs@);
    }
    let n = msgs.len();
    let low: usize = if n > window_messages {
        n - window_messages
    } else {
        0
    };
    let mut start: usize = n;
    while start > low && !is_conversation_boundary(&msgs[start - 1])
        invariant
            low <= start <= n,
            n == msgs@.len(),
            all == item_views(msgs@),
            all.len() == msgs@.len(),
            forall|j: int| 0 <= j < msgs@.len() ==> #[trigger] all[j] == msgs@[j]@,
            stretch_start(all, low as int, n as int) == stretch_start(
                all,
                low as int,
                start as int,
            ),
        ensures
            start == stretch_start(all, low as int, n as int),
        decreases start,
    {
        assert(all[start - 1] == msgs@[start - 1]@);
        start -= 1;
    }
    let mut events: Vec<ToolEvent> = Vec::new();
    let mut i: usize = start;
    assert(tool_views(events@) =~= Seq::empty());
    while i < n
        invariant
            start <= i <= n,
            n == msgs@.len(),
            all == item_views(msgs@),
            all.len() == msgs@.len(),
            forall|j: int| 0 <= j < msgs@.len() ==> #[trigger] all[j] == msgs@[j]@,
            tool_views(events@) == events_between(all, start as int, i as int),
        decreases n - i,
    {
        let ghost before = tool_views(events@);
        assert(all[i as int] == msgs@[i as int]@);
        if role_is(&msgs[i], "assistant") {
            let calls = assistant_tool_calls(&msgs[i]);
            collect_openai_tool_results(msgs, i + 1, &calls, &mut events);
            let ghost mid = tool_views(events@);
            match assistant_function_call(&msgs[i]) {
                Some(c) => {
                    collect_legacy_function_result(msgs, i + 1, &c, &mut events);
                },
                None => {
                    assert(mid =~= mid + Seq::empty());
                },
            }
        }
        assert(tool_views(events@) =~= before + events_of(all, i as int));
        i += 1;
    }
    events
}

// ----- repetition -----

/// Whether the events end with `r` copies of the same `p` events.
pub open spec fn ends_with_copies(s: Seq<ToolEventView>, p: int, r: int) -> bool {
    &&& r * p <= s.len()
    &&& forall|i: int| s.len() - r * p <= i < s.len() - p ==> #[trigger] s[i] == s[i + p]
}

/// A sequence of events that repeats.
#[derive(Debug)]
pub struct Detection {
    pub period: usize,
    pub repeats: usize,
    pub block: Vec<ToolEvent>,
}

fn check_copies(events: &Vec<ToolEvent>, p: usize, r: usize) -> (b: bool)
    requires
        1 <= p,
        1 <= r,
        r * p <= events@.len(),
    ensures
        b == ends_with_copies(tool_views(events@), p as int, r as int),
{
    let ghost s = tool_views(events@);
    let n = events.len();
    assert(p <= r * p) by (nonlinear_arith)
        requires
            1 <= r,
            1 <= p,
    ;
    let total: usize = r * p;
    let mut i: usize = n - total;
    while i < n - p
        invariant
            n == events@.len(),
            s == tool_views(events@),
            1 <= p <= total <= n,
            total == r * p,
            n - total <= i <= n - p,
            forall|j: int| n - total <= j < i ==> #[trigger] s[j] == s[j + p],
        decreases n - i,
    {
        assert(s[i as int] == events@[i as int]@ && s[i + p] == events@[i + p]@);
        if !events[i].same(&events[i + p]) {
            assert(s[i as int] != s[i + p]);
            return false;
        }
        i += 1;
    }
    true
}

/// Whether `d` is the shortest sequence of events that the list ends with so
/// often, counted as often as it is there.
pub open spec fn is_detection(s: Seq<ToolEventView>, repeats: int, d: Detection) -> bool {
    let p = d.period as int;
    &&& 1 <= p
    &&& ends_with_copies(s, p, repeats)
    &&& forall|q: int| 1 <= q < p ==> !#[trigger] ends_with_copies(s, q, repeats)
    &&& repeats <= d.repeats
    &&& ends_with_copies(s, p, d.repeats as int)
    &&& !ends_with_copies(s, p, d.repeats + 1)
    &&& tool_views(d.block@) == s.subrange(s.len() - p, s.len() as int)
}

fn last_events(events: &Vec<ToolEvent>, p: usize) -> (r: Vec<ToolEvent>)
    requires
        p <= events@.len(),
    ensures
        r@ == events@.subrange(events@.len() - p, events@.len() as int),
{
    let n = events.len();
    let mut r: Vec<ToolEvent> = Vec::new();
    let mut i: usize = n - p;
    assert(r@ =~= events@.subrange(n - p, n - p));
    while i < n
        invariant
            n == events@.len(),
            p <= n,
            n - p <= i <= n,
            r@ == events@.subrange(n - p, i as int),
        decreases n - i,
    {
        r.push(events[i].clone());
        assert(events@.subrange(n - p, i + 1) =~= events@.subrange(n - p, i as int).push(
            events@[i as int],
        ));
        i += 1;
    }
    r
}

/// Finds the shortest sequence of events that the list ends with at least
/// `repeats` times.
pub fn detect_repeated_suffix(events: &Vec<ToolEvent>, repeats: usize) -> (r: Option<Detection>)
    requires
        repeats >= 1,
    ensures
        match r {
            Some(d) => is_detection(tool_views(events@), repeats as int, d),
            None => forall|p: int|
                1 <= p ==> !#[trigger] ends_with_copies(
                    tool_views(events@),
                    p,
                    repeats as int,
                ),
        },
{
    let ghost s = tool_views(events@);
    let n = events.len();
    let most = n / repeats;
    let mut p: usize = 1;
    while p <= most
        invariant
            1 <= p <= most + 1,
            n == events@.len(),
            s == tool_views(events@),
            repeats >= 1,
            most == n / repeats,
            most <= n,
            forall|q: int| 1 <= q < p ==> !#[trigger] ends_with_copies(s, q, repeats as int),
        decreases most + 1 - p,
    {
        assert(repeats * p <= n) by (nonlinear_arith)
            requires
                p <= most,
                most == n / repeats,
                repeats >= 1,
        ;
        if check_copies(events, p, repeats) {
            let bound = n / p;
            assert(repeats <= bound) by (nonlinear_arith)
                requires
                    repeats * p <= n,
                    bound == n / p,
                    p >= 1,
            ;
            assert((bound + 1) * p > n) by (nonlinear_arith)
                requires
                    bound == n / p,
                    p >= 1,
            ;
            let mut count: usize = repeats;
            while count < bound
                invariant
                    1 <= repeats <= count <= bound,
                    bound == n / p,
                    n == events@.len(),
                    s == tool_views(events@),
                    p >= 1,
                    (bound + 1) * p > n,
                    ends_with_copies(s, p as int, count as int),
                ensures
                    !ends_with_copies(s, p as int, count + 1),
                decreases bound - count,
            {
                assert((count + 1) * p <= n) by (nonlinear_arith)
                    requires
                        count + 1 <= bound,
                        bound == n / p,
                        p >= 1,
                ;
                if !check_copies(events, p, count + 1) {
                    break;
                }
                count += 1;
            }
            assert(p <= n) by (nonlinear_arith)
                requires
                    repeats * p <= n,
                    repeats >= 1,
            ;
            let block = last_events(events, p);
            assert(tool_views(block@) =~= s.subrange(s.len() - p, s.len() as int));
            return Some(Detection { period: p, repeats: count, block });
        }
        p += 1;
    }
    assert forall|q: int| 1 <= q implies !#[trigger] ends_with_copies(s, q, repeats as int) by {
        if q > most {
            assert(repeats * q > n) by (nonlinear_arith)
                requires
                    q > most,
                    most == n / repeats,
                    repeats >= 1,
            ;
        }
    }
    None
}

// ----- the corrective message -----

/// How many bytes a character takes.
pub open spec fn char_bytes(c: char) -> nat {
    let u = c as u32;
    if u < 0x80 {
        1
    } else if u < 0x800 {
        2
    } else if u < 0x10000 {
        3
    } else {
        4
    }
}

/// How many bytes a text takes.
pub open spec fn byte_len(s: Seq<char>) -> nat
    decreases s.len(),
{
    if s.len() == 0 {
        0
    } else {
        byte_len(s.drop_last()) + char_bytes(s.last())
    }
}

/// How many characters, from the first on, fit into so many bytes.
pub open spec fn chars_within(s: Seq<char>, max: nat) -> nat
    decreases s.len(),
{
    if byte_len(s) <= max {
        s.len()
    } else {
        chars_within(s.drop_last(), max)
    }
}

/// A text, or as much of it as fits into so many bytes with three dots.
pub open spec fn cut_to(s: Seq<char>, max: nat) -> Seq<char> {
    if byte_len(s) <= max {
        s
    } else {
        s.take(chars_within(s, max) as int) + "..."@
    }
}

fn width(c: char) -> (r: usize)
    ensures
        r == char_bytes(c),
        1 <= r <= 4,
{
    let u: u32 = c as u32;
    if u < 0x80 {
        1
    } else if u < 0x800 {
        2
    } else if u < 0x10000 {
        3
    } else {
        4
    }
}

pub proof fn lemma_byte_len_grows(s: Seq<char>, i: int)
    requires
        0 <= i <= s.len(),
    ensures
        byte_len(s.take(i)) <= byte_len(s),
    decreases s.len() - i,
{
    if i < s.len() {
        lemma_byte_len_grows(s, i + 1);
        assert(s.take(i + 1).drop_last() =~= s.take(i));
    } else {
        assert(s.take(i) =~= s);
    }
}

pub proof fn lemma_chars_within(s: Seq<char>, max: nat, i: int)
    requires
        0 <= i < s.len(),
        byte_len(s.take(i)) <= max,
        byte_len(s.take(i + 1)) > max,
    ensures
        byte_len(s) > max,
        chars_within(s, max) == i,
    decreases s.len(),
{
    lemma_byte_len_grows(s, i + 1);
    let t = s.drop_last();
    if i == s.len() - 1 {
        assert(t =~= s.take(i));
        assert(chars_within(t, max) == i);
    } else {
        assert(t.take(i) =~= s.take(i));
        assert(t.take(i + 1) =~= s.take(i + 1));
        lemma_chars_within(t, max, i);
    }
}

/// A text, or as much of it as fits into so many bytes with three dots.
pub fn truncate(s: &str, max: usize) -> (r: String)
    ensures
        r@ == cut_to(s@, max as nat),
{
    let v = chars_of(s);
    let mut used: usize = 0;
    let mut i: usize = 0;
    assert(s@.take(0) =~= Seq::empty());
    while i < v.len()
        invariant
            i <= v@.len(),
            v@ == s@,
            used <= max,
            used == byte_len(s@.take(i as int)),
        decreases v@.len() - i,
    {
        assert(s@.take(i + 1).drop_last() =~= s@.take(i as int));
        let w = width(v[i]);
        if w > max - used {
            proof {
                lemma_chars_within(s@, max as nat, i as int);
            }
            let head = string_of_range(&v, 0, i);
            assert(head@ =~= s@.take(i as int));
            return head.concat("...");
        }
        used += w;
        i += 1;
    }
    assert(s@.take(i as int) =~= s@);
    s.to_owned()
}

/// The names of the tools.
pub open spec fn tool_names(s: Seq<ToolEventView>) -> Seq<Seq<char>> {
    s.map_values(|e: ToolEventView| e.name)
}

/// The names of the tools with what came of them.
pub open spec fn tool_notes(s: Seq<ToolEventView>) -> Seq<Seq<char>> {
    s.map_values(|e: ToolEventView| e.name + ": "@ + cut_to(e.output, 240))
}

/// The tools in order.
pub fn tool_sequence(events: &Vec<ToolEvent>) -> (r: String)
    ensures
        r@ == join(tool_names(tool_views(events@)), " -> "@),
{
    let ghost s = tool_views(events@);
    let mut names: Vec<String> = Vec::new();
    let mut i: usize = 0;
    while i < events.len()
        invariant
            i <= events@.len(),
            s == tool_views(events@),
            names@.len() == i,
            forall|j: int| 0 <= j < i ==> (#[trigger] names@[j])@ == s[j].name,
        decreases events@.len() - i,
    {
        names.push(events[i].name.clone());
        i += 1;
    }
    assert(texts(names@) =~= tool_names(s));
    join_texts(&names, " -> ")
}

/// What came of the tools, in order.
pub fn tool_outputs(events: &Vec<ToolEvent>) -> (r: String)
    ensures
        r@ == join(tool_notes(tool_views(events@)), " | "@),
{
    let ghost s = tool_views(events@);
    let mut notes: Vec<String> = Vec::new();
    let mut i: usize = 0;
    while i < events.len()
        invariant
            i <= events@.len(),
            s == tool_views(events@),
            notes@.len() == i,
            forall|j: int|
                0 <= j < i ==> (#[trigger] notes@[j])@ == s[j].name + ": "@ + cut_to(
                    s[j].output,
                    240,
                ),
        decreases events@.len() - i,
    {
        let cut = truncate(events[i].output.as_str(), 240);
        notes.push(events[i].name.clone().concat(": ").concat(cut.as_str()));
        i += 1;
    }
    assert(texts(notes@) =~= tool_notes(s));
    join_texts(&notes, " | ")
}

/// What the model is told about a sequence of tools that repeats.
pub open spec fn loop_notice(repeats: nat, block: Seq<ToolEventView>) -> Seq<char> {
    "[INTERRUPT — automated proxy notice] The recent conversation repeated the same tool cycle "@
        + decimal(repeats)
        + " times. Do not repeat this tool sequence with the same arguments: "@ + join(
        tool_names(block),
        " -> "@,
    )
        + ". Use a different concrete action, explain the blocker, or ask for the missing information. Last tool result(s): "@
        + join(tool_notes(block), " | "@)
}

/// What the model is told about a sequence of tools that repeats.
pub fn corrective_text(d: &Detection) -> (r: String)
    ensures
        r@ == loop_notice(d.repeats as nat, tool_views(d.block@)),
{
    let n = decimal_text(d.repeats as u64);
    let tools = tool_sequence(&d.block);
    let outputs = tool_outputs(&d.block);
    "[INTERRUPT — automated proxy notice] The recent conversation repeated the same tool cycle ".to_owned().concat(
    n.as_str()).concat(
        " times. Do not repeat this tool sequence with the same arguments: ",
    ).concat(tools.as_str()).concat(
        ". Use a different concrete action, explain the blocker, or ask for the missing information. Last tool result(s): ",
    ).concat(outputs.as_str())
}

// ----- the guard -----

/// The greater of a number and two.
pub open spec fn two_or_more(n: int) -> int {
    if n >= 2 {
        n
    } else {
        2
    }
}

/// Whether `after` is the request `doc` with a message about its loop, which
/// `d` describes.
pub open spec fn is_guarded(
    doc: JsonView,
    cfg: &ToolLoopSettings,
    d: Detection,
    after: JsonView,
) -> bool {
    let msgs = doc.items_at("messages"@)->0;
    let events = recent_events(msgs, two_or_more(cfg.window_messages as int));
    &&& is_detection(events, two_or_more(cfg.repeats as int), d)
    &&& after == with_items(
        doc,
        "messages"@,
        seq![message("user"@, loop_notice(d.repeats as nat, tool_views(d.block@)))],
    )
}

/// Whether a request has a loop in it.
pub open spec fn has_tool_loop(doc: JsonView, cfg: &ToolLoopSettings) -> bool {
    &&& doc.items_at("messages"@) is Some
    &&& exists|p: int|
        1 <= p && #[trigger] ends_with_copies(
            recent_events(
                doc.items_at("messages"@)->0,
                two_or_more(cfg.window_messages as int),
            ),
            p,
            two_or_more(cfg.repeats as int),
        )
}

/// Puts a message into a chat request that repeats the same tool calls.
/// Nothing comes out for a request without such a loop.
pub fn guard_document(doc: Json, cfg: &ToolLoopSettings) -> (r: Option<Json>)
    ensures
        match r {
            Some(after) => has_tool_loop(doc@, cfg) && exists|d: Detection| #[trigger]
                is_guarded(doc@, cfg, d, after@),
            None => !has_tool_loop(doc@, cfg),
        },
{
    let ghost before = doc@;
    let window: usize = if cfg.window_messages >= 2 {
        cfg.window_messages
    } else {
        2
    };
    let repeats: usize = if cfg.repeats >= 2 {
        cfg.repeats
    } else {
        2
    };
    let events = match doc.items_at("messages") {
        Some(msgs) => collect_tool_events(msgs, window),
        None => {
            return None;
        },
    };
    match detect_repeated_suffix(&events, repeats) {
        Some(d) => {
            let text = corrective_text(&d);
            let m = chat_message("user", text.as_str());
            let ghost mv = m@;
            let mut extra: Vec<Json> = Vec::new();
            proof {
                lemma_items_push(extra@, m);
            }
            extra.push(m);
            assert(item_views(extra@) =~= seq![mv]);
            let after = append_items(doc, "messages", extra);
            assert(is_guarded(before, cfg, d, after@));
            Some(after)
        },
        None => None,
    }
}

/// Whether `r` is the request with a message about its loop, where a chat
/// request repeats the same tool calls.
pub open spec fn guards(
    path: Seq<char>,
    body: Seq<u8>,
    cfg: &ToolLoopSettings,
    r: Option<Vec<u8>>,
) -> bool {
    let looks = has_suffix(path, "/chat/completions"@) && cfg.enabled;
    match json_document(body) {
        Some(doc) => if looks && has_tool_loop(doc, cfg) {
            &&& r matches Some(out)
            &&& exists|d: Detection, after: JsonView| #[trigger]
                is_guarded(doc, cfg, d, after) && out@ == text_bytes(json_text(after))
        } else {
            r is None
        },
        None => r is None,
    }
}

/// Looks at a chat request, and where it repeats the same tool calls, returns
/// it with a message about that.
pub fn guard_request(path: &str, body: &[u8], cfg: &ToolLoopSettings) -> (r: Option<Vec<u8>>)
    ensures
        guards(path@, body@, cfg, r),
{
    if !ends_with_text(path, "/chat/completions") {
        return None;
    }
    if !cfg.enabled {
        return None;
    }
    match parse_json(body) {
        Some(doc) => {
            let ghost before = doc@;
            match guard_document(doc, cfg) {
                Some(after) => {
                    let text = render_json(&after);
                    let out = to_bytes(&text);
                    proof {
                        let d = choose|d: Detection| #[trigger] is_guarded(before, cfg, d, after@);
                        assert(is_guarded(before, cfg, d, after@));
                    }
                    Some(out)
                },
                None => None,
            }
        },
        None => None,
    }
}

// ----- laws -----

/// A message from the user, the system or the developer ends the stretch in
/// which tool calls are counted.
pub proof fn law_a_user_message_resets_the_count(msgs: Seq<JsonView>, window: int)
    requires
        window >= 1,
        msgs.len() > 0,
        is_boundary(msgs.last()),
    ensures
        recent_events(msgs, window).len() == 0,
{
}

/// A request that shows no tool loop, or is not looked at, is passed on byte
/// for byte.
pub proof fn law_other_requests_pass_unchanged(
    path: Seq<char>,
    body: Seq<u8>,
    cfg: &ToolLoopSettings,
    r: Option<Vec<u8>>,
)
    requires
        guards(path, body, cfg, r),
        !cfg.enabled || !has_suffix(path, "/chat/completions"@) || json_document(body) is None
            || !has_tool_loop(json_document(body)->0, cfg),
    ensures
        r is None,
{
}

} // verus!
