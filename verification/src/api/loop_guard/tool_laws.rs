//! What holds of tool calls and their answers, and of choices that loop.
use vstd::prelude::*;
use vstd::string::*;

use crate::api::fields::{array_items, object_fields};
use crate::api::json::{json_text, JsonView};
use crate::api::loop_guard::cross_turn::{
    call_with_id, calls_of, canonical_args, canonical_output, event_of, events_of, function_call_of,
    function_result, lemma_roles, tool_call, tool_calls, tool_results, ToolCallView,
};
use crate::api::loop_guard::detector::{keep_last, tandem};
use crate::api::loop_guard::session::{spoken_bytes, StreamSession};
use crate::api::loop_guard::sse::{
    chat_choice, native_event, record_fields, text_choice, trimmed,
};
use crate::text::trim;

verus! {

broadcast use vstd::string::group_string_axioms;

// ----- calls and answers -----

/// Every call of a message counts that has an id and names a tool, with its
/// arguments.
pub proof fn law_every_call_of_a_message_counts(items: Seq<JsonView>, n: int, i: int)
    requires
        0 <= i < n <= items.len(),
    ensures
        tool_call(items[i]) matches Some(c) ==> tool_calls(items, n).contains(c),
        items[i].text_at("id"@) is Some && items[i].get("function"@) is Some && (items[i].get(
            "function"@,
        )->0).text_at("name"@) is Some ==> tool_call(items[i]) == Some(
            ToolCallView {
                id: items[i].text_at("id"@)->0,
                name: (items[i].get("function"@)->0).text_at("name"@)->0,
                arguments: canonical_args((items[i].get("function"@)->0).get("arguments"@)),
            },
        ),
        forall|m: JsonView| #[trigger]
            m.items_at("tool_calls"@) == Some(items) ==> calls_of(m) == tool_calls(
                items,
                items.len() as int,
            ),
    decreases n,
{
    if let Some(c) = tool_call(items[i]) {
        let front = tool_calls(items, n - 1);
        let all = tool_calls(items, n);
        if i < n - 1 {
            law_every_call_of_a_message_counts(items, n - 1, i);
            let k = choose|k: int| 0 <= k < front.len() && front[k] == c;
            assert(all[k] == c);
        } else {
            assert(all.last() == c);
        }
    }
}

/// An answer belongs to the last call with its id.
pub proof fn law_an_answer_belongs_to_the_last_call_of_its_id(
    calls: Seq<ToolCallView>,
    id: Seq<char>,
    n: int,
    i: int,
)
    requires
        0 <= i < n <= calls.len(),
        calls[i].id == id,
        forall|j: int| i < j < n ==> (#[trigger] calls[j]).id != id,
    ensures
        call_with_id(calls, id, n) == Some(calls[i]),
    decreases n,
{
    if i < n - 1 {
        assert(calls[n - 1].id != id);
        law_an_answer_belongs_to_the_last_call_of_its_id(calls, id, n - 1, i);
    }
}

/// Every answer counts that follows a message without anything but answers
/// between, where its call is known; the first message of another kind ends the
/// answers.
pub proof fn law_every_answer_to_a_call_counts(
    msgs: Seq<JsonView>,
    from: int,
    k: int,
    calls: Seq<ToolCallView>,
    id: Seq<char>,
    c: ToolCallView,
)
    requires
        0 <= from <= k < msgs.len(),
        forall|j: int|
            from <= j < k ==> (#[trigger] msgs[j]).text_at("role"@) == Some("tool"@)
                || msgs[j].text_at("role"@) == Some("function"@),
        msgs[k].text_at("role"@) == Some("tool"@),
        msgs[k].text_at("tool_call_id"@) == Some(id),
        call_with_id(calls, id, calls.len() as int) == Some(c),
    ensures
        tool_results(msgs, from, calls).contains(event_of(c, msgs[k])),
        event_of(c, msgs[k]).name == c.name,
        event_of(c, msgs[k]).arguments == c.arguments,
        event_of(c, msgs[k]).output == canonical_output(msgs[k].get("content"@)),
    decreases k - from,
{
    lemma_roles();
    let x = event_of(c, msgs[k]);
    let all = tool_results(msgs, from, calls);
    if from < k {
        assert(msgs[from].text_at("role"@) == Some("tool"@) || msgs[from].text_at("role"@) == Some(
            "function"@,
        ));
        law_every_answer_to_a_call_counts(msgs, from + 1, k, calls, id, c);
        let rest = tool_results(msgs, from + 1, calls);
        let j = choose|j: int| 0 <= j < rest.len() && rest[j] == x;
        assert(all[all.len() - rest.len() + j] == x);
    } else {
        assert(all[0] == x);
    }
}

/// Where a message that is no answer follows, no further answer counts.
pub proof fn law_answers_end_with_another_message(
    msgs: Seq<JsonView>,
    i: int,
    calls: Seq<ToolCallView>,
    c: ToolCallView,
)
    requires
        0 <= i < msgs.len(),
        msgs[i].text_at("role"@) != Some("tool"@),
        msgs[i].text_at("role"@) != Some("function"@),
    ensures
        tool_results(msgs, i, calls).len() == 0,
        function_result(msgs, i, c).len() == 0,
{
}

/// A call of the older kind is answered by the first function message of its
/// name.
pub proof fn law_a_function_call_is_answered_by_name(
    msgs: Seq<JsonView>,
    from: int,
    k: int,
    c: ToolCallView,
)
    requires
        0 <= from <= k < msgs.len(),
        forall|j: int|
            from <= j < k ==> (#[trigger] msgs[j]).text_at("role"@) == Some("tool"@) || (
            msgs[j].text_at("role"@) == Some("function"@) && msgs[j].text_at("name"@) != Some(
                c.name,
            )),
        msgs[k].text_at("role"@) == Some("function"@),
        msgs[k].text_at("name"@) == Some(c.name),
    ensures
        function_result(msgs, from, c) == seq![event_of(c, msgs[k])],
    decreases k - from,
{
    lemma_roles();
    if from < k {
        assert(msgs[from].text_at("role"@) == Some("tool"@) || msgs[from].text_at("role"@) == Some(
            "function"@,
        ));
        law_a_function_call_is_answered_by_name(msgs, from + 1, k, c);
    }
}

/// Outputs tell answers apart: two texts are the same output exactly where they
/// are the same but for white space at their ends, two other values exactly
/// where the same JSON is written for them; nothing is the empty output.
pub proof fn law_outputs_tell_answers_apart(s: Seq<char>, t: Seq<char>, v: JsonView, w: JsonView)
    ensures
        canonical_output(Some(JsonView::Str(s))) == canonical_output(Some(JsonView::Str(t)))
            <==> trim(s) == trim(t),
        trim(s) == s ==> canonical_output(Some(JsonView::Str(s))) == s,
        !(v is Str) && !(w is Str) ==> (canonical_output(Some(v)) == canonical_output(Some(w))
            <==> json_text(v) == json_text(w)),
        !(v is Str) ==> canonical_output(Some(v)) == json_text(v),
        canonical_output(None).len() == 0,
{
}

/// A call of the older kind counts where it names its function, with its
/// arguments.
pub proof fn law_function_calls_count(msg: JsonView, f: JsonView)
    requires
        msg.get("function_call"@) == Some(f),
    ensures
        f.text_at("name"@) matches Some(name) ==> function_call_of(msg) == Some(
            ToolCallView {
                id: Seq::empty(),
                name,
                arguments: canonical_args(f.get("arguments"@)),
            },
        ),
        f.text_at("name"@) is None ==> function_call_of(msg) is None,
{
}

/// A message of the assistant brings the answers to its calls of both kinds; any
/// other message brings nothing.
pub proof fn law_the_assistant_alone_calls_tools(msgs: Seq<JsonView>, i: int)
    requires
        0 <= i < msgs.len(),
    ensures
        msgs[i].text_at("role"@) != Some("assistant"@) ==> events_of(msgs, i).len() == 0,
        msgs[i].text_at("role"@) == Some("assistant"@) ==> {
            let news = tool_results(msgs, i + 1, calls_of(msgs[i]));
            &&& function_call_of(msgs[i]) is None ==> events_of(msgs, i) == news
            &&& function_call_of(msgs[i]) matches Some(c) ==> events_of(msgs, i) == news
                + function_result(msgs, i + 1, c)
        },
{
    assert(tool_results(msgs, i + 1, calls_of(msgs[i])) + Seq::empty() =~= tool_results(
        msgs,
        i + 1,
        calls_of(msgs[i]),
    ));
}

// ----- loops -----

/// The loop that is found is one of the choice with the lowest index that has
/// any, and its period is the shortest of that choice.
pub proof fn law_the_first_and_shortest_loop_is_found(
    s: &StreamSession,
    index: i64,
    period: int,
    j: int,
    q: int,
)
    requires
        s.has_loop(index, period),
        0 <= j < s.said().len(),
    ensures
        period >= 1,
        s.said()[j].0 < index ==> !tandem(
            keep_last(spoken_bytes(s.said()[j].1), s.cfg.window as nat),
            q,
            s.cfg.repeats as int,
        ),
        exists|i: int|
            {
                &&& 0 <= i < s.said().len()
                &&& (#[trigger] s.said()[i]).0 == index
                &&& tandem(
                    keep_last(spoken_bytes(s.said()[i].1), s.cfg.window as nat),
                    period,
                    s.cfg.repeats as int,
                )
                &&& q < period ==> !tandem(
                    keep_last(spoken_bytes(s.said()[i].1), s.cfg.window as nat),
                    q,
                    s.cfg.repeats as int,
                )
            },
{
    let i = choose|i: int| #[trigger]
        crate::api::loop_guard::session::first_loop(
            s.said(),
            s.cfg.window as nat,
            s.cfg.repeats as int,
            i,
            period,
        ) && s.said()[i].0 == index;
    assert(s.said()[i].0 == index);
    assert(s.said()[j].0 == s.said()[j].0);
}

// ----- records -----

/// A record may be told as a list of its values in the order of their names, as
/// many as there are; a longer list is no record. In an object no name may be
/// told twice.
pub proof fn law_records_are_objects_or_lists(
    raw: Seq<u8>,
    names: Seq<Seq<char>>,
    items: Seq<Seq<u8>>,
    f: Seq<(Seq<char>, Seq<u8>)>,
    i: int,
    j: int,
)
    ensures
        object_fields(raw) is None && array_items(raw) == Some(items) && items.len() > names.len()
            ==> record_fields(raw, names) is None,
        object_fields(raw) is None && array_items(raw) == Some(items) && items.len() <= names.len()
            ==> {
            &&& record_fields(raw, names) matches Some(r)
            &&& r.len() == items.len()
            &&& 0 <= i < items.len() ==> r[i] == (names[i], items[i])
        },
        object_fields(raw) == Some(f) && 0 <= i < j < f.len() && f[i].0 == f[j].0 && names.contains(
            f[i].0,
        ) ==> record_fields(raw, names) is None,
        object_fields(raw) is None && array_items(raw) is None ==> record_fields(raw, names) is None,
{
}

/// An event that tells its text or its stop mark twice cannot be read.
pub proof fn law_an_event_tells_a_thing_once(
    payload: Seq<u8>,
    f: Seq<(Seq<char>, Seq<u8>)>,
    i: int,
    j: int,
)
    requires
        object_fields(trimmed(payload)) == Some(f),
        0 <= i < j < f.len(),
        f[i].0 == f[j].0,
        f[i].0 == "content"@ || f[i].0 == "stop"@,
    ensures
        native_event(payload) is None,
{
    let names = seq!["content"@, "stop"@];
    assert(names[0] == "content"@ && names[1] == "stop"@);
    assert(names.contains(f[i].0));
}

/// A choice that tells its index twice cannot be read.
pub proof fn law_a_choice_tells_its_index_once(
    raw: Seq<u8>,
    f: Seq<(Seq<char>, Seq<u8>)>,
    i: int,
    j: int,
)
    requires
        object_fields(raw) == Some(f),
        0 <= i < j < f.len(),
        f[i].0 == "index"@,
        f[j].0 == "index"@,
    ensures
        chat_choice(raw) is None,
        text_choice(raw) is None,
{
    let a = crate::api::loop_guard::sse::chat_names();
    let b = crate::api::loop_guard::sse::completion_names();
    assert(a[0] == "index"@ && b[0] == "index"@);
    assert(a.contains("index"@) && b.contains("index"@));
}

} // verus!
