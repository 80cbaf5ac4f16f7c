//! What holds of every guarded stream: how it is read, what is replayed of it,
//! and what the model is told.
use vstd::prelude::*;
use vstd::string::*;

use crate::api::fields::object_fields;
use crate::api::json::{lemma_entry_found, raw_items, raw_string, JsonView};
use crate::api::loop_guard::cross_turn::{
    byte_len, cut_to, lemma_byte_len_grows, lemma_chars_within, two_or_more,
};
use crate::api::loop_guard::detector::keep_last;
use crate::api::loop_guard::endpoint::{
    chat_corrected, chat_extra, completion_corrected, completion_suffix, corrective, first_spoken,
    halt_bytes, has_spoken, message, replayed, text_bytes, EndpointKind, SnapshotView,
};
use crate::api::loop_guard::laws::{
    law_items_are_added_behind, lemma_entry_other, lemma_field, lemma_once,
};
use crate::api::loop_guard::session::{
    choice_at, delta_speech, event_timings, first_timings, is_extent, lemma_extent, only, partials, recycle_notice, replay,
    snapshot_of, speech, spoken_bytes, step_for, Config, FieldKind, FirstAnswer, FirstStep, NextStep,
    Outcome, Spoken, StreamSession,
};
use crate::api::loop_guard::sse::{
    after_line, bare_line, carries_data, chat_choice, chat_choices, done_mark, drop_spaces,
    field, integer_of, is_space, last_events, native_event, skip_spaces, switch_of, take_byte, text_choice,
    text_choices, told_once, trimmed, DeltaView, Gathered,
};
use crate::config::settings::{StreamingLoopAction, StreamingLoopSettings};

verus! {

broadcast use vstd::string::group_string_axioms;

// ----- reading events -----

proof fn lemma_skip_spaces(s: Seq<u8>)
    ensures
        skip_spaces(s).len() <= s.len(),
        s.skip(s.len() - skip_spaces(s).len()) == skip_spaces(s),
        forall|i: int| 0 <= i < s.len() - skip_spaces(s).len() ==> is_space(#[trigger] s[i]),
        skip_spaces(s).len() > 0 ==> !is_space(skip_spaces(s)[0]),
    decreases s.len(),
{
    if s.len() > 0 && is_space(s[0]) {
        let t = s.drop_first();
        lemma_skip_spaces(t);
        let n = s.len() - skip_spaces(s).len();
        assert(s.skip(n) =~= t.skip(n - 1));
        assert forall|i: int| 0 <= i < n implies is_space(#[trigger] s[i]) by {
            if i > 0 {
                assert(t[i - 1] == s[i]);
            }
        }
    } else {
        assert(s.skip(0) =~= s);
    }
}

proof fn lemma_drop_spaces(s: Seq<u8>)
    ensures
        drop_spaces(s).len() <= s.len(),
        s.take(drop_spaces(s).len() as int) == drop_spaces(s),
        forall|i: int| drop_spaces(s).len() <= i < s.len() ==> is_space(#[trigger] s[i]),
        drop_spaces(s).len() > 0 ==> !is_space(drop_spaces(s).last()),
    decreases s.len(),
{
    if s.len() > 0 && is_space(s.last()) {
        let t = s.drop_last();
        lemma_drop_spaces(t);
        let n = drop_spaces(s).len() as int;
        assert(s.take(n) =~= t.take(n));
        assert forall|i: int| n <= i < s.len() implies is_space(#[trigger] s[i]) by {
            if i < t.len() {
                assert(t[i] == s[i]);
            }
        }
    } else {
        assert(s.take(s.len() as int) =~= s);
    }
}

/// Trimming takes away white space at both ends, all of it and nothing else:
/// spaces, tabs, line feeds, form feeds and carriage returns.
pub proof fn law_only_white_space_is_trimmed(s: Seq<u8>)
    ensures
        exists|i: int, j: int|
            {
                &&& 0 <= i <= j <= s.len()
                &&& trimmed(s) == #[trigger] s.subrange(i, j)
                &&& forall|k: int|
                    0 <= k < s.len() && !(i <= k < j) ==> (#[trigger] s[k] == 32 || s[k] == 9 || s[k]
                        == 10 || s[k] == 12 || s[k] == 13)
                &&& i < j ==> !is_space(s[i]) && !is_space(s[j - 1])
            },
        forall|b: u8|
            is_space(b) <==> (b == 32 || b == 9 || b == 10 || b == 12 || b == 13),
{
    let t = skip_spaces(s);
    lemma_skip_spaces(s);
    lemma_drop_spaces(t);
    let i = s.len() - t.len();
    let j = i + drop_spaces(t).len();
    assert(t =~= s.skip(i));
    assert(trimmed(s) =~= s.subrange(i, j));
    assert forall|k: int| 0 <= k < s.len() && !(i <= k < j) implies (#[trigger] s[k] == 32 || s[k]
        == 9 || s[k] == 10 || s[k] == 12 || s[k] == 13) by {
        if k >= j {
            assert(t[k - i] == s[k]);
        }
    }
    if i < j {
        assert(t[0] == s[i]);
        assert(drop_spaces(t).last() == t[j - i - 1]);
        assert(t[j - i - 1] == s[j - 1]);
        assert(drop_spaces(t)[0] == t[0]);
    }
}

proof fn lemma_bare_line(l: Seq<u8>, e: Seq<u8>)
    requires
        l.len() > 0 ==> l.last() != 10 && l.last() != 13,
        e == seq![10u8] || e == seq![13u8, 10u8] || e.len() == 0,
    ensures
        bare_line(l + e) == l,
{
    reveal_with_fuel(bare_line, 3);
    assert(e.len() > 0 ==> (l + e).last() == 10);
    if e.len() == 0 {
        assert(l + e =~= l);
    } else if e.len() == 1 {
        assert((l + e).drop_last() =~= l);
    } else {
        assert((l + e).drop_last() =~= l.push(13u8));
        assert(l.push(13u8).drop_last() =~= l);
    }
}

/// A data line adds its data to the event, behind a line break where there was
/// some before; it ends no event. Lines end with a line feed, with a carriage
/// return before it or without.
pub proof fn law_a_data_line_adds_its_data(event: Seq<u8>, data: Seq<u8>, end: Seq<u8>)
    requires
        data.len() > 0 && data.last() != 10 && data.last() != 13,
        end == seq![10u8] || end == seq![13u8, 10u8] || end.len() == 0,
    ensures
        ({
            let r = after_line(event, seq![100u8, 97, 116, 97, 58] + data + end);
            &&& r.1.len() == 0
            &&& event.len() == 0 ==> r.0 == trimmed(data)
            &&& event.len() > 0 ==> r.0 == event + seq![10u8] + trimmed(data)
        }),
{
    let l = seq![100u8, 97, 116, 97, 58] + data;
    assert(l.last() == data.last());
    lemma_bare_line(l, end);
    assert(l.subrange(0, 5) =~= seq![100u8, 97, 116, 97, 58]);
    assert(l.skip(5) =~= data);
    assert(event.push(10) + trimmed(data) =~= event + seq![10u8] + trimmed(data));
}

/// An empty line ends the event that was gathered, where there is one; any line
/// without data changes nothing.
pub proof fn law_an_empty_line_ends_an_event(event: Seq<u8>, line: Seq<u8>, end: Seq<u8>)
    requires
        end == seq![10u8] || end == seq![13u8, 10u8],
    ensures
        event.len() > 0 ==> after_line(event, end) == (Seq::<u8>::empty(), seq![event]),
        after_line(Seq::empty(), end) == (Seq::<u8>::empty(), Seq::<Seq<u8>>::empty()),
        line.len() > 0 && line.last() != 10 && line.last() != 13 && !carries_data(line)
            ==> after_line(event, line + end) == (event, Seq::<Seq<u8>>::empty()),
{
    lemma_bare_line(Seq::empty(), end);
    assert(Seq::<u8>::empty() + end =~= end);
    if line.len() > 0 && line.last() != 10 && line.last() != 13 {
        lemma_bare_line(line, end);
    }
}

/// A line is looked at when its line feed comes, and not before; what is left at
/// the end of a stream is an event too.
pub proof fn law_a_line_ends_with_a_line_feed(g: Gathered, b: u8)
    ensures
        b != 10 ==> take_byte(g, b) == (
            Gathered { event: g.event, line: g.line.push(b) },
            Seq::<Seq<u8>>::empty(),
        ),
        b == 10 ==> take_byte(g, b).0.line.len() == 0 && take_byte(g, b).0.event == after_line(
            g.event,
            g.line.push(b),
        ).0 && take_byte(g, b).1 == after_line(g.event, g.line.push(b)).1,
        g.line.len() == 0 && g.event.len() > 0 ==> last_events(g) == seq![g.event],
        g.line.len() == 0 && g.event.len() == 0 ==> last_events(g).len() == 0,
{
    assert(Seq::<Seq<u8>>::empty().push(g.event) =~= seq![g.event]);
}

/// The throughput of a stream is that of the first event that reports one. The
/// mark `[DONE]` reports none.
pub proof fn law_the_first_report_counts(events: Seq<Seq<u8>>, n: int, i: int)
    requires
        0 <= i < n <= events.len(),
        trimmed(events[i]) != seq![91u8, 68, 79, 78, 69, 93],
        event_timings(events[i]) is Some,
        forall|j: int|
            0 <= j < i && trimmed(events[j]) != seq![91u8, 68, 79, 78, 69, 93] ==> event_timings(
                #[trigger] events[j],
            ) is None,
    ensures
        first_timings(events, n) == event_timings(events[i]),
    decreases n,
{
    if i < n - 1 {
        law_the_first_report_counts(events, n - 1, i);
    } else {
        lemma_no_report(events, i);
    }
}

proof fn lemma_no_report(events: Seq<Seq<u8>>, n: int)
    requires
        0 <= n <= events.len(),
        forall|j: int|
            0 <= j < n && trimmed(events[j]) != done_mark() ==> event_timings(
                #[trigger] events[j],
            ) is None,
    ensures
        first_timings(events, n) is None,
    decreases n,
{
    if n > 0 {
        lemma_no_report(events, n - 1);
        if trimmed(events[n - 1]) != done_mark() {
            assert(event_timings(events[n - 1]) is None);
        }
    }
}

/// A choice of a completion is read by name: the index and the text, zero and
/// empty where they are absent. It is read wherever both can be read and neither
/// is told twice.
pub proof fn law_text_choices_are_read_by_name(
    raw: Seq<u8>,
    f: Seq<(Seq<char>, Seq<u8>)>,
    i: int,
    j: int,
    index: i64,
    text: Seq<char>,
)
    requires
        object_fields(raw) == Some(f),
        0 <= i < f.len(),
        0 <= j < f.len(),
        f[i].0 == "index"@,
        f[j].0 == "text"@,
        forall|k: int| 0 <= k < f.len() && k != i ==> (#[trigger] f[k]).0 != "index"@,
        forall|k: int| 0 <= k < f.len() && k != j ==> (#[trigger] f[k]).0 != "text"@,
        integer_of(f[i].1) == Some(index),
        raw_string(f[j].1) == Some(text),
    ensures
        text_choice(raw) == Some((index, text)),
{
    let names = seq!["index"@, "text"@];
    assert(names[0] == "index"@ && names[1] == "text"@);
    assert(told_once(f, names)) by {
        assert forall|a: int, b: int|
            0 <= a < b < f.len() && (#[trigger] f[a]).0 == (
            #[trigger] f[b]).0 implies !names.contains(f[a].0) by {
            if names.contains(f[a].0) {
                let m = choose|m: int| 0 <= m < names.len() && names[m] == f[a].0;
                if m == 0 {
                    assert(a == i && b == i);
                } else {
                    assert(a == j && b == j);
                }
            }
        }
    }
    assert(names.contains("index"@) && names.contains("text"@));
    lemma_once(f, names, "index"@);
    lemma_once(f, names, "text"@);
}

/// An event of llama.cpp's own stream is read by name: its text and its stop
/// mark.
pub proof fn law_native_events_are_read_by_name(
    payload: Seq<u8>,
    f: Seq<(Seq<char>, Seq<u8>)>,
    i: int,
    j: int,
    text: Seq<char>,
    stop: bool,
)
    requires
        trimmed(payload).len() > 0,
        trimmed(payload)[0] == 123,
        object_fields(trimmed(payload)) == Some(f),
        0 <= i < f.len(),
        0 <= j < f.len(),
        f[i].0 == "content"@,
        f[j].0 == "stop"@,
        forall|k: int| 0 <= k < f.len() && k != i ==> (#[trigger] f[k]).0 != "content"@,
        forall|k: int| 0 <= k < f.len() && k != j ==> (#[trigger] f[k]).0 != "stop"@,
        raw_string(f[i].1) == Some(text),
        switch_of(f[j].1) == Some(stop),
    ensures
        native_event(payload) == Some((text, stop)),
{
    let names = seq!["content"@, "stop"@];
    assert(names[0] == "content"@ && names[1] == "stop"@);
    assert(told_once(f, names)) by {
        assert forall|a: int, b: int|
            0 <= a < b < f.len() && (#[trigger] f[a]).0 == (
            #[trigger] f[b]).0 implies !names.contains(f[a].0) by {
            if names.contains(f[a].0) {
                let m = choose|m: int| 0 <= m < names.len() && names[m] == f[a].0;
                if m == 0 {
                    assert(a == i && b == i);
                } else {
                    assert(a == j && b == j);
                }
            }
        }
    }
    assert(names.contains("content"@) && names.contains("stop"@));
    lemma_once(f, names, "content"@);
    lemma_once(f, names, "stop"@);
}

/// A chat choice is read wherever its names are told once and what stands under
/// them can be read; names that are absent, and names that are not known, stand
/// in no way.
pub proof fn law_chat_choices_are_read_where_they_can_be(
    raw: Seq<u8>,
    f: Seq<(Seq<char>, Seq<u8>)>,
    k: int,
    g: Seq<(Seq<char>, Seq<u8>)>,
)
    requires
        object_fields(raw) == Some(f),
        0 <= k < f.len(),
        f[k].0 == "delta"@,
        object_fields(f[k].1) == Some(g),
        told_once(f, seq!["index"@, "delta"@]),
        told_once(g, seq!["content"@, "reasoning_content"@, "thinking"@, "tool_calls"@]),
        forall|i: int|
            0 <= i < f.len() && (#[trigger] f[i]).0 == "index"@ ==> integer_of(f[i].1) is Some,
        forall|i: int|
            0 <= i < g.len() && ((#[trigger] g[i]).0 == "content"@ || g[i].0 == "reasoning_content"@
                || g[i].0 == "thinking"@) ==> raw_string(g[i].1) is Some,
        forall|i: int|
            0 <= i < g.len() && (#[trigger] g[i]).0 == "tool_calls"@ ==> raw_items(g[i].1) is Some,
    ensures
        chat_choice(raw) is Some,
{
    let names = seq!["index"@, "delta"@];
    assert(names[0] == "index"@ && names[1] == "delta"@);
    assert(names.contains("delta"@));
    lemma_once(f, names, "delta"@);
    lemma_field(f, "index"@, 0);
    lemma_field(g, "content"@, 0);
    lemma_field(g, "reasoning_content"@, 0);
    lemma_field(g, "thinking"@, 0);
    lemma_field(g, "tool_calls"@, 0);
    assert(field(f, "delta"@) == Some(f[k].1));
}

/// The choices of an event are all read, in their order, and none is read where
/// one of them cannot be.
pub proof fn law_all_choices_are_read(raw: Seq<Seq<u8>>, n: int, i: int)
    requires
        0 <= i < n <= raw.len(),
    ensures
        chat_choices(raw, n) matches Some(c) ==> c.len() == n && Some(c[i]) == chat_choice(raw[i]),
        chat_choice(raw[i]) is None ==> chat_choices(raw, n) is None,
        (forall|k: int| 0 <= k < n ==> chat_choice(#[trigger] raw[k]) is Some) ==> chat_choices(
            raw,
            n,
        ) is Some,
        text_choices(raw, n) matches Some(c) ==> c.len() == n && Some(c[i]) == text_choice(raw[i]),
        text_choice(raw[i]) is None ==> text_choices(raw, n) is None,
        (forall|k: int| 0 <= k < n ==> text_choice(#[trigger] raw[k]) is Some) ==> text_choices(
            raw,
            n,
        ) is Some,
    decreases n,
{
    assert(n == 1 ==> chat_choices(raw, n - 1) is Some && text_choices(raw, n - 1) is Some);
    if i < n - 1 {
        law_all_choices_are_read(raw, n - 1, i);
    } else if n > 1 {
        law_all_choices_are_read(raw, n - 1, 0);
    }
}

// ----- settings -----

/// A setting of the guard holds as it is set, as long as it makes sense: the
/// window has a kibibyte at least, a loop two copies, and the interval a
/// millisecond.
pub proof fn law_guard_settings_hold(s: StreamingLoopSettings)
    ensures
        ({
            let c = Config::of(s);
            &&& c.enabled == s.enabled
            &&& s.window_bytes >= 1024 ==> c.window == s.window_bytes
            &&& c.window >= 1024 && (c.window > 1024 ==> c.window == s.window_bytes)
            &&& s.repeats >= 2 ==> c.repeats == s.repeats
            &&& c.repeats >= 2 && (c.repeats > 2 ==> c.repeats == s.repeats)
            &&& s.check_interval_ms >= 1 ==> c.check_interval_ms == s.check_interval_ms
            &&& s.check_interval_ms == 0 ==> c.check_interval_ms == 1
            &&& c.max_retries == s.max_retries
            &&& c.action == s.action
            &&& c.replay_partial == s.replay_partial
        }),
        forall|n: int| n >= 2 ==> #[trigger] two_or_more(n) == n,
        forall|n: int| n < 2 ==> #[trigger] two_or_more(n) == 2,
{
}

// ----- what follows -----

/// An answer is watched exactly where it is in order; any other status is passed
/// on as it is. A server that stays silent is restarted, and one that fails is
/// told of.
pub proof fn law_only_answers_in_order_are_watched(n: u16)
    ensures
        step_for(FirstAnswer::Status(200)) == FirstStep::Watch,
        n != 200 ==> step_for(FirstAnswer::Status(n)) == FirstStep::PassOn,
        step_for(FirstAnswer::TimedOut) == FirstStep::Restart,
        step_for(FirstAnswer::Failed) == FirstStep::TellFailure,
{
}

/// An attempt is repeated for a loop alone, and only where loops are healed and
/// a retry is left; the choices then begin anew, and the attempt counts. A loop
/// that is not healed ends the stream, silence recycles the instance, and
/// anything else is the end.
pub proof fn law_an_attempt_is_repeated_for_a_loop_alone(
    s: &StreamSession,
    then: &StreamSession,
    outcome: Outcome,
    r: NextStep,
)
    requires
        s.goes_on(then, outcome, r),
    ensures
        r is Retry <==> outcome is LoopDetected && s.cfg.action == StreamingLoopAction::Heal
            && s.attempt < s.cfg.max_retries,
        r is Halt <==> outcome is LoopDetected && !(s.cfg.action == StreamingLoopAction::Heal
            && s.attempt < s.cfg.max_retries),
        r is Recycle <==> outcome is IdleTimeout,
        r is Stop <==> outcome is FinishedNaturally || outcome is ClientDisconnected
            || outcome is UpstreamError,
        r is Retry ==> then.attempt == s.attempt + 1 && then.said().len() == 0 && then.cfg == s.cfg
            && then.kind == s.kind,
        !(r is Retry) ==> *then == *s,
        r matches NextStep::Halt(out) ==> out@ == halt_bytes(
            s.kind,
            (s.attempt + 1) as nat,
            outcome->LoopDetected_period as nat,
        ),
{
}

/// What is quoted of a loop is the beginning of what repeats, so much of it at
/// most as is asked for.
pub proof fn law_a_loop_is_quoted_from_its_beginning(
    s: &StreamSession,
    index: i64,
    i: int,
    period: int,
    max: int,
)
    requires
        choice_at(s.said(), index, 0) == Some(i),
        1 <= period <= keep_last(spoken_bytes(s.said()[i].1), s.cfg.window as nat).len(),
        max >= 1,
    ensures
        ({
            let buf = keep_last(spoken_bytes(s.said()[i].1), s.cfg.window as nat);
            let block = buf.skip(buf.len() - period);
            let quoted = s.snippet_of(index, period, max);
            &&& period <= max ==> quoted == block
            &&& period > max ==> quoted == block.take(max)
        }),
{
    let buf = keep_last(spoken_bytes(s.said()[i].1), s.cfg.window as nat);
    let block = buf.skip(buf.len() - period);
    let quoted = s.snippet_of(index, period, max);
    if period <= max {
        assert(quoted =~= block);
    } else {
        assert(quoted =~= block.take(max));
    }
}

/// What a delta says is kept by its parts: the reasoning as reasoning, the
/// content as content, and the tool calls as neither; the detector gets all of it
/// in that order.
pub proof fn law_a_delta_is_kept_by_its_parts(d: DeltaView)
    ensures
        only(delta_speech(d), FieldKind::Content) == text_bytes(d.content),
        only(delta_speech(d), FieldKind::Reasoning) == text_bytes(d.reasoning_content),
        spoken_bytes(delta_speech(d)) == text_bytes(d.reasoning_content) + text_bytes(d.content)
            + d.tool_calls,
{
    let none = Seq::<Spoken>::empty();
    let a = speech(Some(FieldKind::Reasoning), text_bytes(d.reasoning_content));
    let b = speech(Some(FieldKind::Content), text_bytes(d.content));
    let c = speech(None, d.tool_calls);
    assert(delta_speech(d) == a + b + c);
    assert(none + a =~= a);
    law_parts_are_kept_apart(
        none,
        Some(FieldKind::Reasoning),
        text_bytes(d.reasoning_content),
        FieldKind::Content,
    );
    law_parts_are_kept_apart(
        none,
        Some(FieldKind::Reasoning),
        text_bytes(d.reasoning_content),
        FieldKind::Reasoning,
    );
    law_parts_are_kept_apart(a, Some(FieldKind::Content), text_bytes(d.content), FieldKind::Content);
    law_parts_are_kept_apart(
        a,
        Some(FieldKind::Content),
        text_bytes(d.content),
        FieldKind::Reasoning,
    );
    law_parts_are_kept_apart(a + b, None, d.tool_calls, FieldKind::Content);
    law_parts_are_kept_apart(a + b, None, d.tool_calls, FieldKind::Reasoning);
    assert(Seq::<u8>::empty() + text_bytes(d.content) =~= text_bytes(d.content));
    assert(only(none, FieldKind::Content) =~= Seq::<u8>::empty());
    assert(only(none, FieldKind::Reasoning) + text_bytes(d.reasoning_content) =~= text_bytes(
        d.reasoning_content,
    ));
    assert(only(a, FieldKind::Content) + text_bytes(d.content) =~= text_bytes(d.content));
    assert(spoken_bytes(delta_speech(d)) =~= text_bytes(d.reasoning_content) + text_bytes(d.content)
        + d.tool_calls);
}

/// A retry carries what was said where that is asked for, and only the message
/// where it is not.
pub proof fn law_a_retry_carries_what_was_said(s: &StreamSession, looping: i64, period: int)
    ensures
        !s.cfg.replay_partial ==> s.healed(looping, period) == s.kind.corrected(
            s.req_doc@,
            s.attempt as nat,
            None,
        ),
        s.cfg.replay_partial ==> s.healed(looping, period) == s.kind.corrected(
            s.req_doc@,
            s.attempt as nat,
            Some(
                partials(
                    s.said(),
                    s.cfg.window as nat,
                    s.cfg.repeats as int,
                    looping,
                    period,
                    s.said().len() as int,
                ),
            ),
        ),
        forall|d: JsonView, n: nat, p: Option<Seq<SnapshotView>>| #[trigger]
            EndpointKind::Chat.corrected(d, n, p) == chat_corrected(d, n, p),
        forall|d: JsonView, n: nat, p: Option<Seq<SnapshotView>>| #[trigger]
            EndpointKind::Completion.corrected(d, n, p) == completion_corrected(d, n, p),
        forall|d: JsonView, n: nat, p: Option<Seq<SnapshotView>>| #[trigger]
            EndpointKind::LlamaCpp.corrected(d, n, p) == completion_corrected(d, n, p),
{
}

/// The chat that is sent again ends with what the model said and what it is
/// told, behind all messages that there were.
pub proof fn law_a_chat_is_sent_again_with_more(
    doc: JsonView,
    attempt: nat,
    partial: Option<Seq<SnapshotView>>,
    other: Seq<char>,
)
    requires
        doc.items_at("messages"@) is Some,
    ensures
        chat_corrected(doc, attempt, partial).items_at("messages"@) == Some(
            doc.items_at("messages"@)->0 + chat_extra(attempt, partial),
        ),
        other != "messages"@ ==> chat_corrected(doc, attempt, partial).get(other) == doc.get(other),
{
    law_items_are_added_behind(doc, "messages"@, chat_extra(attempt, partial), other);
}

/// A recycled instance is told of by its model, with the reason.
pub proof fn law_a_recycled_instance_is_named(model: Seq<char>, msg: Seq<char>)
    ensures
        ({
            let e = recycle_notice(model, msg)->Object_0;
            let f = e[0].1->Object_0;
            &&& e.len() == 1
            &&& e[0].0 == "error"@
            &&& f.contains(("message"@, JsonView::Str(msg)))
            &&& f.contains(("model"@, JsonView::Str(model)))
            &&& f.contains(("type"@, JsonView::Str("router_recycle"@)))
        }),
{
    let f = recycle_notice(model, msg)->Object_0[0].1->Object_0;
    assert(f[0] == ("message"@, JsonView::Str(msg)));
    assert(f[1] == ("type"@, JsonView::Str("router_recycle"@)));
    assert(f[2] == ("model"@, JsonView::Str(model)));
}

// ----- replaying -----

/// What belongs to one part of an answer is all that was said in that part, in
/// its order; tool calls belong to none.
pub proof fn law_parts_are_kept_apart(
    s: Seq<Spoken>,
    part: Option<FieldKind>,
    p: Seq<u8>,
    field: FieldKind,
)
    ensures
        part == Some(field) ==> only(s + speech(part, p), field) == only(s, field) + p,
        part != Some(field) ==> only(s + speech(part, p), field) == only(s, field),
        only(Seq::empty(), field).len() == 0,
    decreases p.len(),
{
    let t = s + speech(part, p);
    if p.len() == 0 {
        assert(t =~= s);
        assert(only(s, field) + p =~= only(s, field));
    } else {
        let q = p.drop_last();
        law_parts_are_kept_apart(s, part, q, field);
        assert(t.drop_last() =~= s + speech(part, q));
        assert(t.last() == (Spoken { field: part, byte: p.last() }));
        if part == Some(field) {
            assert((only(s, field) + q).push(p.last()) =~= only(s, field) + p);
        }
    }
}

/// Of a choice with a loop everything is replayed that came before the loop: all
/// copies that stand at its end are left out, and no byte more.
pub proof fn law_a_loop_is_left_out_of_a_replay(
    s: Seq<Spoken>,
    window: nat,
    repeats: int,
    period: int,
    copies: int,
)
    requires
        period >= 1,
        copies >= repeats,
        is_extent(keep_last(spoken_bytes(s), window), period, copies),
        period <= keep_last(spoken_bytes(s), window).len(),
    ensures
        copies * period <= s.len(),
        replay(s, window, repeats, period) == s.take(s.len() - copies * period),
        replay(s, window, repeats, 0) == s,
{
    lemma_extent(keep_last(spoken_bytes(s), window), period, copies);
}

/// The choices without the loop are replayed whole, as far as they have said
/// anything.
pub proof fn law_other_choices_are_replayed_whole(
    s: Seq<(i64, Seq<Spoken>)>,
    window: nat,
    repeats: int,
    looping: i64,
    period: int,
    n: int,
    i: int,
)
    requires
        0 <= i < n <= s.len(),
    ensures
        s[i].0 != looping && has_spoken(snapshot_of(s[i].0, s[i].1)) ==> partials(
            s,
            window,
            repeats,
            looping,
            period,
            n,
        ).contains(snapshot_of(s[i].0, s[i].1)),
        s[i].0 == looping && has_spoken(
            snapshot_of(looping, replay(s[i].1, window, repeats, period)),
        ) ==> partials(s, window, repeats, looping, period, n).contains(
            snapshot_of(looping, replay(s[i].1, window, repeats, period)),
        ),
    decreases n,
{
    let x = snapshot_of(
        s[i].0,
        if s[i].0 == looping {
            replay(s[i].1, window, repeats, period)
        } else {
            s[i].1
        },
    );
    let front = partials(s, window, repeats, looping, period, n - 1);
    let all = partials(s, window, repeats, looping, period, n);
    if i < n - 1 {
        law_other_choices_are_replayed_whole(s, window, repeats, looping, period, n - 1, i);
        if has_spoken(x) {
            let k = choose|k: int| 0 <= k < front.len() && front[k] == x;
            assert(all[k] == x);
        }
    } else if has_spoken(x) {
        assert(all.last() == x);
    }
}

proof fn lemma_first_spoken(s: Seq<SnapshotView>, n: int)
    requires
        0 <= n <= s.len(),
    ensures
        match first_spoken(s, n) {
            Some(j) => 0 <= j < n && has_spoken(s[j]) && forall|i: int|
                0 <= i < n && has_spoken(#[trigger] s[i]) ==> s[j].index <= s[i].index,
            None => forall|i: int| 0 <= i < n ==> !has_spoken(#[trigger] s[i]),
        },
    decreases n,
{
    if n > 0 {
        lemma_first_spoken(s, n - 1);
    }
}

/// Where any choice has said something, by content or by reasoning, one is
/// replayed: the one of the lowest index.
pub proof fn law_the_lowest_choice_is_replayed(s: Seq<SnapshotView>, i: int)
    requires
        0 <= i < s.len(),
        s[i].content.len() > 0 || s[i].reasoning_content.len() > 0,
    ensures
        replayed(Some(s)) matches Some(c) && s.contains(c) && c.index <= s[i].index && (
        c.content.len() > 0 || c.reasoning_content.len() > 0),
{
    lemma_first_spoken(s, s.len() as int);
    assert(has_spoken(s[i]));
}

/// A chat is told to go on by the user, after what the model said itself, with
/// its reasoning marked off.
pub proof fn law_a_chat_hears_its_own_words(attempt: nat, s: Seq<SnapshotView>, c: SnapshotView)
    requires
        replayed(Some(s)) == Some(c),
    ensures
        c.content.len() > 0 && c.reasoning_content.len() == 0 ==> chat_extra(attempt, Some(s))
            == seq![message("assistant"@, c.content), message("user"@, corrective(attempt))],
        c.reasoning_content.len() > 0 ==> chat_extra(attempt, Some(s)) == seq![
            message("assistant"@, "<think>"@ + c.reasoning_content + "</think>"@ + c.content),
            message("user"@, corrective(attempt)),
        ],
        chat_extra(attempt, None) == seq![message("user"@, corrective(attempt))],
{
}

/// What the model is told differs with the attempt, up to the third.
pub proof fn law_every_attempt_is_told_something_else(attempt: nat)
    ensures
        corrective(0) != corrective(1),
        corrective(1) != corrective(2),
        corrective(0) != corrective(2),
        attempt >= 2 ==> corrective(attempt) == corrective(2),
{
    reveal_strlit(
        "[INTERRUPT — automated proxy notice] The previous attempt entered a thinking/output loop. Step back, identify the real next concrete action, and proceed without restating analysis you've already done.",
    );
    reveal_strlit(
        "[INTERRUPT — automated proxy notice] Two attempts have looped. Skip all deliberation and produce the next tool call or concrete output directly.",
    );
    reveal_strlit(
        "[INTERRUPT — automated proxy notice] Final attempt — emit only the next required action, no thinking, no commentary.",
    );
    assert(corrective(0).len() != corrective(1).len());
    assert(corrective(1).len() != corrective(2).len());
    assert(corrective(0).len() != corrective(2).len());
}

/// Every prompt of a completion request keeps its beginning and gets what the
/// model said and what it is told behind it; prompts that are no texts and all
/// other fields stay as they are.
pub proof fn law_every_prompt_is_told(
    doc: JsonView,
    attempt: nat,
    partial: Option<Seq<SnapshotView>>,
    i: int,
    other: Seq<char>,
)
    ensures
        ({
            let said = match replayed(partial) {
                Some(c) => c.content,
                None => Seq::empty(),
            };
            let told = said + "\n\n["@ + corrective(attempt) + "]\n\n"@;
            let after = completion_corrected(doc, attempt, partial);
            &&& doc.get("prompt"@) matches Some(JsonView::Str(s)) ==> after.get("prompt"@) == Some(
                JsonView::Str(s + told),
            )
            &&& doc.get("prompt"@) matches Some(JsonView::Array(items)) ==> {
                &&& after.get("prompt"@) matches Some(JsonView::Array(r))
                &&& r.len() == items.len()
                &&& 0 <= i < items.len() ==> (items[i] matches JsonView::Str(s) ==> r[i]
                    == JsonView::Str(s + told))
                &&& 0 <= i < items.len() && !(items[i] is Str) ==> r[i] == items[i]
            }
            &&& doc.get("prompt"@) is None ==> after == doc
            &&& other != "prompt"@ ==> after.get(other) == doc.get(other)
        }),
{
    if doc is Object && doc.get("prompt"@) is Some {
        let s = doc->Object_0;
        let suffix = completion_suffix(attempt, partial);
        lemma_entry_found(s, "prompt"@, 0);
        let k = JsonView::entry(s, "prompt"@, 0)->0;
        let v = match doc.get("prompt"@) {
            Some(JsonView::Str(t)) => JsonView::Str(t + suffix),
            Some(JsonView::Array(items)) => JsonView::Array(
                crate::api::loop_guard::endpoint::longer_prompts(items, suffix),
            ),
            _ => s[k].1,
        };
        lemma_entry_other(s, "prompt"@, k, v, 0);
        lemma_entry_other(s, other, k, v, 0);
        if other != "prompt"@ && JsonView::entry(s, other, 0) is Some {
            lemma_entry_found(s, other, 0);
        }
    }
}

/// A stream that a loop ended says so in a last event; one of the kinds that
/// know a mark for the end ends with that mark, and llama.cpp's own does not.
pub proof fn law_an_ended_stream_is_closed(kind: EndpointKind, attempts: nat, period: nat)
    ensures
        ({
            let event = "data: "@ + crate::api::json::json_text(
                crate::api::loop_guard::endpoint::halt_chunk(kind, attempts, period),
            ) + "\n\n"@;
            &&& kind == EndpointKind::LlamaCpp ==> halt_bytes(kind, attempts, period) == text_bytes(
                event,
            )
            &&& kind != EndpointKind::LlamaCpp ==> halt_bytes(kind, attempts, period) == text_bytes(
                event + "data: [DONE]\n\n"@,
            )
        }),
{
}

// ----- cutting -----

/// A text that is too long is cut where it no longer fits, and that is marked;
/// one that fits stays whole.
pub proof fn law_as_much_as_fits_is_kept(s: Seq<char>, max: nat, k: int)
    requires
        0 <= k < s.len(),
        byte_len(s.take(k)) <= max,
        byte_len(s.take(k + 1)) > max,
    ensures
        cut_to(s, max) == s.take(k) + "..."@,
        forall|t: Seq<char>| byte_len(t) <= max ==> #[trigger] cut_to(t, max) == t,
{
    lemma_byte_len_grows(s, k + 1);
    lemma_chars_within(s, max, k);
}

} // verus!
