//! What holds of every guarded request and every guarded stream.
use vstd::prelude::*;
use vstd::string::*;

use crate::api::fields::object_fields;
use crate::api::json::{
    json_document, json_text, lemma_entry_found, raw_items, raw_string, with_items, JsonView,
};
use crate::api::loop_guard::cross_turn::{
    calls_of, canonical_args, canonical_output, ends_with_copies, event_of, events_between,
    events_of, has_tool_loop, is_guarded, loop_notice, recent_events, stretch_start, tool_call,
    tool_calls, tool_results, tool_views, Detection, ToolCallView, ToolEventView,
};
use crate::api::loop_guard::detector::{block, keep_last, tandem};
use crate::api::loop_guard::endpoint::{message, text_bytes, EndpointKind};
use crate::api::loop_guard::session::{
    choice_at, delta_speech, guarded_kind, heard, no_loop, spoken_bytes, Spoken, StreamSession,
};
use crate::api::loop_guard::sse::{
    chat_choice, chat_delta, chat_says, concat_bytes, field, field_at, integer_of, native_says,
    text_says, told_once, ChatView, DeltaView,
};
use crate::config::settings::{StreamingLoopAction, StreamingLoopSettings, ToolLoopSettings};
use crate::text::{has_suffix, trim};

verus! {

broadcast use vstd::string::group_string_axioms;

// ----- what a streamed event says -----

/// The byte strings one after the other, and nothing else.
pub proof fn law_bytes_are_joined_in_order(s: Seq<Seq<u8>>, t: Seq<Seq<u8>>)
    ensures
        concat_bytes(Seq::empty()) == Seq::<u8>::empty(),
        forall|x: Seq<u8>| #[trigger] concat_bytes(seq![x]) == x,
        concat_bytes(s + t) == concat_bytes(s) + concat_bytes(t),
    decreases t.len(),
{
    assert forall|x: Seq<u8>| #[trigger] concat_bytes(seq![x]) == x by {
        assert(seq![x].drop_last() =~= Seq::<Seq<u8>>::empty());
        assert(concat_bytes(seq![x].drop_last()) == Seq::<u8>::empty());
        assert(Seq::<u8>::empty() + x =~= x);
    }
    if t.len() == 0 {
        assert(s + t =~= s);
        assert(concat_bytes(s) + concat_bytes(t) =~= concat_bytes(s));
    } else {
        law_bytes_are_joined_in_order(s, t.drop_last());
        assert((s + t).drop_last() =~= s + t.drop_last());
        assert(concat_bytes(s + t) =~= concat_bytes(s) + concat_bytes(t));
    }
}

proof fn lemma_joined_bytes(s: Seq<Seq<u8>>, i: int)
    requires
        0 <= i < s.len(),
        s[i].len() > 0,
    ensures
        concat_bytes(s).len() > 0,
    decreases s.len(),
{
    if i < s.len() - 1 {
        lemma_joined_bytes(s.drop_last(), i);
    }
}

/// Nothing that a choice of a chat event says is lost. A choice whose content,
/// reasoning or list of tool calls says anything yields a delta, also one with
/// nothing but tool calls; and the delta holds all of it, the reasoning before
/// the thinking.
pub proof fn law_no_byte_of_a_choice_is_lost(c: ChatView)
    ensures
        c.content.len() > 0 ==> chat_delta(c) is Some,
        c.reasoning_content.len() > 0 ==> chat_delta(c) is Some,
        c.thinking.len() > 0 ==> chat_delta(c) is Some,
        forall|i: int|
            0 <= i < c.tool_calls.len() && (#[trigger] c.tool_calls[i]).len() > 0 ==> chat_delta(
                c,
            ) is Some,
        chat_delta(c) matches Some(d) ==> {
            &&& d.index == c.index
            &&& d.content == c.content
            &&& d.reasoning_content == c.reasoning_content + c.thinking
            &&& d.tool_calls == concat_bytes(c.tool_calls)
            &&& !d.stop
            &&& d.content.len() > 0 || d.reasoning_content.len() > 0 || d.tool_calls.len() > 0
        },
{
    assert forall|i: int|
        0 <= i < c.tool_calls.len() && (#[trigger] c.tool_calls[i]).len() > 0 implies chat_delta(
        c,
    ) is Some by {
        lemma_joined_bytes(c.tool_calls, i);
    }
}

/// Every choice of a chat event that says anything is among its deltas, in the
/// order of the choices, and nothing else is.
pub proof fn law_every_choice_is_heard(s: Seq<ChatView>, n: int)
    requires
        0 <= n <= s.len(),
    ensures
        chat_says(s, n).len() <= n,
        forall|i: int|
            0 <= i < n && chat_delta(#[trigger] s[i]) is Some ==> chat_says(s, n).contains(
                chat_delta(s[i])->0,
            ),
        forall|k: int|
            0 <= k < chat_says(s, n).len() ==> exists|i: int|
                0 <= i < n && chat_delta(#[trigger] s[i]) == Some(#[trigger] chat_says(s, n)[k]),
    decreases n,
{
    if n > 0 {
        law_every_choice_is_heard(s, n - 1);
        let front = chat_says(s, n - 1);
        let all = chat_says(s, n);
        assert forall|i: int| 0 <= i < n && chat_delta(#[trigger] s[i]) is Some implies all.contains(
            chat_delta(s[i])->0,
        ) by {
            if i < n - 1 {
                let k = choose|k: int|
                    0 <= k < front.len() && front[k] == chat_delta(s[i])->0;
                assert(all[k] == front[k]);
            } else {
                assert(all[front.len() as int] == chat_delta(s[i])->0);
            }
        }
        assert forall|k: int| 0 <= k < all.len() implies exists|i: int|
            0 <= i < n && chat_delta(#[trigger] s[i]) == Some(#[trigger] all[k]) by {
            if k < front.len() {
                assert(all[k] == front[k]);
                let i = choose|i: int|
                    0 <= i < n - 1 && chat_delta(#[trigger] s[i]) == Some(front[k]);
                assert(chat_delta(s[i]) == Some(all[k]));
            } else {
                assert(chat_delta(s[n - 1]) == Some(all[k]));
            }
        }
    }
}

/// Every choice of a completion event that says anything is heard as it is, and
/// nothing else.
pub proof fn law_every_text_is_heard(s: Seq<(i64, Seq<char>)>, n: int)
    requires
        0 <= n <= s.len(),
    ensures
        forall|i: int|
            0 <= i < n && (#[trigger] s[i]).1.len() > 0 ==> exists|k: int|
                0 <= k < text_says(s, n).len() && (#[trigger] text_says(s, n)[k]).index == s[i].0
                    && text_says(s, n)[k].content == s[i].1,
        forall|k: int|
            0 <= k < text_says(s, n).len() ==> {
                let d = #[trigger] text_says(s, n)[k];
                &&& d.content.len() > 0
                &&& d.reasoning_content.len() == 0
                &&& d.tool_calls.len() == 0
                &&& s.contains((d.index, d.content))
            },
    decreases n,
{
    if n > 0 {
        law_every_text_is_heard(s, n - 1);
        let front = text_says(s, n - 1);
        let all = text_says(s, n);
        assert forall|i: int| 0 <= i < n && (#[trigger] s[i]).1.len() > 0 implies exists|k: int|
            0 <= k < all.len() && (#[trigger] all[k]).index == s[i].0 && all[k].content
                == s[i].1 by {
            if i < n - 1 {
                let k = choose|k: int|
                    0 <= k < front.len() && (#[trigger] front[k]).index == s[i].0
                        && front[k].content == s[i].1;
                assert(all[k] == front[k]);
            } else {
                assert(all[front.len() as int].content == s[i].1);
            }
        }
        assert forall|k: int| 0 <= k < all.len() implies {
            let d = #[trigger] all[k];
            &&& d.content.len() > 0
            &&& d.reasoning_content.len() == 0
            &&& d.tool_calls.len() == 0
            &&& s.contains((d.index, d.content))
        } by {
            if k < front.len() {
                assert(all[k] == front[k]);
            } else {
                assert(s[n - 1] == (all[k].index, all[k].content));
            }
        }
    }
}

/// An event of llama.cpp's own stream is heard wherever it has text or stops.
pub proof fn law_every_native_event_is_heard(content: Seq<char>, stop: bool)
    ensures
        native_says(content, stop).len() == (if content.len() > 0 || stop {
            1int
        } else {
            0
        }),
        content.len() > 0 || stop ==> {
            let d = native_says(content, stop)[0];
            d.content == content && d.stop == stop && d.index == 0
                && d.reasoning_content.len() == 0 && d.tool_calls.len() == 0
        },
{
}

pub proof fn lemma_field(f: Seq<(Seq<char>, Seq<u8>)>, key: Seq<char>, from: int)
    requires
        0 <= from,
    ensures
        match field_at(f, key, from) {
            Some(i) => from <= i < f.len() && f[i].0 == key,
            None => forall|i: int| from <= i < f.len() ==> (#[trigger] f[i]).0 != key,
        },
    decreases f.len() - from,
{
    if from < f.len() && f[from].0 != key {
        lemma_field(f, key, from + 1);
    }
}

/// What a chat choice says is what stands under the names in its JSON: the
/// index of the choice, and of its delta the content, the reasoning, the
/// thinking and the tool calls, each under its own name and empty where the
/// name is absent.
pub proof fn law_chat_choices_are_read_by_name(
    raw: Seq<u8>,
    f: Seq<(Seq<char>, Seq<u8>)>,
    k: int,
    g: Seq<(Seq<char>, Seq<u8>)>,
    c: ChatView,
)
    requires
        object_fields(raw) == Some(f),
        0 <= k < f.len(),
        f[k].0 == "delta"@,
        object_fields(f[k].1) == Some(g),
        chat_choice(raw) == Some(c),
    ensures
        forall|i: int|
            0 <= i < f.len() && (#[trigger] f[i]).0 == "index"@ ==> integer_of(f[i].1) == Some(
                c.index,
            ),
        forall|i: int|
            0 <= i < g.len() && (#[trigger] g[i]).0 == "content"@ ==> raw_string(g[i].1) == Some(
                c.content,
            ),
        forall|i: int|
            0 <= i < g.len() && (#[trigger] g[i]).0 == "reasoning_content"@ ==> raw_string(g[i].1)
                == Some(c.reasoning_content),
        forall|i: int|
            0 <= i < g.len() && (#[trigger] g[i]).0 == "thinking"@ ==> raw_string(g[i].1) == Some(
                c.thinking,
            ),
        forall|i: int|
            0 <= i < g.len() && (#[trigger] g[i]).0 == "tool_calls"@ ==> raw_items(g[i].1) == Some(
                c.tool_calls,
            ),
        (forall|i: int| 0 <= i < g.len() ==> (#[trigger] g[i]).0 != "content"@)
            ==> c.content.len() == 0,
        (forall|i: int| 0 <= i < g.len() ==> (#[trigger] g[i]).0 != "tool_calls"@)
            ==> c.tool_calls.len() == 0,
{
    let fnames = crate::api::loop_guard::sse::chat_names();
    let gnames = crate::api::loop_guard::sse::delta_names();
    assert(fnames[0] == "index"@ && fnames[1] == "delta"@);
    assert(gnames[0] == "content"@ && gnames[1] == "reasoning_content"@ && gnames[2]
        == "thinking"@ && gnames[3] == "tool_calls"@);
    assert(fnames.contains("index"@) && fnames.contains("delta"@));
    assert(gnames.contains("content"@) && gnames.contains("reasoning_content"@)
        && gnames.contains("thinking"@) && gnames.contains("tool_calls"@));
    lemma_field(f, "delta"@, 0);
    lemma_field(f, "index"@, 0);
    lemma_once(f, fnames, "delta"@);
    lemma_once(f, fnames, "index"@);
    assert(field(f, "delta"@) == Some(f[k].1));
    assert(told_once(g, gnames));
    lemma_field(g, "content"@, 0);
    lemma_field(g, "reasoning_content"@, 0);
    lemma_field(g, "thinking"@, 0);
    lemma_field(g, "tool_calls"@, 0);
    lemma_once(g, gnames, "content"@);
    lemma_once(g, gnames, "reasoning_content"@);
    lemma_once(g, gnames, "thinking"@);
    lemma_once(g, gnames, "tool_calls"@);
}

pub proof fn lemma_once(f: Seq<(Seq<char>, Seq<u8>)>, names: Seq<Seq<char>>, key: Seq<char>)
    requires
        told_once(f, names),
        names.contains(key),
    ensures
        forall|i: int|
            0 <= i < f.len() && (#[trigger] f[i]).0 == key ==> field(f, key) == Some(f[i].1),
{
    lemma_field(f, key, 0);
    assert forall|i: int| 0 <= i < f.len() && (#[trigger] f[i]).0 == key implies field(f, key)
        == Some(f[i].1) by {
        let j = field_at(f, key, 0)->0;
        if j < i {
            assert(f[j].0 == f[i].0);
        } else if i < j {
            assert(f[i].0 == f[j].0);
        }
    }
}

// ----- what is heard of a stream -----

/// The bytes that the choice of that index has said.
pub open spec fn said_by(s: Seq<(i64, Seq<Spoken>)>, index: i64) -> Seq<u8> {
    match choice_at(s, index, 0) {
        Some(i) => s[i].1.map_values(|x: Spoken| x.byte),
        None => Seq::empty(),
    }
}

proof fn lemma_choice(s: Seq<(i64, Seq<Spoken>)>, index: i64, from: int)
    requires
        0 <= from,
    ensures
        match choice_at(s, index, from) {
            Some(i) => from <= i < s.len() && s[i].0 == index && forall|j: int|
                from <= j < i ==> (#[trigger] s[j]).0 != index,
            None => forall|j: int| from <= j < s.len() ==> (#[trigger] s[j]).0 != index,
        },
    decreases s.len() - from,
{
    if from < s.len() && s[from].0 != index {
        lemma_choice(s, index, from + 1);
    }
}

proof fn lemma_choice_is(s: Seq<(i64, Seq<Spoken>)>, index: i64, from: int, i: int)
    requires
        0 <= from <= i < s.len(),
        s[i].0 == index,
        forall|j: int| from <= j < i ==> (#[trigger] s[j]).0 != index,
    ensures
        choice_at(s, index, from) == Some(i),
    decreases i - from,
{
    if from < i {
        lemma_choice_is(s, index, from + 1, i);
    }
}

/// What a choice says is added at the end of what that choice has said, all of
/// it: the reasoning, then the content, then the tool calls. No other choice is
/// touched.
pub proof fn law_everything_said_is_heard(s: Seq<(i64, Seq<Spoken>)>, d: DeltaView, index: i64)
    ensures
        said_by(heard(s, d), index) == said_by(s, index) + (if index == d.index {
            text_bytes(d.reasoning_content) + text_bytes(d.content) + d.tool_calls
        } else {
            Seq::empty()
        }),
{
    let t = heard(s, d);
    lemma_choice(s, d.index, 0);
    lemma_choice(s, index, 0);
    let said = delta_speech(d);
    let told = text_bytes(d.reasoning_content) + text_bytes(d.content) + d.tool_calls;
    assert(said.map_values(|x: Spoken| x.byte) =~= told);
    match choice_at(s, d.index, 0) {
        Some(i) => {
            if index == d.index {
                assert(t[i].0 == index);
                lemma_choice_is(t, index, 0, i);
                assert((s[i].1 + said).map_values(|x: Spoken| x.byte) =~= s[i].1.map_values(
                    |x: Spoken| x.byte,
                ) + told);
            } else {
                match choice_at(s, index, 0) {
                    Some(j) => {
                        assert(t[j] == s[j]);
                        lemma_choice_is(t, index, 0, j);
                        assert(said_by(s, index) + Seq::<u8>::empty() =~= said_by(s, index));
                    },
                    None => {
                        lemma_choice(t, index, 0);
                        assert(choice_at(t, index, 0) is None) by {
                            if choice_at(t, index, 0) is Some {
                                let j = choice_at(t, index, 0)->0;
                                assert(t[j].0 == index);
                                if j != i {
                                    assert(s[j] == t[j]);
                                }
                            }
                        }
                        assert(said_by(s, index) + Seq::<u8>::empty() =~= Seq::<u8>::empty());
                    },
                }
            }
        },
        None => {
            let n = s.len() as int;
            assert(t[n] == (d.index, said));
            if index == d.index {
                assert forall|j: int| 0 <= j < n implies (#[trigger] t[j]).0 != index by {
                    assert(t[j] == s[j]);
                }
                lemma_choice_is(t, index, 0, n);
                assert(Seq::<u8>::empty() + told =~= told);
            } else {
                match choice_at(s, index, 0) {
                    Some(j) => {
                        assert forall|q: int| 0 <= q < j implies (#[trigger] t[q]).0 != index by {
                            assert(t[q] == s[q]);
                        }
                        assert(t[j] == s[j]);
                        lemma_choice_is(t, index, 0, j);
                        assert(said_by(s, index) + Seq::<u8>::empty() =~= said_by(s, index));
                    },
                    None => {
                        lemma_choice(t, index, 0);
                        assert(choice_at(t, index, 0) is None) by {
                            if choice_at(t, index, 0) is Some {
                                let j = choice_at(t, index, 0)->0;
                                assert(t[j].0 == index);
                                if j < n {
                                    assert(s[j] == t[j]);
                                }
                            }
                        }
                        assert(said_by(s, index) + Seq::<u8>::empty() =~= Seq::<u8>::empty());
                    },
                }
            }
        },
    }
}

// ----- what a loop is -----

/// So many copies of some bytes.
pub open spec fn copies_of(w: Seq<u8>, k: int) -> Seq<u8>
    decreases k,
{
    if k <= 0 {
        Seq::empty()
    } else {
        copies_of(w, k - 1) + w
    }
}

proof fn lemma_copies_len(w: Seq<u8>, k: int)
    requires
        k >= 0,
    ensures
        copies_of(w, k).len() == k * w.len(),
    decreases k,
{
    if k > 0 {
        lemma_copies_len(w, k - 1);
        assert((k - 1) * w.len() + w.len() == k * w.len()) by (nonlinear_arith);
    } else {
        assert(0 * w.len() == 0);
    }
}

proof fn lemma_copies_blocks(a: Seq<u8>, w: Seq<u8>, k: int, c: int)
    requires
        0 <= c < k,
        w.len() > 0,
    ensures
        block(a + copies_of(w, k), w.len() as int, c) == w,
    decreases k,
{
    let p = w.len() as int;
    let buf = a + copies_of(w, k);
    lemma_copies_len(w, k);
    lemma_copies_len(w, k - 1);
    let front = a + copies_of(w, k - 1);
    assert(buf =~= front + w);
    assert((c + 1) * p == c * p + p) by (nonlinear_arith);
    assert((k - 1) * p + p == k * p) by (nonlinear_arith);
    if c == 0 {
        assert(c * p == 0);
        assert(block(buf, p, c) =~= w);
    } else {
        lemma_copies_blocks(a, w, k - 1, c - 1);
        assert((c - 1 + 1) * p == c * p);
        assert((c - 1) * p + p == c * p) by (nonlinear_arith);
        assert(c * p <= (k - 1) * p) by (nonlinear_arith)
            requires
                c <= k - 1,
                p > 0,
        ;
        assert(block(buf, p, c) =~= block(front, p, c - 1));
    }
}

proof fn lemma_blocks_copies(buf: Seq<u8>, p: int, k: int)
    requires
        tandem(buf, p, k),
        k >= 0,
        buf.len() >= p,
    ensures
        ({
            let w = buf.subrange(buf.len() - p, buf.len() as int);
            buf == buf.take(buf.len() - k * p) + copies_of(w, k)
        }),
    decreases k,
{
    let n = buf.len() as int;
    let w = buf.subrange(n - p, n);
    if k == 0 {
        assert(0 * p == 0);
        assert(buf =~= buf.take(n - 0 * p) + copies_of(w, 0));
    } else {
        lemma_copies_len(w, k);
        assert((k - 1) * p + p == k * p) by (nonlinear_arith);
        assert(k * p >= p) by (nonlinear_arith)
            requires
                k >= 1,
                p >= 1,
        ;
        let b = copies_of(w, k);
        let r = buf.take(n - k * p) + b;
        assert(r.len() == n);
        assert forall|i: int| 0 <= i < n implies r[i] == buf[i] by {
            if i >= n - k * p {
                let j = i - (n - k * p);
                let c = k - 1 - j / p;
                vstd::arithmetic::div_mod::lemma_fundamental_div_mod(j, p);
                assert(0 <= j / p && j / p < k) by (nonlinear_arith)
                    requires
                        0 <= j < k * p,
                        j == p * (j / p) + j % p,
                        0 <= j % p < p,
                        p >= 1,
                ;
                let q = j / p;
                let o = j % p;
                assert((c + 1) * p == k * p - q * p) by (nonlinear_arith)
                    requires
                        c == k - 1 - q,
                ;
                assert(p * q == q * p) by (nonlinear_arith);
                assert(c * p + p == (c + 1) * p) by (nonlinear_arith);
                assert(c * p >= 0) by (nonlinear_arith)
                    requires
                        c >= 0,
                        p >= 1,
                ;
                assert(block(buf, p, c)[o] == buf[n - (c + 1) * p + o]);
                assert(block(buf, p, c) == w);
                lemma_copies_at(w, k, q, o);
                assert(b[j] == w[o]);
            }
        }
        assert(r =~= buf);
    }
}

proof fn lemma_copies_at(w: Seq<u8>, k: int, q: int, o: int)
    requires
        0 <= q < k,
        0 <= o < w.len(),
    ensures
        0 <= q * w.len() + o < copies_of(w, k).len(),
        copies_of(w, k)[q * w.len() + o] == w[o],
    decreases k,
{
    lemma_copies_len(w, k);
    lemma_copies_len(w, k - 1);
    let p = w.len() as int;
    assert((k - 1) * p + p == k * p) by (nonlinear_arith);
    if q < k - 1 {
        lemma_copies_at(w, k - 1, q, o);
    }
    assert(q * p + o < k * p) by (nonlinear_arith)
        requires
            0 <= q < k,
            0 <= o < p,
    ;
    assert(q * p >= 0) by (nonlinear_arith)
        requires
            q >= 0,
            p > 0,
    ;
}

/// A loop is what the word says: bytes that end with so many copies of some
/// non-empty bytes are found to repeat with that period, whatever comes before;
/// and bytes that are found to repeat are some bytes followed by so many copies.
pub proof fn law_a_loop_is_copies_at_the_end(
    a: Seq<u8>,
    w: Seq<u8>,
    k: int,
    buf: Seq<u8>,
    p: int,
)
    requires
        k >= 1,
        w.len() > 0,
    ensures
        tandem(a + copies_of(w, k), w.len() as int, k),
        tandem(buf, p, k) ==> buf == buf.take(buf.len() - k * p) + copies_of(
            buf.subrange(buf.len() - p, buf.len() as int),
            k,
        ),
{
    let all = a + copies_of(w, k);
    let n = w.len() as int;
    lemma_copies_len(w, k);
    assert forall|c: int| 0 <= c < k implies #[trigger] block(all, n, c) == all.subrange(
        all.len() - n,
        all.len() as int,
    ) by {
        lemma_copies_blocks(a, w, k, c);
        lemma_copies_blocks(a, w, k, 0);
        assert(block(all, n, 0) =~= all.subrange(all.len() - n, all.len() as int));
    }
    assert(k * n <= all.len());
    if tandem(buf, p, k) {
        assert(k * p >= p) by (nonlinear_arith)
            requires
                k >= 1,
                p >= 1,
        ;
        lemma_blocks_copies(buf, p, k);
    }
}

/// A choice that has said so many copies of the same bytes at its end, within
/// the window that is looked at, has a loop.
pub proof fn law_copies_within_the_window_are_a_loop(
    said: Seq<Spoken>,
    window: nat,
    copies: int,
    a: Seq<u8>,
    w: Seq<u8>,
)
    requires
        copies >= 1,
        w.len() > 0,
        said.map_values(|x: Spoken| x.byte) == a + copies_of(w, copies),
        copies * w.len() <= window,
    ensures
        !no_loop(said, window, copies),
{
    let all = a + copies_of(w, copies);
    let buf = keep_last(spoken_bytes(said), window);
    assert(spoken_bytes(said) =~= all);
    lemma_copies_len(w, copies);
    let cut = if all.len() <= window {
        0
    } else {
        all.len() - window
    };
    let b = a.subrange(cut as int, a.len() as int);
    assert(buf =~= b + copies_of(w, copies));
    law_a_loop_is_copies_at_the_end(b, w, copies, buf, 1);
    assert(tandem(buf, w.len() as int, copies));
}

/// A stream is guarded exactly where guarding is switched on, the request asks
/// for a stream, and its path is one of the three.
pub proof fn law_streams_are_guarded(path: Seq<char>, doc: JsonView, cfg: StreamingLoopSettings)
    ensures
        !cfg.enabled ==> guarded_kind(path, doc, cfg) is None,
        doc.get("stream"@) != Some(JsonView::Bool(true)) ==> guarded_kind(path, doc, cfg) is None,
        cfg.enabled && doc.get("stream"@) == Some(JsonView::Bool(true)) ==> {
            &&& has_suffix(path, "/chat/completions"@) ==> guarded_kind(path, doc, cfg) == Some(
                EndpointKind::Chat,
            )
            &&& has_suffix(path, "/completions"@) ==> guarded_kind(path, doc, cfg) is Some
            &&& has_suffix(path, "/completions"@) && !has_suffix(path, "/chat/completions"@)
                ==> guarded_kind(path, doc, cfg) == Some(EndpointKind::Completion)
            &&& has_suffix(path, "/completion"@) ==> guarded_kind(path, doc, cfg) is Some
            &&& !has_suffix(path, "/completions"@) && !has_suffix(path, "/completion"@)
                && !has_suffix(path, "/chat/completions"@) ==> guarded_kind(path, doc, cfg) is None
        },
{
}

/// A loop is healed while retries are left and healing is asked for; else it
/// ends the stream.
pub proof fn law_a_loop_is_healed_while_retries_are_left(s: &StreamSession)
    ensures
        s.gives_up() <==> !(s.cfg.action == StreamingLoopAction::Heal && s.attempt
            < s.cfg.max_retries),
{
}

// ----- tool calls that repeat -----

/// Canonical arguments tell calls apart. Two texts that are JSON count as the
/// same arguments exactly where the same JSON is written for what they mean;
/// two other texts exactly where they are the same but for white space at their
/// ends; and JSON counts the same whether it is given as a text or as a value.
pub proof fn law_canonical_arguments_tell_calls_apart(s: Seq<char>, t: Seq<char>, v: JsonView)
    ensures
        json_document(text_bytes(s)) is Some && json_document(text_bytes(t)) is Some ==> (
        canonical_args(Some(JsonView::Str(s))) == canonical_args(Some(JsonView::Str(t))) <==> json_text(
            json_document(text_bytes(s))->0,
        ) == json_text(json_document(text_bytes(t))->0)),
        json_document(text_bytes(s)) is None && json_document(text_bytes(t)) is None ==> (
        canonical_args(Some(JsonView::Str(s))) == canonical_args(Some(JsonView::Str(t))) <==> trim(s)
            == trim(t)),
        json_document(text_bytes(s)) == Some(v) && !(v is Str) ==> canonical_args(
            Some(JsonView::Str(s)),
        ) == canonical_args(Some(v)),
        !(v is Str) ==> (canonical_args(Some(v)) == canonical_args(Some(JsonView::Str(s)))
            && json_document(text_bytes(s)) is Some ==> json_text(v) == json_text(
            json_document(text_bytes(s))->0,
        )),
{
}

/// Calls with different JSON arguments, calls of different tools, and calls
/// with different results are different events.
pub proof fn law_different_calls_are_different_events(
    a: JsonView,
    b: JsonView,
    c: ToolCallView,
    d: ToolCallView,
    x: JsonView,
    y: JsonView,
    fa: JsonView,
    fb: JsonView,
    sa: Seq<char>,
    sb: Seq<char>,
)
    requires
        tool_call(a) == Some(c),
        tool_call(b) == Some(d),
        a.get("function"@) == Some(fa),
        b.get("function"@) == Some(fb),
        fa.get("arguments"@) == Some(JsonView::Str(sa)),
        fb.get("arguments"@) == Some(JsonView::Str(sb)),
        json_document(text_bytes(sa)) is Some,
        json_document(text_bytes(sb)) is Some,
    ensures
        json_text(json_document(text_bytes(sa))->0) != json_text(
            json_document(text_bytes(sb))->0,
        ) ==> event_of(c, x) != event_of(d, y),
        fa.text_at("name"@) != fb.text_at("name"@) ==> event_of(c, x) != event_of(d, y),
        x.text_at("content"@) matches Some(p) && y.text_at("content"@) matches Some(q) && trim(p)
            != trim(q) ==> event_of(c, x) != event_of(d, y),
        a.text_at("id"@) == Some(c.id),
        fa.text_at("name"@) == Some(c.name),
{
    if x.text_at("content"@) is Some && y.text_at("content"@) is Some {
        let p = x.text_at("content"@)->0;
        let q = y.text_at("content"@)->0;
        assert(x.get("content"@) == Some(JsonView::Str(p)));
        assert(y.get("content"@) == Some(JsonView::Str(q)));
        if trim(p) != trim(q) {
            assert(event_of(c, x).output == trim(p));
            assert(event_of(d, y).output == trim(q));
        }
    }
}

/// How many messages are looked at: as many as are asked for, and at least two.
pub open spec fn asked_window(cfg: &ToolLoopSettings) -> int {
    if cfg.window_messages >= 2 {
        cfg.window_messages as int
    } else {
        2
    }
}

/// How many equal stretches make a loop: as many as are asked for, and at least
/// two.
pub open spec fn asked_copies(cfg: &ToolLoopSettings) -> int {
    if cfg.repeats >= 2 {
        cfg.repeats as int
    } else {
        2
    }
}

/// A request is found to repeat its tool calls exactly where its recent events
/// end with at least as many equal stretches as are asked for, and at least
/// two: each event there is the same as the one a stretch later.
pub proof fn law_a_tool_loop_is_equal_stretches(doc: JsonView, cfg: &ToolLoopSettings)
    requires
        doc.items_at("messages"@) is Some,
    ensures
        ({
            let k = asked_copies(cfg);
            let s = recent_events(doc.items_at("messages"@)->0, asked_window(cfg));
            &&& has_tool_loop(doc, cfg) ==> exists|p: int|
                1 <= p && k * p <= s.len() && #[trigger] repeats_with(s, p, k)
            &&& forall|p: int|
                1 <= p && k * p <= s.len() && #[trigger] repeats_with(s, p, k) ==> has_tool_loop(
                    doc,
                    cfg,
                )
        }),
{
    let k = asked_copies(cfg);
    let s = recent_events(doc.items_at("messages"@)->0, asked_window(cfg));
    assert(crate::api::loop_guard::cross_turn::two_or_more(cfg.repeats as int) == k);
    assert(crate::api::loop_guard::cross_turn::two_or_more(cfg.window_messages as int)
        == asked_window(cfg));
    if has_tool_loop(doc, cfg) {
        let p = choose|p: int| 1 <= p && #[trigger] ends_with_copies(s, p, k);
        assert(repeats_with(s, p, k));
    }
    assert forall|p: int|
        1 <= p && k * p <= s.len() && #[trigger] repeats_with(s, p, k) implies has_tool_loop(
        doc,
        cfg,
    ) by {
        assert(ends_with_copies(s, p, k)) by {
            assert forall|i: int| s.len() - k * p <= i < s.len() - p implies #[trigger] s[i]
                == s[i + p] by {}
        }
    }
}

/// Whether each event in the last `k` stretches of length `p` is the same as
/// the one a stretch later.
pub open spec fn repeats_with(s: Seq<ToolEventView>, p: int, k: int) -> bool {
    forall|i: int|
        s.len() - k * p <= i < s.len() - p ==> {
            &&& (#[trigger] s[i]).name == s[i + p].name
            &&& s[i].arguments == s[i + p].arguments
            &&& s[i].output == s[i + p].output
        }
}

/// An answer of a tool right behind the message that calls it is an event with
/// the name, the arguments and the output of that call.
pub proof fn law_an_answered_call_is_an_event(msgs: Seq<JsonView>, i: int, item: JsonView, c: ToolCallView)
    requires
        0 <= i,
        i + 1 < msgs.len(),
        msgs[i].text_at("role"@) == Some("assistant"@),
        msgs[i].items_at("tool_calls"@) == Some(seq![item]),
        tool_call(item) == Some(c),
        msgs[i + 1].text_at("role"@) == Some("tool"@),
        msgs[i + 1].text_at("tool_call_id"@) == Some(c.id),
    ensures
        events_of(msgs, i).len() > 0,
        events_of(msgs, i)[0].name == c.name,
        events_of(msgs, i)[0].arguments == c.arguments,
        events_of(msgs, i)[0].output == canonical_output(msgs[i + 1].get("content"@)),
{
    let items = seq![item];
    reveal_with_fuel(tool_calls, 3);
    assert(items[0] == item);
    let calls = calls_of(msgs[i]);
    assert(calls =~= seq![c]);
    reveal_with_fuel(crate::api::loop_guard::cross_turn::call_with_id, 2);
    assert(tool_results(msgs, i + 1, calls)[0] == event_of(c, msgs[i + 1]));
}

proof fn lemma_stretch(msgs: Seq<JsonView>, low: int, n: int)
    requires
        0 <= low <= n <= msgs.len(),
    ensures
        low <= stretch_start(msgs, low, n) <= n,
        forall|i: int|
            stretch_start(msgs, low, n) <= i < n ==> {
                let role = (#[trigger] msgs[i]).text_at("role"@);
                role != Some("user"@) && role != Some("system"@) && role != Some("developer"@)
            },
        stretch_start(msgs, low, n) > low ==> {
            let role = msgs[stretch_start(msgs, low, n) - 1].text_at("role"@);
            role == Some("user"@) || role == Some("system"@) || role == Some("developer"@)
        },
    decreases n - low,
{
    if n > low && !crate::api::loop_guard::cross_turn::is_boundary(msgs[n - 1]) {
        lemma_stretch(msgs, low, n - 1);
    }
}

/// Tool calls are counted in the last stretch of the conversation alone, which
/// no message of the user, the system or the developer interrupts, and within
/// the last so many messages; and there they are counted wherever they stand.
pub proof fn law_calls_are_counted_since_the_last_turn(msgs: Seq<JsonView>, window: int)
    requires
        window >= 0,
    ensures
        exists|start: int|
            {
                &&& 0 <= start <= msgs.len()
                &&& start >= msgs.len() - window
                &&& recent_events(msgs, window) == #[trigger] events_between(
                    msgs,
                    start,
                    msgs.len() as int,
                )
                &&& forall|i: int|
                    start <= i < msgs.len() ==> {
                        let role = (#[trigger] msgs[i]).text_at("role"@);
                        role != Some("user"@) && role != Some("system"@) && role != Some(
                            "developer"@,
                        )
                    }
                &&& start > 0 && start > msgs.len() - window ==> {
                    let role = msgs[start - 1].text_at("role"@);
                    role == Some("user"@) || role == Some("system"@) || role == Some("developer"@)
                }
            },
{
    let low = if msgs.len() > window {
        msgs.len() - window
    } else {
        0
    };
    lemma_stretch(msgs, low, msgs.len() as int);
    let start = stretch_start(msgs, low, msgs.len() as int);
    assert(recent_events(msgs, window) == events_between(msgs, start, msgs.len() as int));
}

/// The events of a stretch are those of its messages, one after the other.
pub proof fn law_events_follow_the_messages(msgs: Seq<JsonView>, low: int, mid: int, n: int)
    requires
        low <= mid <= n,
    ensures
        events_between(msgs, low, n) == events_between(msgs, low, mid) + events_between(
            msgs,
            mid,
            n,
        ),
        mid + 1 == n ==> events_between(msgs, mid, n) == events_of(msgs, mid),
        events_between(msgs, low, low).len() == 0,
    decreases n - mid,
{
    if mid < n {
        law_events_follow_the_messages(msgs, low, mid, n - 1);
        assert(events_between(msgs, low, n) =~= events_between(msgs, low, mid) + events_between(
            msgs,
            mid,
            n,
        ));
        if mid + 1 == n {
            assert(events_between(msgs, mid, mid) + events_of(msgs, mid) =~= events_of(msgs, mid));
        }
    } else {
        assert(events_between(msgs, low, mid) + events_between(msgs, mid, n) =~= events_between(
            msgs,
            low,
            n,
        ));
    }
}

pub proof fn lemma_entry_other(
    s: Seq<(Seq<char>, JsonView)>,
    key: Seq<char>,
    i: int,
    v: JsonView,
    from: int,
)
    requires
        0 <= from,
        0 <= i < s.len(),
    ensures
        JsonView::entry(s.update(i, (s[i].0, v)), key, from) == JsonView::entry(s, key, from),
    decreases s.len() - from,
{
    if from < s.len() {
        lemma_entry_other(s, key, i, v, from + 1);
    }
}

/// Adding to a list in a document keeps what was in the list, in its order,
/// puts the new items behind it, and leaves every other field alone.
pub proof fn law_items_are_added_behind(
    doc: JsonView,
    key: Seq<char>,
    extra: Seq<JsonView>,
    other: Seq<char>,
)
    requires
        doc.items_at(key) is Some,
    ensures
        with_items(doc, key, extra).items_at(key) == Some(doc.items_at(key)->0 + extra),
        other != key ==> with_items(doc, key, extra).get(other) == doc.get(other),
{
    let s = doc->Object_0;
    lemma_entry_found(s, key, 0);
    let i = JsonView::entry(s, key, 0)->0;
    let v = JsonView::Array(doc.items_at(key)->0 + extra);
    assert(s[i].0 == key);
    lemma_entry_other(s, key, i, v, 0);
    lemma_entry_other(s, other, i, v, 0);
    if other != key && JsonView::entry(s, other, 0) is Some {
        lemma_entry_found(s, other, 0);
    }
}

/// A request that repeats its tool calls keeps all its messages and all its
/// other fields; one message of the user is added at the end.
pub proof fn law_a_guarded_request_gains_one_message(
    doc: JsonView,
    cfg: &ToolLoopSettings,
    d: Detection,
    after: JsonView,
    other: Seq<char>,
)
    requires
        is_guarded(doc, cfg, d, after),
        doc.items_at("messages"@) is Some,
    ensures
        after.items_at("messages"@) is Some,
        after.items_at("messages"@)->0.len() == doc.items_at("messages"@)->0.len() + 1,
        after.items_at("messages"@)->0.drop_last() == doc.items_at("messages"@)->0,
        after.items_at("messages"@)->0.last().text_at("role"@) == Some("user"@),
        after.items_at("messages"@)->0.last().text_at("content"@) == Some(
            loop_notice(d.repeats as nat, tool_views(d.block@)),
        ),
        other != "messages"@ ==> after.get(other) == doc.get(other),
{
    let m = message("user"@, loop_notice(d.repeats as nat, tool_views(d.block@)));
    law_items_are_added_behind(doc, "messages"@, seq![m], other);
    let all = doc.items_at("messages"@)->0 + seq![m];
    assert(all.drop_last() =~= doc.items_at("messages"@)->0);
    reveal_strlit("role");
    reveal_strlit("content");
    assert("role"@.len() != "content"@.len());
    let e = m->Object_0;
    assert(e[0].0 == "role"@ && e[1].0 == "content"@);
    reveal_with_fuel(JsonView::entry, 3);
}

} // verus!
