//! What holds of the adapter for every request and every answer.
use vstd::prelude::*;
use vstd::string::*;

use crate::adapter::{
    after_params, answer_lines, args_from, bell_at, canvas_view, channels, chunk_view, cleaned,
    cli_line, completion_view, content_of, escape_end, final_answer, frame_end, frames_end,
    frames_from, gathered, part_texts, pieces, plain_args, prompt_of, shown, visible, ArgsView,
};
use crate::api::json::{json_text, JsonView};
use crate::config::settings::EnvVars;
use crate::text::{
    after_last, cut_last, decimal, first_at, has_prefix, join, occurs_at, trim, unsigned_up_to, words,
};

verus! {

broadcast use vstd::string::group_string_axioms;

proof fn lemma_flags()
    ensures
        "-m"@.len() == 2,
        "-ngl"@.len() == 4,
        "--port"@.len() == 6,
        "--model"@.len() == 7,
        "--gpu-layers"@.len() == 12,
        "--n-gpu-layers"@.len() == 14,
        "--diffusion-cli"@.len() == 15,
{
    reveal_strlit("-m");
    reveal_strlit("-ngl");
    reveal_strlit("--port");
    reveal_strlit("--model");
    reveal_strlit("--gpu-layers");
    reveal_strlit("--n-gpu-layers");
    reveal_strlit("--diffusion-cli");
}

/// Each flag of the adapter takes the argument behind it and sets its own
/// value; what follows is read in the same way.
pub proof fn law_each_flag_of_the_adapter_sets_its_own_value(
    a: ArgsView,
    argv: Seq<Seq<char>>,
    i: int,
)
    requires
        0 <= i,
        i + 1 < argv.len(),
    ensures
        argv[i] == "-m"@ || argv[i] == "--model"@ ==> args_from(a, argv, i) == args_from(
            ArgsView { model: argv[i + 1], ..a },
            argv,
            i + 2,
        ),
        argv[i] == "--port"@ ==> args_from(a, argv, i) == args_from(
            ArgsView {
                port: match unsigned_up_to(argv[i + 1], 65535) {
                    Some(n) => n as u16,
                    None => 0,
                },
                ..a
            },
            argv,
            i + 2,
        ),
        argv[i] == "-ngl"@ || argv[i] == "--gpu-layers"@ || argv[i] == "--n-gpu-layers"@
            ==> args_from(a, argv, i) == args_from(ArgsView { ngl: argv[i + 1], ..a }, argv, i + 2),
        argv[i] == "--diffusion-cli"@ ==> args_from(a, argv, i) == args_from(
            ArgsView { cli: argv[i + 1], ..a },
            argv,
            i + 2,
        ),
{
    lemma_flags();
}

/// Where the arguments say nothing, these values apply; and the terminal
/// program gets the model, the layers, the length and what was passed through.
pub proof fn law_the_terminal_program_gets_what_was_asked(
    env: EnvVars,
    cli: Seq<char>,
    a: ArgsView,
)
    ensures
        ({
            let p = plain_args(env, cli);
            &&& p.model.len() == 0 && p.port == 0 && p.diffusion_passthrough.len() == 0
            &&& env.value("DIFFUSION_NGL"@) is None ==> p.ngl == "99"@
            &&& env.value("DIFFUSION_NPREDICT"@) is None ==> p.n_predict == "512"@
            &&& env.value("DIFFUSION_CLI"@) is None ==> p.cli == cli
            &&& env.value("DIFFUSION_NGL"@) matches Some(v) ==> p.ngl == v
            &&& env.value("DIFFUSION_NPREDICT"@) matches Some(v) ==> p.n_predict == v
            &&& env.value("DIFFUSION_CLI"@) matches Some(v) ==> p.cli == v
        }),
        ({
            let l = cli_line(a);
            &&& l.len() == 10 + a.diffusion_passthrough.len()
            &&& l[0] == "-m"@ && l[1] == a.model
            &&& l[2] == "-ngl"@ && l[3] == a.ngl
            &&& l[8] == "-n"@ && l[9] == a.n_predict
            &&& l.skip(10) == a.diffusion_passthrough
        }),
{
    assert(cli_line(a).skip(10) =~= a.diffusion_passthrough);
}

/// A message of the system is gathered with those of the system, and any other
/// with the conversation, each in its order and after a space.
pub proof fn law_system_messages_are_gathered_apart(s: Seq<JsonView>, n: int)
    requires
        0 < n <= s.len(),
    ensures
        ({
            let before = gathered(s, n - 1);
            let after = gathered(s, n);
            let said = content_of(s[n - 1].get("content"@));
            if s[n - 1].text_at("role"@) == Some("system"@) {
                &&& after.1 == before.1
                &&& before.0.len() == 0 ==> after.0 == said
                &&& before.0.len() > 0 ==> after.0 == before.0 + " "@ + said
            } else {
                &&& after.0 == before.0
                &&& before.1.len() == 0 ==> after.1 == said
                &&& before.1.len() > 0 ==> after.1 == before.1 + " "@ + said
            }
        }),
        forall|t: Seq<char>| #[trigger] content_of(Some(JsonView::Str(t))) == t,
        content_of(None).len() == 0,
{
}

/// The answer is what stands behind the last mark of the channel, and without a
/// mark all of the text; the reasoning is what stands before the mark.
pub proof fn law_the_answer_stands_behind_the_mark(text: Seq<char>)
    ensures
        cut_last(text, "<channel|>"@) matches Some(p) ==> {
            &&& channels(text).1 == trim(p.1)
            &&& cleaned(p.0).len() > 0 ==> channels(text).0 == Some(cleaned(p.0))
            &&& cleaned(p.0).len() == 0 ==> channels(text).0 is None
        },
        cut_last(text, "<channel|>"@) is None ==> channels(text).0 is None && channels(text).1
            == cleaned(text),
{
}

/// A streamed answer carries the reasoning, then the content, piece by piece,
/// then the end of the choice, and ends with the mark of the end.
pub proof fn law_an_answer_is_streamed_to_its_end(id: Seq<char>, model: Seq<char>, text: Seq<char>)
    ensures
        ({
            let l = answer_lines(id, model, text);
            let reasoning = match channels(text).0 {
                Some(r) => pieces(r),
                None => Seq::empty(),
            };
            let content = pieces(channels(text).1);
            &&& l.len() == reasoning.len() + content.len() + 2
            &&& l.last() == "data: "@ + "[DONE]"@ + "\n\n"@
            &&& forall|i: int|
                0 <= i < reasoning.len() ==> #[trigger] l[i] == "data: "@ + json_text(
                    chunk_view(
                        id,
                        model,
                        JsonView::Object(seq![("reasoning_content"@, JsonView::Str(reasoning[i]))]),
                        None,
                    ),
                ) + "\n\n"@
            &&& forall|i: int|
                0 <= i < content.len() ==> #[trigger] l[reasoning.len() + i] == "data: "@
                    + json_text(
                    chunk_view(
                        id,
                        model,
                        JsonView::Object(seq![("content"@, JsonView::Str(content[i]))]),
                        None,
                    ),
                ) + "\n\n"@
        }),
{
}

/// An answer that is not streamed holds the content and the reasoning of the
/// text in its one message.
pub proof fn law_an_answer_holds_its_message(id: Seq<char>, model: Seq<char>, text: Seq<char>)
    ensures
        ({
            let r = completion_view(id, model, text);
            let c = r->Object_0[4].1->Array_0[0]->Object_0;
            let m = c[1].1->Object_0;
            &&& r->Object_0[3] == ("model"@, JsonView::Str(model))
            &&& r->Object_0[4].0 == "choices"@
            &&& c[1].0 == "message"@
            &&& c[2] == ("finish_reason"@, JsonView::Str("stop"@))
            &&& m[0] == ("role"@, JsonView::Str("assistant"@))
            &&& m[1] == ("content"@, JsonView::Str(channels(text).1))
            &&& channels(text).0 is None ==> m.len() == 2
            &&& channels(text).0 matches Some(t) ==> m.len() == 3 && m[2] == (
                "reasoning_content"@,
                JsonView::Str(t),
            )
        }),
{
}

proof fn lemma_params(b: Seq<u8>, i: int, j: int)
    requires
        0 <= i <= j < b.len(),
        forall|k: int| i <= k < j ==> 0x20 <= #[trigger] b[k] <= 0x3f,
        !(0x20 <= b[j] <= 0x3f),
    ensures
        after_params(b, i) == j,
    decreases j - i,
{
    if i < j {
        lemma_params(b, i + 1, j);
    }
}

/// A control sequence leaves nothing behind: the escape, its parameters and its
/// last byte are all passed over, and what follows is shown.
pub proof fn law_control_sequences_leave_nothing(b: Seq<u8>, i: int, j: int)
    requires
        0 <= i,
        i + 2 <= j < b.len(),
        b[i] == 0x1b,
        b[i + 1] == 0x5b,
        forall|k: int| i + 2 <= k < j ==> 0x20 <= #[trigger] b[k] <= 0x3f,
        !(0x20 <= b[j] <= 0x3f),
    ensures
        visible(b, i) == visible(b, j + 1),
{
    lemma_params(b, i + 2, j);
    assert(escape_end(b, i + 1) == j + 1);
}

/// Any byte but an escape and a carriage return is shown.
pub proof fn law_other_bytes_are_shown(b: Seq<u8>, i: int)
    requires
        0 <= i < b.len(),
    ensures
        b[i] == 0x0d ==> visible(b, i) == visible(b, i + 1),
        b[i] != 0x0d && b[i] != 0x1b ==> visible(b, i).len() > 0 && visible(b, i)[0] == b[i]
            && visible(b, i).drop_first() == visible(b, i + 1),
{
    if b[i] != 0x0d && b[i] != 0x1b {
        assert(visible(b, i).drop_first() =~= visible(b, i + 1));
    }
}

/// A title sequence leaves nothing behind up to its bell.
pub proof fn law_title_sequences_leave_nothing(b: Seq<u8>, i: int, j: int)
    requires
        0 <= i,
        i + 2 <= j < b.len(),
        b[i] == 0x1b,
        b[i + 1] == 0x5d,
        forall|k: int| i + 2 <= k < j ==> #[trigger] b[k] != 0x07,
        b[j] == 0x07,
    ensures
        visible(b, i) == visible(b, j + 1),
{
    lemma_bell(b, i + 1, j);
    assert(escape_end(b, i + 1) == j + 1);
}

proof fn lemma_bell(b: Seq<u8>, i: int, j: int)
    requires
        0 <= i <= j < b.len(),
        forall|k: int| i <= k < j ==> #[trigger] b[k] != 0x07,
        b[j] == 0x07,
    ensures
        bell_at(b, i) == j,
    decreases j - i,
{
    if i < j {
        lemma_bell(b, i + 1, j);
    }
}

/// Flags for the terminal program are passed on in their order, each with the
/// value behind it where there is one; other flags that are not known, and flags
/// without the value that they need, are passed over.
pub proof fn law_flags_of_the_terminal_program_are_passed_on(
    a: ArgsView,
    argv: Seq<Seq<char>>,
    i: int,
)
    requires
        0 <= i < argv.len(),
    ensures
        has_prefix(argv[i], "--diffusion-"@) && argv[i] != "--diffusion-cli"@ && i + 1 < argv.len()
            && !has_prefix(argv[i + 1], "-"@) ==> args_from(a, argv, i) == args_from(
            ArgsView {
                diffusion_passthrough: a.diffusion_passthrough + seq![argv[i], argv[i + 1]],
                ..a
            },
            argv,
            i + 2,
        ),
        has_prefix(argv[i], "--diffusion-"@) && argv[i] != "--diffusion-cli"@ && (i + 1
            == argv.len() || has_prefix(argv[i + 1], "-"@)) ==> args_from(a, argv, i) == args_from(
            ArgsView { diffusion_passthrough: a.diffusion_passthrough + seq![argv[i]], ..a },
            argv,
            i + 1,
        ),
        !has_prefix(argv[i], "--diffusion-"@) && !seq![
            "-m"@,
            "--model"@,
            "--port"@,
            "-ngl"@,
            "--gpu-layers"@,
            "--n-gpu-layers"@,
        ].contains(argv[i]) ==> args_from(a, argv, i) == args_from(a, argv, i + 1),
        i + 1 == argv.len() && !has_prefix(argv[i], "--diffusion-"@) ==> args_from(a, argv, i) == a,
        args_from(a, argv, argv.len() as int) == a,
{
    lemma_flags();
    reveal_strlit("--diffusion-cli");
    reveal_strlit("--diffusion-");
    assert(args_from(a, argv, argv.len() as int) == a);
    let known = seq![
        "-m"@,
        "--model"@,
        "--port"@,
        "-ngl"@,
        "--gpu-layers"@,
        "--n-gpu-layers"@,
    ];
    assert(known[0] == "-m"@ && known[1] == "--model"@ && known[2] == "--port"@ && known[3]
        == "-ngl"@ && known[4] == "--gpu-layers"@ && known[5] == "--n-gpu-layers"@);
    assert("--diffusion-cli"@.subrange(0, "--diffusion-"@.len() as int) =~= "--diffusion-"@);
    if has_prefix(argv[i], "--diffusion-"@) {
        reveal_strlit("--model");
        reveal_strlit("--gpu-layers");
        reveal_strlit("--n-gpu-layers");
        reveal_strlit("--port");
        assert(argv[i].len() >= 12);
        assert(argv[i].subrange(0, "--diffusion-"@.len() as int)[2] == argv[i][2]);
        assert("--diffusion-"@[2] == 'd');
        if i + 1 < argv.len() {
            assert(a.diffusion_passthrough.push(argv[i]).push(argv[i + 1])
                =~= a.diffusion_passthrough + seq![argv[i], argv[i + 1]]);
        }
        assert(a.diffusion_passthrough.push(argv[i]) =~= a.diffusion_passthrough + seq![argv[i]]);
    }
}

/// The terminal program talks, and shows every step.
pub proof fn law_every_step_is_shown(a: ArgsView)
    ensures
        cli_line(a).subrange(4, 8) == seq![
            "-cnv"@,
            "--diffusion-visual"@,
            "--diffusion-visual-interval"@,
            "1"@,
        ],
{
    assert(cli_line(a).subrange(4, 8) =~= seq![
        "-cnv"@,
        "--diffusion-visual"@,
        "--diffusion-visual-interval"@,
        "1"@,
    ]);
}

/// Of a message in several parts every text counts.
pub proof fn law_every_part_of_a_message_counts(s: Seq<JsonView>, n: int, i: int)
    requires
        0 <= i < n <= s.len(),
    ensures
        s[i].text_at("text"@) matches Some(t) ==> part_texts(s, n).contains(t),
        forall|p: Seq<JsonView>| #[trigger]
            content_of(Some(JsonView::Array(p))) == join(part_texts(p, p.len() as int), " "@),
    decreases n,
{
    if let Some(t) = s[i].text_at("text"@) {
        let front = part_texts(s, n - 1);
        let all = part_texts(s, n);
        if i < n - 1 {
            law_every_part_of_a_message_counts(s, n - 1, i);
            let k = choose|k: int| 0 <= k < front.len() && front[k] == t;
            assert(all[k] == t);
        } else {
            assert(all.last() == t);
        }
    }
}

/// The prompt is one line: what the system says stands before the conversation,
/// and words are parted by single spaces.
pub proof fn law_the_system_speaks_first(req: JsonView, m: Seq<JsonView>)
    requires
        req.items_at("messages"@) == Some(m),
    ensures
        ({
            let (sys, convo) = gathered(m, m.len() as int);
            &&& sys.len() == 0 ==> prompt_of(req) == join(words(convo), " "@)
            &&& sys.len() > 0 ==> prompt_of(req) == join(words(sys + " "@ + convo), " "@)
        }),
{
}

// ----- frames -----

proof fn lemma_first_in_longer(s: Seq<char>, t: Seq<char>, needle: Seq<char>, from: int)
    requires
        0 <= from,
        first_at(s, needle, from) is Some,
    ensures
        first_at(s + t, needle, from) == first_at(s, needle, from),
        from <= first_at(s, needle, from)->0,
        first_at(s, needle, from)->0 + needle.len() <= s.len(),
    decreases s.len() + 1 - from,
{
    if occurs_at(s, needle, from) {
        assert((s + t).subrange(from, from + needle.len()) =~= s.subrange(
            from,
            from + needle.len(),
        ));
        assert(occurs_at(s + t, needle, from));
    } else {
        lemma_first_in_longer(s, t, needle, from + 1);
        if occurs_at(s + t, needle, from) {
            assert(s.subrange(from, from + needle.len()) =~= (s + t).subrange(
                from,
                from + needle.len(),
            ));
        }
    }
}

/// Frames are numbered one after the other, and none is blank.
pub proof fn law_frames_are_numbered(s: Seq<char>, cursor: int, step: int, k: int)
    requires
        0 <= cursor,
        0 <= k < frames_from(s, cursor, step).len(),
    ensures
        frames_from(s, cursor, step)[k].0 == step + 1 + k,
        frames_from(s, cursor, step)[k].1.len() > 0,
    decreases s.len() - cursor,
{
    let end = first_at(s, frame_end(), cursor)->0;
    let picture = trim(shown(s.subrange(cursor, end)));
    let next = end + frame_end().len();
    if picture.len() > 0 {
        if k > 0 {
            law_frames_are_numbered(s, next, step + 1, k - 1);
        }
    } else {
        law_frames_are_numbered(s, next, step, k);
    }
}

/// Output that comes in pieces brings the same frames as output that comes at
/// once: what is complete is taken out, and the rest waits for what follows.
pub proof fn law_frames_go_on_where_they_stopped(
    s: Seq<char>,
    t: Seq<char>,
    cursor: int,
    step: int,
)
    requires
        0 <= cursor,
    ensures
        ({
            let first = frames_from(s, cursor, step);
            let rest = frames_from(s + t, frames_end(s, cursor), step + first.len());
            &&& frames_from(s + t, cursor, step) == first + rest
            &&& frames_end(s + t, cursor) == frames_end(s + t, frames_end(s, cursor))
        }),
    decreases s.len() - cursor,
{
    let mark = frame_end();
    let first = frames_from(s, cursor, step);
    reveal_strlit("\x1b[?2026l");
    if first_at(s, mark, cursor) is Some {
        lemma_first_in_longer(s, t, mark, cursor);
        let end = first_at(s, mark, cursor)->0;
        let next = end + mark.len();
        let picture = trim(shown(s.subrange(cursor, end)));
        assert((s + t).subrange(cursor, end) =~= s.subrange(cursor, end));
        if picture.len() > 0 {
            law_frames_go_on_where_they_stopped(s, t, next, step + 1);
            let tail = frames_from(s, next, step + 1);
            let rest = frames_from(s + t, frames_end(s, next), step + 1 + tail.len());
            assert(seq![(step + 1, picture)] + (tail + rest) =~= (seq![(step + 1, picture)] + tail)
                + rest);
        } else {
            law_frames_go_on_where_they_stopped(s, t, next, step);
        }
    } else {
        assert(first.len() == 0);
        assert(first + frames_from(s + t, cursor, step) =~= frames_from(s + t, cursor, step));
    }
}

/// The answer is what is shown behind the last frame and before the report on
/// the time; where nothing is shown there, it is all that was shown before it.
pub proof fn law_the_answer_stands_behind_the_frames(
    front: Seq<char>,
    tail: Seq<char>,
    report: Seq<char>,
)
    requires
        first_at(front + tail + report, "total time:"@, 0) == Some(
            (front.len() + tail.len()) as int,
        ),
        after_last(front + tail, "\x1b[?2026l"@) == tail,
    ensures
        trim(shown(tail)).len() > 0 ==> final_answer(front + tail + report) == trim(shown(tail)),
        trim(shown(tail)).len() == 0 ==> final_answer(front + tail + report) == trim(
            shown(front + tail),
        ),
{
    let all = front + tail + report;
    assert(all.take((front.len() + tail.len()) as int) =~= front + tail);
}

/// A picture of a text is told with its number and parted like an answer.
pub proof fn law_a_picture_is_parted_like_an_answer(step: nat, picture: Seq<char>)
    ensures
        ({
            let v = canvas_view(step, picture)->Object_0;
            &&& v.len() == 4
            &&& v[0] == ("object"@, JsonView::Str("diffusion.canvas"@))
            &&& v[1] == ("step"@, JsonView::Number(decimal(step)))
            &&& v[2].0 == "reasoning"@
            &&& channels(picture).0 matches Some(t) ==> v[2].1 == JsonView::Str(t)
            &&& channels(picture).0 is None ==> v[2].1 is Null
            &&& v[3] == ("content"@, JsonView::Str(channels(picture).1))
        }),
{
}

} // verus!
