//! A chat front for a terminal program that denoises text: its screen output is
//! taken apart into frames and an answer, and told in the events of a chat.
use vstd::prelude::*;
use vstd::string::*;

use crate::api::json::{
    json_document, json_list, json_single, json_str, json_text, json_triple, entry_views,
    item_views, lemma_item_views, parse_json, render_json, with_entry, Json, JsonView,
};
use crate::api::loop_guard::endpoint::{text_bytes, to_bytes};
use crate::api::loop_guard::session::{text_for, text_of_bytes};
use crate::config::settings::EnvVars;
use crate::paths::{file_name, name_stem, path_name, stem_and_extension};
use crate::text::{
    after_last, after_last_text, after_prefix, chars_of, cut_last, decimal, decimal_text, find_first,
    first_at, has_prefix, join, join_texts, parse_unsigned, remove_text, same_text, split_last_text,
    split_words, starts_with_text, string_of_range, strip_prefix_text, texts, trim, trim_text,
    unsigned_up_to, without, words,
};

verus! {

broadcast use vstd::string::group_string_axioms;

// ----- escape sequences -----

/// The first place from `i` on that is no parameter of an escape sequence.
pub open spec fn after_params(b: Seq<u8>, i: int) -> int
    decreases b.len() - i,
{
    if 0 <= i < b.len() && 0x20 <= b[i] <= 0x3f {
        after_params(b, i + 1)
    } else {
        i
    }
}

/// The first bell from `i` on, or the end.
pub open spec fn bell_at(b: Seq<u8>, i: int) -> int
    decreases b.len() - i,
{
    if 0 <= i < b.len() && b[i] != 0x07 {
        bell_at(b, i + 1)
    } else {
        i
    }
}

/// Where an escape sequence ends whose second byte stands at `i`.
pub open spec fn escape_end(b: Seq<u8>, i: int) -> int {
    if i < b.len() && b[i] == 0x5b {
        let j = after_params(b, i + 1);
        if j < b.len() {
            j + 1
        } else {
            j
        }
    } else if i < b.len() && b[i] == 0x5d {
        let j = bell_at(b, i);
        if j < b.len() {
            j + 1
        } else {
            j
        }
    } else {
        i
    }
}

/// The bytes from `i` on without escape sequences and carriage returns.
pub open spec fn visible(b: Seq<u8>, i: int) -> Seq<u8>
    decreases b.len() - i,
{
    if i < 0 || i >= b.len() {
        Seq::empty()
    } else if b[i] == 0x1b {
        if i < escape_end(b, i + 1) <= b.len() {
            visible(b, escape_end(b, i + 1))
        } else {
            Seq::empty()
        }
    } else if b[i] == 0x0d {
        visible(b, i + 1)
    } else {
        seq![b[i]] + visible(b, i + 1)
    }
}

/// A text without escape sequences and carriage returns.
pub open spec fn shown(s: Seq<char>) -> Seq<char> {
    text_for(visible(text_bytes(s), 0))
}

fn skip_escape(b: &Vec<u8>, i: usize) -> (r: usize)
    requires
        i <= b@.len(),
    ensures
        r == escape_end(b@, i as int),
        i <= r <= b@.len(),
{
    let n = b.len();
    if i < n && b[i] == 0x5b {
        let mut j: usize = i + 1;
        while j < n && 0x20 <= b[j] && b[j] <= 0x3f
            invariant
                i < j <= n == b@.len(),
                after_params(b@, i + 1) == after_params(b@, j as int),
            decreases n - j,
        {
            j += 1;
        }
        if j < n {
            j + 1
        } else {
            j
        }
    } else if i < n && b[i] == 0x5d {
        let mut j: usize = i;
        while j < n && b[j] != 0x07
            invariant
                i <= j <= n == b@.len(),
                bell_at(b@, i as int) == bell_at(b@, j as int),
            decreases n - j,
        {
            j += 1;
        }
        if j < n {
            j + 1
        } else {
            j
        }
    } else {
        i
    }
}

/// Bytes without escape sequences and carriage returns.
pub fn strip_bytes(b: &Vec<u8>) -> (r: Vec<u8>)
    ensures
        r@ == visible(b@, 0),
{
    let mut r: Vec<u8> = Vec::new();
    let mut i: usize = 0;
    assert(r@ + visible(b@, 0) =~= visible(b@, 0));
    while i < b.len()
        invariant
            i <= b@.len(),
            visible(b@, 0) == r@ + visible(b@, i as int),
        decreases b@.len() - i,
    {
        if b[i] == 0x1b {
            i = skip_escape(b, i + 1);
        } else if b[i] == 0x0d {
            i += 1;
        } else {
            let ghost before = r@;
            r.push(b[i]);
            assert(before + (seq![b@[i as int]] + visible(b@, i + 1)) =~= r@ + visible(b@, i + 1));
            i += 1;
        }
    }
    assert(r@ + visible(b@, i as int) =~= r@);
    r
}

/// Whether a text holds neither an escape character nor a carriage return.
pub open spec fn is_plain(s: Seq<char>) -> bool {
    !s.contains('\x1b') && !s.contains('\r')
}

/// A text without escape sequences and carriage returns. A text that holds none
/// stays as it is, so that a second time changes nothing.
pub fn strip_ansi(s: &str) -> (r: String)
    ensures
        r@ == shown(s@),
        is_plain(r@),
        is_plain(s@) ==> r@ == s@,
        shown(r@) == r@,
{
    let b = to_bytes(&s.to_owned());
    let v = strip_bytes(&b);
    let r = text_of_bytes(v.as_slice());
    proof {
        lemma_visible_is_plain(b@, 0);
        assert forall|i: int| 0 <= i < r@.len() implies #[trigger] r@[i] != '\x1b' && r@[i]
            != '\r' by {
            if r@[i] == '\x1b' {
                assert(v@.contains(0x1bu8));
            }
            if r@[i] == '\r' {
                assert(v@.contains(0x0du8));
            }
        }
        if is_plain(s@) {
            law_plain_text_stays(s@);
        }
        law_plain_text_stays(r@);
    }
    r
}

// ----- frames -----

/// What ends a frame.
pub open spec fn frame_end() -> Seq<char> {
    "\x1b[?2026l"@
}

/// What ends an answer.
pub open spec fn answer_end() -> Seq<char> {
    "total time:"@
}

/// The frames that are complete from `cursor` on, numbered after `step`.
pub open spec fn frames_from(s: Seq<char>, cursor: int, step: int) -> Seq<(int, Seq<char>)>
    decreases s.len() - cursor,
{
    match first_at(s, frame_end(), cursor) {
        Some(end) => if 0 <= cursor <= end && end + frame_end().len() <= s.len()
            && frame_end().len() > 0 {
            let picture = trim(shown(s.subrange(cursor, end)));
            let next = end + frame_end().len();
            if picture.len() > 0 {
                seq![(step + 1, picture)] + frames_from(s, next, step + 1)
            } else {
                frames_from(s, next, step)
            }
        } else {
            Seq::empty()
        },
        None => Seq::empty(),
    }
}

/// Where the frames that are complete from `cursor` on end.
pub open spec fn frames_end(s: Seq<char>, cursor: int) -> int
    decreases s.len() - cursor,
{
    match first_at(s, frame_end(), cursor) {
        Some(end) => if 0 <= cursor <= end && end + frame_end().len() <= s.len()
            && frame_end().len() > 0 {
            frames_end(s, end + frame_end().len())
        } else {
            cursor
        },
        None => cursor,
    }
}

/// Frames with their numbers, and where the next one begins.
#[derive(Debug)]
pub struct Frames {
    pub cursor: usize,
    pub step: usize,
    pub frames: Vec<(usize, String)>,
}

/// The frames as values.
pub open spec fn frame_views(s: Seq<(usize, String)>) -> Seq<(int, Seq<char>)> {
    s.map_values(|f: (usize, String)| (f.0 as int, f.1@))
}

/// Takes out the frames that are complete from `cursor` on, counted in
/// characters. They are numbered after `step`.
pub fn extract_frames(gen: &str, cursor: usize, step: usize) -> (r: Frames)
    requires
        cursor <= gen@.len(),
        step + gen@.len() <= usize::MAX,
    ensures
        frame_views(r.frames@) == frames_from(gen@, cursor as int, step as int),
        r.cursor == frames_end(gen@, cursor as int),
        r.step == step + r.frames@.len(),
        r.cursor <= gen@.len(),
        r.frames@.len() <= r.cursor - cursor,
{
    let v = chars_of(gen);
    let w = chars_of("\x1b[?2026l");
    proof {
        reveal_strlit("\x1b[?2026l");
    }
    let n = v.len();
    let mut at: usize = cursor;
    let mut count: usize = step;
    let mut frames: Vec<(usize, String)> = Vec::new();
    let ghost want = frames_from(gen@, cursor as int, step as int);
    assert(frame_views(frames@) + want =~= want);
    loop
        invariant
            cursor <= at <= n == v@.len(),
            v@ == gen@,
            w@ == frame_end(),
            w@.len() == 8,
            step + gen@.len() <= usize::MAX,
            count == step + frames@.len(),
            frames@.len() <= at - cursor,
            want == frame_views(frames@) + frames_from(gen@, at as int, count as int),
            frames_end(gen@, cursor as int) == frames_end(gen@, at as int),
        ensures
            want == frame_views(frames@),
            frames_end(gen@, cursor as int) == at,
            cursor <= at <= n,
            frames@.len() <= at - cursor,
            count == step + frames@.len(),
        decreases n - at,
    {
        match find_first(&v, &w, at) {
            Some(end) => {
                let raw = string_of_range(&v, at, end);
                let picture = trim_text(strip_ansi(raw.as_str()).as_str());
                let next = end + w.len();
                if !picture.as_str().is_empty() {
                    count = count + 1;
                    let ghost before = frames@;
                    let ghost f = (count as int, picture@);
                    frames.push((count, picture));
                    proof {
                        assert(frame_views(frames@) =~= frame_views(before).push(f));
                        let rest = frames_from(gen@, next as int, count as int);
                        assert(frame_views(before) + (seq![f] + rest) =~= frame_views(frames@)
                            + rest);
                    }
                }
                at = next;
            },
            None => {
                assert(want =~= frame_views(frames@));
                break;
            },
        }
    }
    Frames { cursor: at, step: count, frames }
}

/// What stands before the end of an answer.
pub open spec fn before_end(s: Seq<char>) -> Seq<char> {
    match first_at(s, answer_end(), 0) {
        Some(i) => s.take(i),
        None => s,
    }
}

/// The answer: what stands after the last frame, or where nothing does, all
/// that is shown.
pub open spec fn final_answer(s: Seq<char>) -> Seq<char> {
    let pre = before_end(s);
    let tail = trim(shown(after_last(pre, frame_end())));
    if tail.len() > 0 {
        tail
    } else {
        trim(shown(pre))
    }
}

/// The answer.
pub fn extract_final(gen: &str) -> (r: String)
    ensures
        r@ == final_answer(gen@),
{
    let v = chars_of(gen);
    let w = chars_of("total time:");
    let pre = match find_first(&v, &w, 0) {
        Some(i) => {
            let s = string_of_range(&v, 0, i);
            assert(s@ =~= gen@.take(i as int));
            s
        },
        None => gen.to_owned(),
    };
    let tail = after_last_text(pre.as_str(), "\x1b[?2026l");
    let cleaned = trim_text(strip_ansi(tail.as_str()).as_str());
    if !cleaned.as_str().is_empty() {
        return cleaned;
    }
    trim_text(strip_ansi(pre.as_str()).as_str())
}

// ----- the terminal -----

/// Takes what stands up to and with the needle off the beginning of what was
/// read. Nothing is taken where the needle is not there yet.
pub fn take_through(pending: &str, needle: &str) -> (r: Option<(String, String)>)
    ensures
        match first_at(pending@, needle@, 0) {
            Some(i) => r matches Some((taken, rest)) && taken@ == pending@.take(
                i + needle@.len(),
            ) && rest@ == pending@.skip(i + needle@.len()),
            None => r is None,
        },
{
    let v = chars_of(pending);
    let w = chars_of(needle);
    let n = v.len();
    match find_first(&v, &w, 0) {
        Some(i) => {
            let end = i + w.len();
            let taken = string_of_range(&v, 0, end);
            let rest = string_of_range(&v, end, n);
            assert(taken@ =~= pending@.take(i + needle@.len()));
            assert(rest@ =~= pending@.skip(i + needle@.len()));
            Some((taken, rest))
        },
        None => None,
    }
}

/// Where the line ends on which the end of the answer is told.
pub open spec fn end_line(s: Seq<char>) -> Option<int> {
    match first_at(s, answer_end(), 0) {
        Some(t) => match first_at(s, "\n"@, t) {
            Some(x) => Some(x + 1),
            None => Some(s.len() as int),
        },
        None => None,
    }
}

/// The output of the terminal program for one request.
#[derive(Debug)]
pub struct Generation {
    /// What was put out so far.
    pub text: String,
    /// Up to where frames were taken out, in characters.
    pub cursor: usize,
    /// How many frames were taken out.
    pub step: usize,
}

/// What became of a piece of output.
#[derive(Debug)]
pub struct Fed {
    pub frames: Vec<(usize, String)>,
    /// What belongs to the next request, where the answer has ended.
    pub left: Option<String>,
}

impl Generation {
    /// The frames that were taken out lie before the end of the text.
    pub open spec fn wf(&self) -> bool {
        &&& self.cursor <= self.text@.len()
        &&& self.step <= self.cursor
    }

    /// The output before anything was put out.
    pub fn new() -> (r: Generation)
        ensures
            r.wf(),
            r.text@.len() == 0,
            r.cursor == 0,
            r.step == 0,
    {
        let text = String::new();
        Generation { text, cursor: 0, step: 0 }
    }

    /// Takes in what was read. The answer ends with the line on which its end
    /// is told; what follows is left for the next request.
    pub fn feed(&mut self, pending: &str) -> (r: Fed)
        requires
            old(self).wf(),
            2 * (old(self).text@.len() + pending@.len()) <= usize::MAX,
        ensures
            final(self).wf(),
            match end_line(pending@) {
                Some(end) => final(self).text@ == old(self).text@ + pending@.take(end)
                    && r.left is Some && (r.left->0)@ == pending@.skip(end),
                None => final(self).text@ == old(self).text@ + pending@ && r.left is None,
            },
            frame_views(r.frames@) == frames_from(
                final(self).text@,
                old(self).cursor as int,
                old(self).step as int,
            ),
            final(self).cursor == frames_end(final(self).text@, old(self).cursor as int),
            final(self).step == old(self).step + r.frames@.len(),
    {
        let v = chars_of(pending);
        let w = chars_of("total time:");
        let nl = chars_of("\n");
        proof {
            reveal_strlit("\n");
        }
        let n = v.len();
        let mut left: Option<String> = None;
        let ghost before = self.text@;
        match find_first(&v, &w, 0) {
            Some(t) => {
                let end: usize = match find_first(&v, &nl, t) {
                    Some(x) => x + 1,
                    None => n,
                };
                let mine = string_of_range(&v, 0, end);
                assert(mine@ =~= pending@.take(end as int));
                let rest = string_of_range(&v, end, n);
                assert(rest@ =~= pending@.skip(end as int));
                self.text.append(mine.as_str());
                left = Some(rest);
            },
            None => {
                self.text.append(pending);
            },
        }
        assert(self.text@.len() <= before.len() + pending@.len());
        let f = extract_frames(self.text.as_str(), self.cursor, self.step);
        self.cursor = f.cursor;
        self.step = f.step;
        Fed { frames: f.frames, left }
    }
}

// ----- channels -----

/// A text without the mark that opens a channel, and without the name of the
/// channel at its beginning.
pub open spec fn cleaned(s: Seq<char>) -> Seq<char> {
    let t = trim(without(s, "<|channel>"@));
    match after_prefix(t, "thought"@) {
        Some(rest) => trim(rest),
        None => match after_prefix(t, "final"@) {
            Some(rest) => trim(rest),
            None => trim(t),
        },
    }
}

/// A text without the mark that opens a channel, and without the name of the
/// channel at its beginning.
pub fn clean_reasoning(s: &str) -> (r: String)
    ensures
        r@ == cleaned(s@),
{
    let t = trim_text(remove_text(s, "<|channel>").as_str());
    match strip_prefix_text(t.as_str(), "thought") {
        Some(rest) => trim_text(rest.as_str()),
        None => match strip_prefix_text(t.as_str(), "final") {
            Some(rest) => trim_text(rest.as_str()),
            None => trim_text(t.as_str()),
        },
    }
}

/// The reasoning and the answer in a text.
pub open spec fn channels(text: Seq<char>) -> (Option<Seq<char>>, Seq<char>) {
    match cut_last(text, "<channel|>"@) {
        Some((before, after)) => (
            if cleaned(before).len() > 0 {
                Some(cleaned(before))
            } else {
                None
            },
            trim(after),
        ),
        None => (None, cleaned(text)),
    }
}

/// The reasoning and the answer in a text.
pub fn split_channels(text: &str) -> (r: (Option<String>, String))
    ensures
        crate::text::option_text(r.0) == channels(text@).0,
        r.1@ == channels(text@).1,
{
    match split_last_text(text, "<channel|>") {
        Some((before, after)) => {
            let reasoning = clean_reasoning(before.as_str());
            let answer = trim_text(after.as_str());
            if reasoning.as_str().is_empty() {
                (None, answer)
            } else {
                (Some(reasoning), answer)
            }
        },
        None => (None, clean_reasoning(text)),
    }
}

// ----- pieces -----

/// How many characters there are up to and with the first space.
pub open spec fn piece_len(s: Seq<char>) -> nat
    decreases s.len(),
{
    if s.len() == 0 {
        0
    } else if s[0] == ' ' {
        1
    } else {
        1 + piece_len(s.skip(1))
    }
}

/// The pieces of a text; each but the last ends with its first space.
pub open spec fn pieces(s: Seq<char>) -> Seq<Seq<char>>
    decreases s.len(),
{
    if s.len() == 0 {
        Seq::empty()
    } else {
        let n = if 1 <= piece_len(s) <= s.len() {
            piece_len(s) as int
        } else {
            s.len() as int
        };
        seq![s.take(n)] + pieces(s.skip(n))
    }
}

proof fn lemma_piece_len(s: Seq<char>, n: int)
    requires
        0 < n <= s.len(),
        forall|j: int| 0 <= j < n - 1 ==> #[trigger] s[j] != ' ',
        s[n - 1] == ' ' || n == s.len(),
    ensures
        piece_len(s) == n,
    decreases n,
{
    if s[0] != ' ' {
        let t = s.skip(1);
        if n > 1 {
            assert forall|j: int| 0 <= j < n - 2 implies #[trigger] t[j] != ' ' by {
                assert(s[j + 1] != ' ');
            }
            lemma_piece_len(t, n - 1);
        } else {
            assert(t.len() == 0);
            assert(piece_len(t) == 0);
        }
    } else if n > 1 {
        assert(s[0] != ' ');
    }
}

/// The pieces of a text; each but the last ends with its first space.
pub fn chunk_text(s: &str) -> (r: Vec<String>)
    ensures
        texts(r@) == pieces(s@),
{
    let v = chars_of(s);
    let n = v.len();
    let mut r: Vec<String> = Vec::new();
    let mut i: usize = 0;
    assert(s@.skip(0) =~= s@);
    assert(texts(r@) + pieces(s@) =~= pieces(s@));
    while i < n
        invariant
            i <= n == v@.len(),
            v@ == s@,
            pieces(s@) == texts(r@) + pieces(s@.skip(i as int)),
        decreases n - i,
    {
        let ghost rest = s@.skip(i as int);
        let mut j: usize = i;
        while j < n && v[j] != ' '
            invariant
                i <= j <= n == v@.len(),
                v@ == s@,
                forall|k: int| i <= k < j ==> #[trigger] s@[k] != ' ',
            decreases n - j,
        {
            j += 1;
        }
        let end: usize = if j < n {
            j + 1
        } else {
            n
        };
        let w = string_of_range(&v, i, end);
        let ghost wv = w@;
        let ghost before = r@;
        r.push(w);
        proof {
            assert forall|k: int| 0 <= k < end - i - 1 implies #[trigger] rest[k] != ' ' by {
                assert(rest[k] == s@[i + k]);
            }
            assert(rest[end - i - 1] == s@[end - 1]);
            lemma_piece_len(rest, end - i);
            assert(rest.take(end - i) =~= wv);
            assert(rest.skip(end - i) =~= s@.skip(end as int));
            assert(texts(r@) =~= texts(before).push(wv));
            assert(texts(before) + (seq![wv] + pieces(s@.skip(end as int))) =~= texts(r@) + pieces(
                s@.skip(end as int),
            ));
        }
        i = end;
    }
    assert(s@.skip(i as int) =~= Seq::empty());
    assert(texts(r@) + pieces(s@.skip(i as int)) =~= texts(r@));
    r
}

// ----- requests -----

/// The texts of the first `n` parts of a message.
pub open spec fn part_texts(s: Seq<JsonView>, n: int) -> Seq<Seq<char>>
    decreases n,
{
    if n <= 0 {
        Seq::empty()
    } else {
        match s[n - 1].text_at("text"@) {
            Some(t) => part_texts(s, n - 1).push(t),
            None => part_texts(s, n - 1),
        }
    }
}

/// The content of a message as text.
pub open spec fn content_of(v: Option<JsonView>) -> Seq<char> {
    match v {
        Some(JsonView::Str(s)) => s,
        Some(JsonView::Array(a)) => join(part_texts(a, a.len() as int), " "@),
        _ => Seq::empty(),
    }
}

fn content_to_string(v: Option<&Json>) -> (r: String)
    ensures
        r@ == content_of(
            match v {
                Some(j) => Some(j@),
                None => None,
            },
        ),
{
    match v {
        Some(Json::Str(s)) => s.clone(),
        Some(Json::Array(a)) => {
            let ghost all = item_views(a@);
            proof {
                lemma_item_views(a@);
            }
            let mut parts: Vec<String> = Vec::new();
            let mut i: usize = 0;
            assert(texts(parts@) =~= Seq::empty());
            while i < a.len()
                invariant
                    i <= a@.len(),
                    all == item_views(a@),
                    all.len() == a@.len(),
                    forall|j: int| 0 <= j < a@.len() ==> #[trigger] all[j] == a@[j]@,
                    texts(parts@) == part_texts(all, i as int),
                decreases a@.len() - i,
            {
                assert(all[i as int] == a@[i as int]@);
                match a[i].text_at("text") {
                    Some(t) => {
                        let ghost before = parts@;
                        let ghost tv = t@;
                        parts.push(t.clone());
                        assert(texts(parts@) =~= texts(before).push(tv));
                    },
                    None => {},
                }
                i += 1;
            }
            join_texts(&parts, " ")
        },
        _ => {
            let s = String::new();
            assert(s@ =~= Seq::empty());
            s
        },
    }
}

/// A text with another after a space, where it is not the first.
pub open spec fn continued(s: Seq<char>, t: Seq<char>) -> Seq<char> {
    if s.len() == 0 {
        t
    } else {
        s + " "@ + t
    }
}

/// What the system messages among the first `n` say, and what the others say.
pub open spec fn gathered(s: Seq<JsonView>, n: int) -> (Seq<char>, Seq<char>)
    decreases n,
{
    if n <= 0 {
        (Seq::empty(), Seq::empty())
    } else {
        let (sys, convo) = gathered(s, n - 1);
        let content = content_of(s[n - 1].get("content"@));
        if s[n - 1].text_at("role"@) == Some("system"@) {
            (continued(sys, content), convo)
        } else {
            (sys, continued(convo, content))
        }
    }
}

/// The messages of a request in one line: first what the system says.
pub open spec fn prompt_of(req: JsonView) -> Seq<char> {
    let (sys, convo) = match req.items_at("messages"@) {
        Some(m) => gathered(m, m.len() as int),
        None => (Seq::empty(), Seq::empty()),
    };
    join(
        words(
            if sys.len() == 0 {
                convo
            } else {
                sys + " "@ + convo
            },
        ),
        " "@,
    )
}

fn go_on(s: String, t: &str) -> (r: String)
    ensures
        r@ == continued(s@, t@),
{
    if s.as_str().is_empty() {
        t.to_owned()
    } else {
        s.concat(" ").concat(t)
    }
}

/// The messages of a request in one line: first what the system says.
pub fn build_prompt(req: &Json) -> (r: String)
    ensures
        r@ == prompt_of(req@),
{
    let mut sys = String::new();
    let mut convo = String::new();
    assert(sys@ =~= Seq::empty() && convo@ =~= Seq::empty());
    match req.items_at("messages") {
        Some(m) => {
            let ghost all = item_views(m@);
            proof {
                lemma_item_views(m@);
            }
            let mut i: usize = 0;
            while i < m.len()
                invariant
                    i <= m@.len(),
                    all == item_views(m@),
                    all.len() == m@.len(),
                    forall|j: int| 0 <= j < m@.len() ==> #[trigger] all[j] == m@[j]@,
                    (sys@, convo@) == gathered(all, i as int),
                decreases m@.len() - i,
            {
                assert(all[i as int] == m@[i as int]@);
                let is_system = match m[i].text_at("role") {
                    Some(role) => same_text(role.as_str(), "system"),
                    None => false,
                };
                let content = content_to_string(m[i].get("content"));
                if is_system {
                    sys = go_on(sys, content.as_str());
                } else {
                    convo = go_on(convo, content.as_str());
                }
                i += 1;
            }
        },
        None => {},
    }
    let joined = if sys.as_str().is_empty() {
        convo
    } else {
        sys.concat(" ").concat(convo.as_str())
    };
    let w = split_words(joined.as_str());
    join_texts(&w, " ")
}

/// What a chat request asks for.
#[derive(Debug)]
pub struct ChatRequest {
    pub prompt: String,
    pub stream: bool,
}

/// What is wrong with a chat request.
#[derive(Debug, Clone, Copy, PartialEq, Eq, Structural)]
pub enum BadRequest {
    NotJson,
    NoPrompt,
}

/// What a request that was read asks for.
pub fn chat_of_document(req: &Json) -> (r: Result<ChatRequest, BadRequest>)
    ensures
        match r {
            Ok(c) => c.prompt@ == prompt_of(req@) && c.prompt@.len() > 0 && c.stream == (req@.get(
                "stream"@,
            ) == Some(JsonView::Bool(true))),
            Err(e) => e == BadRequest::NoPrompt && prompt_of(req@).len() == 0,
        },
{
    let prompt = build_prompt(req);
    if prompt.as_str().is_empty() {
        return Err(BadRequest::NoPrompt);
    }
    let stream = match req.get("stream") {
        Some(Json::Bool(b)) => *b,
        _ => false,
    };
    Ok(ChatRequest { prompt, stream })
}

/// What a request asks for.
pub fn read_chat(body: &[u8]) -> (r: Result<ChatRequest, BadRequest>)
    ensures
        match json_document(body@) {
            Some(doc) => match r {
                Ok(c) => c.prompt@ == prompt_of(doc) && c.prompt@.len() > 0 && c.stream == (doc.get(
                    "stream"@,
                ) == Some(JsonView::Bool(true))),
                Err(e) => e == BadRequest::NoPrompt && prompt_of(doc).len() == 0,
            },
            None => r matches Err(e) && e == BadRequest::NotJson,
        },
{
    match parse_json(body) {
        Some(doc) => chat_of_document(&doc),
        None => Err(BadRequest::NotJson),
    }
}

// ----- answers -----

/// An optional text as JSON.
pub open spec fn text_or_null(t: Option<Seq<char>>) -> JsonView {
    match t {
        Some(s) => JsonView::Str(s),
        None => JsonView::Null,
    }
}

fn json_option(t: Option<&str>) -> (r: Json)
    ensures
        r@ == text_or_null(
            match t {
                Some(s) => Some(s@),
                None => None,
            },
        ),
{
    match t {
        Some(s) => json_str(s),
        None => Json::Null,
    }
}

/// A piece of a streamed answer.
pub open spec fn chunk_view(
    id: Seq<char>,
    model: Seq<char>,
    delta: JsonView,
    finish: Option<Seq<char>>,
) -> JsonView {
    JsonView::Object(
        seq![
            ("id"@, JsonView::Str(id)),
            ("object"@, JsonView::Str("chat.completion.chunk"@)),
            ("created"@, JsonView::Number("0"@)),
            ("model"@, JsonView::Str(model)),
            (
                "choices"@,
                JsonView::Array(
                    seq![
                        JsonView::Object(
                            seq![
                                ("index"@, JsonView::Number("0"@)),
                                ("delta"@, delta),
                                ("finish_reason"@, text_or_null(finish)),
                            ],
                        ),
                    ],
                ),
            ),
        ],
    )
}

/// A piece of a streamed answer.
pub fn chunk_document(id: &str, model: &str, delta: Json, finish: Option<&str>) -> (r: Json)
    ensures
        r@ == chunk_view(
            id@,
            model@,
            delta@,
            match finish {
                Some(s) => Some(s@),
                None => None,
            },
        ),
{
    let choice = json_triple(
        "index",
        Json::Number("0".to_owned()),
        "delta",
        delta,
        "finish_reason",
        json_option(finish),
    );
    let list = json_list(choice);
    let ghost lv = list@;
    let v = with_entry(
        with_entry(
            with_entry(
                with_entry(
                    with_entry(Vec::new(), "id", json_str(id)),
                    "object",
                    json_str("chat.completion.chunk"),
                ),
                "created",
                Json::Number("0".to_owned()),
            ),
            "model",
            json_str(model),
        ),
        "choices",
        list,
    );
    assert(entry_views(v@) =~= seq![
        ("id"@, JsonView::Str(id@)),
        ("object"@, JsonView::Str("chat.completion.chunk"@)),
        ("created"@, JsonView::Number("0"@)),
        ("model"@, JsonView::Str(model@)),
        ("choices"@, lv),
    ]);
    Json::Object(v)
}

/// A line of an event stream that carries data.
pub open spec fn data_line(payload: Seq<char>) -> Seq<char> {
    "data: "@ + payload + "\n\n"@
}

/// A line of an event stream that carries data.
pub fn sse_data(payload: &str) -> (r: String)
    ensures
        r@ == data_line(payload@),
{
    "data: ".to_owned().concat(payload).concat("\n\n")
}

/// An event of an event stream with its name.
pub fn sse_event(event: &str, payload: &str) -> (r: String)
    ensures
        r@ == "event: "@ + event@ + "\ndata: "@ + payload@ + "\n\n"@,
{
    "event: ".to_owned().concat(event).concat("\ndata: ").concat(payload).concat("\n\n")
}

/// A piece of a streamed answer, as it is sent.
pub fn chunk(id: &str, model: &str, delta: Json, finish: Option<&str>) -> (r: String)
    ensures
        r@ == json_text(
            chunk_view(
                id@,
                model@,
                delta@,
                match finish {
                    Some(s) => Some(s@),
                    None => None,
                },
            ),
        ),
{
    let doc = chunk_document(id, model, delta, finish);
    render_json(&doc)
}

/// What is sent for the pieces of one part of an answer, from `i` on.
pub open spec fn piece_lines(
    id: Seq<char>,
    model: Seq<char>,
    key: Seq<char>,
    p: Seq<Seq<char>>,
) -> Seq<Seq<char>> {
    p.map_values(
        |t: Seq<char>|
            data_line(
                json_text(
                    chunk_view(id, model, JsonView::Object(seq![(key, JsonView::Str(t))]), None),
                ),
            ),
    )
}

/// What is sent once the answer is there: the reasoning and the answer piece
/// by piece, the end of the choice and the end of the stream.
pub open spec fn answer_lines(id: Seq<char>, model: Seq<char>, text: Seq<char>) -> Seq<Seq<char>> {
    let (reasoning, content) = channels(text);
    let told = match reasoning {
        Some(r) => piece_lines(id, model, "reasoning_content"@, pieces(r)),
        None => Seq::empty(),
    };
    told + piece_lines(id, model, "content"@, pieces(content)) + seq![
        data_line(json_text(chunk_view(id, model, JsonView::Object(Seq::empty()), Some("stop"@)))),
        data_line("[DONE]"@),
    ]
}

fn add_pieces(out: &mut Vec<String>, id: &str, model: &str, key: &str, text: &str)
    ensures
        texts(final(out)@) == texts(old(out)@) + piece_lines(id@, model@, key@, pieces(text@)),
{
    let p = chunk_text(text);
    let ghost start = texts(out@);
    let ghost all = piece_lines(id@, model@, key@, pieces(text@));
    assert(all.len() == p@.len());
    let mut i: usize = 0;
    assert(texts(out@) =~= start + all.take(0));
    while i < p.len()
        invariant
            i <= p@.len(),
            texts(p@) == pieces(text@),
            all == piece_lines(id@, model@, key@, pieces(text@)),
            all.len() == p@.len(),
            texts(out@) == start + all.take(i as int),
        decreases p@.len() - i,
    {
        assert(pieces(text@)[i as int] == p@[i as int]@);
        let line = sse_data(
            chunk(id, model, json_single(key, json_str(p[i].as_str())), None).as_str(),
        );
        let ghost before = out@;
        let ghost lv = line@;
        out.push(line);
        proof {
            assert(all[i as int] == lv);
            assert(texts(out@) =~= texts(before).push(lv));
            assert(all.take(i + 1) =~= all.take(i as int).push(all[i as int]));
            assert(texts(out@) =~= start + all.take(i + 1));
        }
        i += 1;
    }
    assert(all.take(i as int) =~= all);
}

/// What is sent once the answer is there.
pub fn answer_events(id: &str, model: &str, text: &str) -> (r: Vec<String>)
    ensures
        texts(r@) == answer_lines(id@, model@, text@),
{
    let (reasoning, content) = split_channels(text);
    let mut out: Vec<String> = Vec::new();
    assert(texts(out@) =~= Seq::empty());
    match &reasoning {
        Some(t) => {
            add_pieces(&mut out, id, model, "reasoning_content", t.as_str());
            assert(Seq::<Seq<char>>::empty() + piece_lines(
                id@,
                model@,
                "reasoning_content"@,
                pieces(t@),
            ) =~= piece_lines(id@, model@, "reasoning_content"@, pieces(t@)));
        },
        None => {},
    }
    add_pieces(&mut out, id, model, "content", content.as_str());
    let none: Vec<(String, Json)> = Vec::new();
    assert(entry_views(none@) =~= Seq::empty());
    let stop = sse_data(chunk(id, model, Json::Object(none), Some("stop")).as_str());
    let done = sse_data("[DONE]");
    let ghost before = out@;
    let ghost sv = stop@;
    let ghost dv = done@;
    out.push(stop);
    out.push(done);
    assert(texts(out@) =~= texts(before) + seq![sv, dv]);
    out
}

/// A picture of the text while it is denoised.
pub open spec fn canvas_view(step: nat, picture: Seq<char>) -> JsonView {
    let (reasoning, content) = channels(picture);
    JsonView::Object(
        seq![
            ("object"@, JsonView::Str("diffusion.canvas"@)),
            ("step"@, JsonView::Number(decimal(step))),
            ("reasoning"@, text_or_null(reasoning)),
            ("content"@, JsonView::Str(content)),
        ],
    )
}

/// A picture of the text while it is denoised, as it is sent.
pub fn canvas_event(step: usize, picture: &str) -> (r: String)
    ensures
        r@ == "event: diffusion.canvas\ndata: "@ + json_text(canvas_view(step as nat, picture@))
            + "\n\n"@,
{
    let (reasoning, content) = split_channels(picture);
    let told = match &reasoning {
        Some(t) => json_str(t.as_str()),
        None => Json::Null,
    };
    let ghost tv = told@;
    let ghost cv = content@;
    let v = with_entry(
        with_entry(
            with_entry(
                with_entry(Vec::new(), "object", json_str("diffusion.canvas")),
                "step",
                Json::Number(decimal_text(step as u64)),
            ),
            "reasoning",
            told,
        ),
        "content",
        Json::Str(content),
    );
    assert(entry_views(v@) =~= seq![
        ("object"@, JsonView::Str("diffusion.canvas"@)),
        ("step"@, JsonView::Number(decimal(step as nat))),
        ("reasoning"@, tv),
        ("content"@, JsonView::Str(cv)),
    ]);
    let doc = Json::Object(v);
    let text = render_json(&doc);
    "event: diffusion.canvas\ndata: ".to_owned().concat(text.as_str()).concat("\n\n")
}

/// The message of an answer that is not streamed.
pub open spec fn message_view(text: Seq<char>) -> JsonView {
    let (reasoning, content) = channels(text);
    let base = seq![("role"@, JsonView::Str("assistant"@)), ("content"@, JsonView::Str(content))];
    JsonView::Object(
        match reasoning {
            Some(r) => base.push(("reasoning_content"@, JsonView::Str(r))),
            None => base,
        },
    )
}

/// An answer that is not streamed.
pub open spec fn completion_view(id: Seq<char>, model: Seq<char>, text: Seq<char>) -> JsonView {
    JsonView::Object(
        seq![
            ("id"@, JsonView::Str(id)),
            ("object"@, JsonView::Str("chat.completion"@)),
            ("created"@, JsonView::Number("0"@)),
            ("model"@, JsonView::Str(model)),
            (
                "choices"@,
                JsonView::Array(
                    seq![
                        JsonView::Object(
                            seq![
                                ("index"@, JsonView::Number("0"@)),
                                ("message"@, message_view(text)),
                                ("finish_reason"@, JsonView::Str("stop"@)),
                            ],
                        ),
                    ],
                ),
            ),
            (
                "usage"@,
                JsonView::Object(
                    seq![
                        ("prompt_tokens"@, JsonView::Number("0"@)),
                        ("completion_tokens"@, JsonView::Number("0"@)),
                        ("total_tokens"@, JsonView::Number("0"@)),
                    ],
                ),
            ),
        ],
    )
}

fn message_document(text: &str) -> (r: Json)
    ensures
        r@ == message_view(text@),
{
    let (reasoning, content) = split_channels(text);
    let ghost cv = content@;
    let v = with_entry(
        with_entry(Vec::new(), "role", json_str("assistant")),
        "content",
        Json::Str(content),
    );
    assert(entry_views(v@) =~= seq![
        ("role"@, JsonView::Str("assistant"@)),
        ("content"@, JsonView::Str(cv)),
    ]);
    match reasoning {
        Some(t) => Json::Object(with_entry(v, "reasoning_content", Json::Str(t))),
        None => Json::Object(v),
    }
}

/// An answer that is not streamed.
pub fn completion_document(id: &str, model: &str, text: &str) -> (r: Json)
    ensures
        r@ == completion_view(id@, model@, text@),
{
    let choice = json_triple(
        "index",
        Json::Number("0".to_owned()),
        "message",
        message_document(text),
        "finish_reason",
        json_str("stop"),
    );
    let list = json_list(choice);
    let usage = json_triple(
        "prompt_tokens",
        Json::Number("0".to_owned()),
        "completion_tokens",
        Json::Number("0".to_owned()),
        "total_tokens",
        Json::Number("0".to_owned()),
    );
    let ghost lv = list@;
    let ghost uv = usage@;
    let v = with_entry(
        with_entry(
            with_entry(
                with_entry(
                    with_entry(
                        with_entry(Vec::new(), "id", json_str(id)),
                        "object",
                        json_str("chat.completion"),
                    ),
                    "created",
                    Json::Number("0".to_owned()),
                ),
                "model",
                json_str(model),
            ),
            "choices",
            list,
        ),
        "usage",
        usage,
    );
    assert(entry_views(v@) =~= seq![
        ("id"@, JsonView::Str(id@)),
        ("object"@, JsonView::Str("chat.completion"@)),
        ("created"@, JsonView::Number("0"@)),
        ("model"@, JsonView::Str(model@)),
        ("choices"@, lv),
        ("usage"@, uv),
    ]);
    Json::Object(v)
}

/// An answer that is not streamed, as it is sent.
pub fn completion(id: &str, model: &str, text: &str) -> (r: String)
    ensures
        r@ == json_text(completion_view(id@, model@, text@)),
{
    let doc = completion_document(id, model, text);
    render_json(&doc)
}

// ----- command lines -----

/// What the adapter is started with.
#[derive(Debug)]
pub struct Args {
    pub model: String,
    pub port: u16,
    pub ngl: String,
    pub n_predict: String,
    pub cli: String,
    pub diffusion_passthrough: Vec<String>,
}

/// The mathematical content of `Args`.
pub struct ArgsView {
    pub model: Seq<char>,
    pub port: u16,
    pub ngl: Seq<char>,
    pub n_predict: Seq<char>,
    pub cli: Seq<char>,
    pub diffusion_passthrough: Seq<Seq<char>>,
}

impl View for Args {
    type V = ArgsView;

    open spec fn view(&self) -> ArgsView {
        ArgsView {
            model: self.model@,
            port: self.port,
            ngl: self.ngl@,
            n_predict: self.n_predict@,
            cli: self.cli@,
            diffusion_passthrough: texts(self.diffusion_passthrough@),
        }
    }
}

/// A port, or zero where the text is none.
pub open spec fn port_of(s: Seq<char>) -> u16 {
    match unsigned_up_to(s, 65535) {
        Some(n) => n as u16,
        None => 0,
    }
}

/// What the arguments from `i` on change. Arguments that are not known are
/// passed over.
pub open spec fn args_from(a: ArgsView, argv: Seq<Seq<char>>, i: int) -> ArgsView
    decreases argv.len() - i,
{
    if i < 0 || i >= argv.len() {
        a
    } else {
        let flag = argv[i];
        let has_next = i + 1 < argv.len();
        let next = argv[i + 1];
        if flag == "-m"@ || flag == "--model"@ {
            if has_next {
                args_from(ArgsView { model: next, ..a }, argv, i + 2)
            } else {
                args_from(a, argv, i + 1)
            }
        } else if flag == "--port"@ {
            if has_next {
                args_from(ArgsView { port: port_of(next), ..a }, argv, i + 2)
            } else {
                args_from(a, argv, i + 1)
            }
        } else if flag == "-ngl"@ || flag == "--gpu-layers"@ || flag == "--n-gpu-layers"@ {
            if has_next {
                args_from(ArgsView { ngl: next, ..a }, argv, i + 2)
            } else {
                args_from(a, argv, i + 1)
            }
        } else if flag == "--diffusion-cli"@ {
            if has_next {
                args_from(ArgsView { cli: next, ..a }, argv, i + 2)
            } else {
                args_from(a, argv, i + 1)
            }
        } else if has_prefix(flag, "--diffusion-"@) {
            let passed = a.diffusion_passthrough.push(flag);
            if has_next && !has_prefix(next, "-"@) {
                args_from(
                    ArgsView { diffusion_passthrough: passed.push(next), ..a },
                    argv,
                    i + 2,
                )
            } else {
                args_from(ArgsView { diffusion_passthrough: passed, ..a }, argv, i + 1)
            }
        } else {
            args_from(a, argv, i + 1)
        }
    }
}

/// The value of a variable, or a default.
pub open spec fn variable(env: EnvVars, name: Seq<char>, default: Seq<char>) -> Seq<char> {
    match env.value(name) {
        Some(v) => v,
        None => default,
    }
}

fn env_or(env: &EnvVars, name: &str, default: &str) -> (r: String)
    ensures
        r@ == variable(*env, name@, default@),
{
    match env.get(name) {
        Some(v) => v,
        None => default.to_owned(),
    }
}

/// What the adapter is started with where the arguments say nothing.
pub open spec fn plain_args(env: EnvVars, default_cli: Seq<char>) -> ArgsView {
    ArgsView {
        model: Seq::empty(),
        port: 0,
        ngl: variable(env, "DIFFUSION_NGL"@, "99"@),
        n_predict: variable(env, "DIFFUSION_NPREDICT"@, "512"@),
        cli: variable(env, "DIFFUSION_CLI"@, default_cli),
        diffusion_passthrough: Seq::empty(),
    }
}

/// Reads the arguments of the adapter, without the name of the program.
pub fn parse_args(argv: &Vec<String>, env: &EnvVars, default_cli: &str) -> (r: Args)
    ensures
        r@ == args_from(plain_args(*env, default_cli@), texts(argv@), 0),
{
    let ghost all = texts(argv@);
    let mut a = Args {
        model: String::new(),
        port: 0,
        ngl: env_or(env, "DIFFUSION_NGL", "99"),
        n_predict: env_or(env, "DIFFUSION_NPREDICT", "512"),
        cli: env_or(env, "DIFFUSION_CLI", default_cli),
        diffusion_passthrough: Vec::new(),
    };
    assert(a.model@ =~= Seq::empty());
    assert(texts(a.diffusion_passthrough@) =~= Seq::empty());
    let ghost want = args_from(a@, all, 0);
    let n = argv.len();
    let mut i: usize = 0;
    while i < n
        invariant
            i <= n == argv@.len(),
            all == texts(argv@),
            want == args_from(a@, all, i as int),
        decreases n - i,
    {
        let flag = argv[i].as_str();
        assert(all[i as int] == argv@[i as int]@);
        assert(i + 1 < n ==> all[i + 1] == argv@[i + 1]@);
        if same_text(flag, "-m") || same_text(flag, "--model") {
            if i + 1 < n {
                a.model = argv[i + 1].clone();
                i += 2;
                continue;
            }
        } else if same_text(flag, "--port") {
            if i + 1 < n {
                a.port =
                match parse_unsigned(argv[i + 1].as_str(), 65535) {
                    Some(p) => p as u16,
                    None => 0,
                };
                i += 2;
                continue;
            }
        } else if same_text(flag, "-ngl") || same_text(flag, "--gpu-layers") || same_text(
            flag,
            "--n-gpu-layers",
        ) {
            if i + 1 < n {
                a.ngl = argv[i + 1].clone();
                i += 2;
                continue;
            }
        } else if same_text(flag, "--diffusion-cli") {
            if i + 1 < n {
                a.cli = argv[i + 1].clone();
                i += 2;
                continue;
            }
        } else if starts_with_text(flag, "--diffusion-") {
            let ghost before = a.diffusion_passthrough@;
            a.diffusion_passthrough.push(argv[i].clone());
            assert(texts(a.diffusion_passthrough@) =~= texts(before).push(all[i as int]));
            if i + 1 < n && !starts_with_text(argv[i + 1].as_str(), "-") {
                let ghost mid = a.diffusion_passthrough@;
                a.diffusion_passthrough.push(argv[i + 1].clone());
                assert(texts(a.diffusion_passthrough@) =~= texts(mid).push(all[i + 1]));
                i += 2;
                continue;
            }
        }
        i += 1;
    }
    a
}

/// Whether the adapter can be started: it needs a model and a port.
pub fn can_start(a: &Args) -> (r: bool)
    ensures
        r == (a@.model.len() > 0 && a@.port != 0),
{
    !a.model.as_str().is_empty() && a.port != 0
}

/// What the terminal program is started with.
pub open spec fn cli_line(a: ArgsView) -> Seq<Seq<char>> {
    seq![
        "-m"@,
        a.model,
        "-ngl"@,
        a.ngl,
        "-cnv"@,
        "--diffusion-visual"@,
        "--diffusion-visual-interval"@,
        "1"@,
        "-n"@,
        a.n_predict,
    ] + a.diffusion_passthrough
}

/// What the terminal program is started with.
pub fn cli_args(a: &Args) -> (r: Vec<String>)
    ensures
        texts(r@) == cli_line(a@),
{
    let mut r: Vec<String> = vec![
        "-m".to_owned(),
        a.model.clone(),
        "-ngl".to_owned(),
        a.ngl.clone(),
        "-cnv".to_owned(),
        "--diffusion-visual".to_owned(),
        "--diffusion-visual-interval".to_owned(),
        "1".to_owned(),
        "-n".to_owned(),
        a.n_predict.clone(),
    ];
    let ghost head = r@;
    let mut i: usize = 0;
    assert(texts(r@) =~= texts(head) + a@.diffusion_passthrough.take(0));
    while i < a.diffusion_passthrough.len()
        invariant
            i <= a.diffusion_passthrough@.len(),
            texts(r@) == texts(head) + a@.diffusion_passthrough.take(i as int),
        decreases a.diffusion_passthrough@.len() - i,
    {
        let ghost before = r@;
        r.push(a.diffusion_passthrough[i].clone());
        proof {
            let x = a.diffusion_passthrough@[i as int]@;
            assert(texts(r@) =~= texts(before).push(x));
            assert(a@.diffusion_passthrough.take(i + 1) =~= a@.diffusion_passthrough.take(
                i as int,
            ).push(x));
            assert(texts(r@) =~= texts(head) + a@.diffusion_passthrough.take(i + 1));
        }
        i += 1;
    }
    assert(a@.diffusion_passthrough.take(i as int) =~= a@.diffusion_passthrough);
    assert(texts(r@) =~= cli_line(a@));
    r
}

/// What a model is called after its file.
pub fn model_name(path: &str) -> (r: String)
    ensures
        r@ == (match file_name(path@) {
            Some(n) => stem_and_extension(n).0,
            None => "diffusion"@,
        }),
{
    match path_name(path) {
        Some(n) => name_stem(n.as_str()),
        None => "diffusion".to_owned(),
    }
}

// ----- laws -----

/// All pieces put together.
pub open spec fn put_together(p: Seq<Seq<char>>) -> Seq<char>
    decreases p.len(),
{
    if p.len() == 0 {
        Seq::empty()
    } else {
        p[0] + put_together(p.skip(1))
    }
}

/// Cutting a text into pieces loses nothing: put together they are the text.
pub proof fn law_pieces_make_the_text(s: Seq<char>)
    ensures
        put_together(pieces(s)) == s,
    decreases s.len(),
{
    if s.len() > 0 {
        let n = if 1 <= piece_len(s) <= s.len() {
            piece_len(s) as int
        } else {
            s.len() as int
        };
        law_pieces_make_the_text(s.skip(n));
        let p = pieces(s);
        assert(p.skip(1) =~= pieces(s.skip(n)));
        assert(p[0] =~= s.take(n));
        assert(s.take(n) + s.skip(n) =~= s);
    }
}

proof fn lemma_visible_is_plain(b: Seq<u8>, i: int)
    ensures
        !visible(b, i).contains(0x1b),
        !visible(b, i).contains(0x0d),
    decreases b.len() - i,
{
    if 0 <= i < b.len() {
        if b[i] == 0x1b {
            if i < escape_end(b, i + 1) <= b.len() {
                lemma_visible_is_plain(b, escape_end(b, i + 1));
            }
        } else {
            lemma_visible_is_plain(b, i + 1);
            if b[i] != 0x0d {
                let rest = visible(b, i + 1);
                let v = seq![b[i]] + rest;
                assert forall|j: int| 0 <= j < v.len() implies #[trigger] v[j] != 0x1b && v[j]
                    != 0x0d by {
                    if j > 0 {
                        assert(rest.contains(rest[j - 1]));
                    }
                }
            }
        }
    }
}

proof fn lemma_wide_bytes(c: u32)
    by (bit_vector)
    ensures
        0x80 | (c & 0x3F) as u8 >= 0x80u8,
        0x80 | ((c >> 6) & 0x3F) as u8 >= 0x80u8,
        0x80 | ((c >> 12) & 0x3F) as u8 >= 0x80u8,
        0xC0 | ((c >> 6) & 0x1F) as u8 >= 0x80u8,
        0xE0 | ((c >> 12) & 0x0F) as u8 >= 0x80u8,
        0xF0 | ((c >> 18) & 0x7) as u8 >= 0x80u8,
{
}

/// The ASCII bytes of a text are its ASCII characters.
proof fn lemma_ascii_bytes(s: Seq<char>, j: int)
    requires
        0 <= j < text_bytes(s).len(),
        text_bytes(s)[j] < 0x80,
    ensures
        s.contains(text_bytes(s)[j] as u32 as char),
    decreases s.len(),
{
    if s.len() > 0 {
        let c = s[0] as u32;
        let first = vstd::utf8::encode_scalar(c);
        let rest = s.drop_first();
        lemma_wide_bytes(c);
        vstd::utf8::char_is_scalar(s[0]);
        assert(text_bytes(s) =~= first + text_bytes(rest));
        if j < first.len() {
            assert(c <= 0x7F);
            assert((c & 0x7F) as u8 == c as u8) by (bit_vector)
                requires
                    c <= 0x7F,
            ;
            vstd::utf8::char_u32_cast(s[0], c);
            assert(text_bytes(s)[j] as u32 == c);
            assert(s[0] == text_bytes(s)[j] as u32 as char);
        } else {
            lemma_ascii_bytes(rest, j - first.len());
            let k = choose|k: int|
                0 <= k < rest.len() && rest[k] == text_bytes(s)[j] as u32 as char;
            assert(s[k + 1] == rest[k]);
        }
    }
}

/// A text without escape characters and carriage returns is shown as it is.
pub proof fn law_plain_text_stays(s: Seq<char>)
    requires
        is_plain(s),
    ensures
        shown(s) == s,
{
    let b = text_bytes(s);
    assert forall|j: int| 0 <= j < b.len() implies #[trigger] b[j] != 0x1b && b[j] != 0x0d by {
        if b[j] == 0x1b || b[j] == 0x0d {
            lemma_ascii_bytes(s, j);
            assert(0x1bu32 as char == '\x1b');
            assert(0x0du32 as char == '\r');
        }
    }
    law_plain_bytes_stay(b, 0);
    assert(b.skip(0) =~= b);
    vstd::utf8::encode_utf8_valid_utf8(s);
    vstd::utf8::encode_utf8_decode_utf8(s);
}

/// What is shown of bytes without escape sequences and carriage returns is all
/// of them.
pub proof fn law_plain_bytes_stay(b: Seq<u8>, i: int)
    requires
        0 <= i <= b.len(),
        forall|j: int| 0 <= j < b.len() ==> #[trigger] b[j] != 0x1b && b[j] != 0x0d,
    ensures
        visible(b, i) == b.skip(i),
    decreases b.len() - i,
{
    if i < b.len() {
        law_plain_bytes_stay(b, i + 1);
        assert(b[i] != 0x1b);
        assert(b.skip(i) =~= seq![b[i]] + b.skip(i + 1));
    } else {
        assert(b.skip(i) =~= Seq::empty());
    }
}

} // verus!
