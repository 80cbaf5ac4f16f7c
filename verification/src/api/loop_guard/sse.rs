//! Streamed answers: from bytes to events, and from events to what each choice
//! says.
use vstd::prelude::*;
use vstd::string::*;

use crate::api::fields::{array_items, field_views, object_fields, read_fields, read_items};
use crate::api::json::{byte_views, parse_items, parse_string, raw_items, raw_string};
use crate::text::{holds_text, same_bytes, same_text, texts};

verus! {

broadcast use vstd::string::group_string_axioms;

// ----- bytes -----

/// Whether a byte is an ASCII space, tab, line feed, form feed or carriage
/// return.
pub open spec fn is_space(b: u8) -> bool {
    b == 32 || b == 9 || b == 10 || b == 12 || b == 13
}

/// The bytes without leading white space.
pub open spec fn skip_spaces(s: Seq<u8>) -> Seq<u8>
    decreases s.len(),
{
    if s.len() > 0 && is_space(s[0]) {
        skip_spaces(s.drop_first())
    } else {
        s
    }
}

/// The bytes without trailing white space.
pub open spec fn drop_spaces(s: Seq<u8>) -> Seq<u8>
    decreases s.len(),
{
    if s.len() > 0 && is_space(s.last()) {
        drop_spaces(s.drop_last())
    } else {
        s
    }
}

/// The bytes without white space at either end.
pub open spec fn trimmed(s: Seq<u8>) -> Seq<u8> {
    drop_spaces(skip_spaces(s))
}

fn space(b: u8) -> (r: bool)
    ensures
        r == is_space(b),
{
    b == 32 || b == 9 || b == 10 || b == 12 || b == 13
}

/// The bytes from `from` up to `to`.
pub(crate) fn bytes_between(v: &[u8], from: usize, to: usize) -> (r: Vec<u8>)
    requires
        from <= to <= v@.len(),
    ensures
        r@ == v@.subrange(from as int, to as int),
{
    let mut r: Vec<u8> = Vec::new();
    let mut i: usize = from;
    assert(r@ =~= v@.subrange(from as int, from as int));
    while i < to
        invariant
            from <= i <= to <= v@.len(),
            r@ == v@.subrange(from as int, i as int),
        decreases to - i,
    {
        r.push(v[i]);
        assert(v@.subrange(from as int, i + 1) =~= v@.subrange(from as int, i as int).push(
            v@[i as int],
        ));
        i += 1;
    }
    r
}

/// The bytes without white space at either end.
pub fn trim_ascii(v: &[u8]) -> (r: Vec<u8>)
    ensures
        r@ == trimmed(v@),
{
    let mut i: usize = 0;
    assert(v@.subrange(0, v@.len() as int) =~= v@);
    while i < v.len() && space(v[i])
        invariant
            i <= v@.len(),
            skip_spaces(v@) == skip_spaces(v@.subrange(i as int, v@.len() as int)),
        decreases v@.len() - i,
    {
        assert(v@.subrange(i as int, v@.len() as int).drop_first() =~= v@.subrange(
            i + 1,
            v@.len() as int,
        ));
        i += 1;
    }
    let ghost t = v@.subrange(i as int, v@.len() as int);
    assert(skip_spaces(v@) == t);
    let mut j: usize = v.len();
    while j > i && space(v[j - 1])
        invariant
            i <= j <= v@.len(),
            t == v@.subrange(i as int, v@.len() as int),
            drop_spaces(t) == drop_spaces(v@.subrange(i as int, j as int)),
        decreases j,
    {
        assert(v@.subrange(i as int, j as int).drop_last() =~= v@.subrange(i as int, j - 1));
        j -= 1;
    }
    bytes_between(v, i, j)
}

/// The bytes `[DONE]`.
pub open spec fn done_mark() -> Seq<u8> {
    seq![91u8, 68, 79, 78, 69, 93]
}

/// Whether the data of an event says that the answer is complete.
pub fn is_done(payload: &[u8]) -> (r: bool)
    ensures
        r == (trimmed(payload@) == done_mark()),
{
    let t = trim_ascii(payload);
    let d: [u8; 6] = [91, 68, 79, 78, 69, 93];
    assert(d@ =~= done_mark());
    same_bytes(&t, &d)
}

// ----- numbers and switches in JSON -----

/// The value of a run of digits.
pub open spec fn digit_bytes_value(s: Seq<u8>) -> Option<nat>
    decreases s.len(),
{
    if s.len() == 0 || !(48 <= s.last() <= 57) {
        None
    } else if s.len() == 1 {
        Some((s[0] - 48) as nat)
    } else {
        match digit_bytes_value(s.drop_last()) {
            Some(v) => Some(v * 10 + (s.last() - 48) as nat),
            None => None,
        }
    }
}

/// The integer that a JSON number denotes. One with a fraction or an exponent,
/// and minus zero, denotes none.
pub open spec fn integer_of(s: Seq<u8>) -> Option<i64> {
    if s.len() > 0 && s[0] == 45 {
        match digit_bytes_value(s.drop_first()) {
            Some(v) => if 1 <= v <= i64::MAX + 1 {
                Some((-(v as int)) as i64)
            } else {
                None
            },
            None => None,
        }
    } else {
        match digit_bytes_value(s) {
            Some(v) => if v <= i64::MAX {
                Some(v as i64)
            } else {
                None
            },
            None => None,
        }
    }
}

proof fn lemma_digits_fail(s: Seq<u8>, i: int)
    requires
        0 < i <= s.len(),
        digit_bytes_value(s.take(i)) is None,
    ensures
        digit_bytes_value(s) is None,
    decreases s.len() - i,
{
    if i < s.len() {
        assert(s.take(i + 1).drop_last() =~= s.take(i));
        lemma_digits_fail(s, i + 1);
    } else {
        assert(s.take(i) =~= s);
    }
}

proof fn lemma_digits_grow(s: Seq<u8>, i: int)
    requires
        0 < i <= s.len(),
        digit_bytes_value(s) is Some,
    ensures
        digit_bytes_value(s.take(i)) is Some,
        digit_bytes_value(s.take(i))->0 <= digit_bytes_value(s)->0,
    decreases s.len() - i,
{
    if i < s.len() {
        lemma_digits_grow(s, i + 1);
        assert(s.take(i + 1).drop_last() =~= s.take(i));
    } else {
        assert(s.take(i) =~= s);
    }
}

fn read_digits(v: &[u8], from: usize, max: u64) -> (r: Option<u64>)
    requires
        from <= v@.len(),
    ensures
        match digit_bytes_value(v@.subrange(from as int, v@.len() as int)) {
            Some(n) => if n <= max {
                r == Some(n as u64)
            } else {
                r is None
            },
            None => r is None,
        },
{
    let ghost s = v@.subrange(from as int, v@.len() as int);
    if from == v.len() {
        return None;
    }
    let mut acc: u64 = 0;
    let mut i: usize = from;
    while i < v.len()
        invariant
            from <= i <= v@.len(),
            from < v@.len(),
            s == v@.subrange(from as int, v@.len() as int),
            i == from ==> acc == 0,
            i > from ==> digit_bytes_value(s.take(i - from)) == Some(acc as nat),
            acc <= max,
        decreases v@.len() - i,
    {
        let c = v[i];
        assert(s.take(i - from + 1).drop_last() =~= s.take(i - from));
        assert(s.take(i - from + 1).last() == c);
        if !(48 <= c && c <= 57) {
            proof {
                lemma_digits_fail(s, i - from + 1);
            }
            return None;
        }
        let next = acc as u128 * 10 + (c - 48) as u128;
        assert(digit_bytes_value(s.take(i - from + 1)) == Some(next as nat));
        if next > max as u128 {
            proof {
                if digit_bytes_value(s) is Some {
                    lemma_digits_grow(s, i - from + 1);
                }
            }
            return None;
        }
        acc = next as u64;
        i += 1;
    }
    assert(s.take(i - from) =~= s);
    Some(acc)
}

/// The integer that a JSON number denotes.
pub fn read_integer(v: &[u8]) -> (r: Option<i64>)
    ensures
        r == integer_of(v@),
{
    if v.len() > 0 && v[0] == 45 {
        assert(v@.drop_first() =~= v@.subrange(1, v@.len() as int));
        match read_digits(v, 1, 9223372036854775808) {
            Some(n) => if n == 0 {
                None
            } else if n == 9223372036854775808 {
                Some(i64::MIN)
            } else {
                Some(-(n as i64))
            },
            None => None,
        }
    } else {
        assert(v@ =~= v@.subrange(0, v@.len() as int));
        match read_digits(v, 0, 9223372036854775807) {
            Some(n) => Some(n as i64),
            None => None,
        }
    }
}

/// The switch that a JSON text denotes.
pub open spec fn switch_of(s: Seq<u8>) -> Option<bool> {
    if s == seq![116u8, 114, 117, 101] {
        Some(true)
    } else if s == seq![102u8, 97, 108, 115, 101] {
        Some(false)
    } else {
        None
    }
}

/// The switch that a JSON text denotes.
pub fn read_switch(v: &[u8]) -> (r: Option<bool>)
    ensures
        r == switch_of(v@),
{
    let yes: [u8; 4] = [116, 114, 117, 101];
    let no: [u8; 5] = [102, 97, 108, 115, 101];
    assert(yes@ =~= seq![116u8, 114, 117, 101]);
    assert(no@ =~= seq![102u8, 97, 108, 115, 101]);
    if same_bytes(v, &yes) {
        Some(true)
    } else if same_bytes(v, &no) {
        Some(false)
    } else {
        None
    }
}

// ----- fields -----

/// Fields of a JSON object with the JSON texts of their values.
pub type Fields = Seq<(Seq<char>, Seq<u8>)>;

/// Where a field stands, from position `i` on.
pub open spec fn field_at(f: Fields, key: Seq<char>, i: int) -> Option<int>
    decreases f.len() - i,
{
    if i < 0 || i >= f.len() {
        None
    } else if f[i].0 == key {
        Some(i)
    } else {
        field_at(f, key, i + 1)
    }
}

/// The text of a field's value.
pub open spec fn field(f: Fields, key: Seq<char>) -> Option<Seq<u8>> {
    match field_at(f, key, 0) {
        Some(i) => Some(f[i].1),
        None => None,
    }
}

/// A string field; empty where it is absent. None where it is no string.
pub open spec fn text_field(f: Fields, key: Seq<char>) -> Option<Seq<char>> {
    match field(f, key) {
        Some(raw) => raw_string(raw),
        None => Some(Seq::empty()),
    }
}

/// An integer field; zero where it is absent. None where it is no integer.
pub open spec fn integer_field(f: Fields, key: Seq<char>) -> Option<i64> {
    match field(f, key) {
        Some(raw) => integer_of(raw),
        None => Some(0),
    }
}

/// A list field; empty where it is absent. None where it is no list.
pub open spec fn list_field(f: Fields, key: Seq<char>) -> Option<Seq<Seq<u8>>> {
    match field(f, key) {
        Some(raw) => raw_items(raw),
        None => Some(Seq::empty()),
    }
}

/// A switch; off where it is absent. None where it is no switch.
pub open spec fn switch_field(f: Fields, key: Seq<char>) -> Option<bool> {
    match field(f, key) {
        Some(raw) => switch_of(raw),
        None => Some(false),
    }
}

fn find_field(f: &Vec<(String, Vec<u8>)>, key: &str) -> (r: Option<usize>)
    ensures
        match r {
            Some(i) => i < f@.len() && field(field_views(f@), key@) == Some(f@[i as int].1@),
            None => field(field_views(f@), key@) is None,
        },
{
    let mut i: usize = 0;
    while i < f.len()
        invariant
            i <= f@.len(),
            field_at(field_views(f@), key@, 0) == field_at(field_views(f@), key@, i as int),
        decreases f@.len() - i,
    {
        assert(field_views(f@)[i as int] == (f@[i as int].0@, f@[i as int].1@));
        if crate::text::same_text(f[i].0.as_str(), key) {
            return Some(i);
        }
        i += 1;
    }
    None
}

fn read_text_field(f: &Vec<(String, Vec<u8>)>, key: &str) -> (r: Option<String>)
    ensures
        crate::text::option_text(r) == text_field(field_views(f@), key@),
{
    match find_field(f, key) {
        Some(i) => parse_string(&f[i].1),
        None => Some(String::new()),
    }
}

fn read_integer_field(f: &Vec<(String, Vec<u8>)>, key: &str) -> (r: Option<i64>)
    ensures
        r == integer_field(field_views(f@), key@),
{
    match find_field(f, key) {
        Some(i) => read_integer(&f[i].1),
        None => Some(0),
    }
}

/// The byte strings of an optional list.
pub open spec fn option_bytes(v: Option<Vec<Vec<u8>>>) -> Option<Seq<Seq<u8>>> {
    match v {
        Some(x) => Some(byte_views(x@)),
        None => None,
    }
}

fn read_list_field(f: &Vec<(String, Vec<u8>)>, key: &str) -> (r: Option<Vec<Vec<u8>>>)
    ensures
        option_bytes(r) == list_field(field_views(f@), key@),
{
    match find_field(f, key) {
        Some(i) => parse_items(&f[i].1),
        None => {
            let v: Vec<Vec<u8>> = Vec::new();
            assert(byte_views(v@) =~= Seq::empty());
            Some(v)
        },
    }
}

fn read_switch_field(f: &Vec<(String, Vec<u8>)>, key: &str) -> (r: Option<bool>)
    ensures
        r == switch_field(field_views(f@), key@),
{
    match find_field(f, key) {
        Some(i) => read_switch(&f[i].1),
        None => Some(false),
    }
}

/// Whether no field with one of the names occurs twice.
pub open spec fn told_once(f: Fields, names: Seq<Seq<char>>) -> bool {
    forall|i: int, j: int|
        0 <= i < j < f.len() && (#[trigger] f[i]).0 == (#[trigger] f[j]).0 ==> !names.contains(
            f[i].0,
        )
}

/// The fields of a JSON object in which each of the names occurs once at most.
/// Other names may occur more often.
pub open spec fn known_fields(raw: Seq<u8>, names: Seq<Seq<char>>) -> Option<Fields> {
    match object_fields(raw) {
        Some(f) => if told_once(f, names) {
            Some(f)
        } else {
            None
        },
        None => None,
    }
}

/// The fields of a record: those of a JSON object, or the items of a JSON array
/// under the given names, in their order. An array may be too short; one that
/// is too long is no record.
pub open spec fn record_fields(raw: Seq<u8>, names: Seq<Seq<char>>) -> Option<Fields> {
    match object_fields(raw) {
        Some(_) => known_fields(raw, names),
        None => match array_items(raw) {
            Some(items) => if items.len() <= names.len() {
                Some(Seq::new(items.len(), |i: int| (names[i], items[i])))
            } else {
                None
            },
            None => None,
        },
    }
}

fn is_told_once(f: &Vec<(String, Vec<u8>)>, names: &Vec<String>) -> (r: bool)
    ensures
        r == told_once(field_views(f@), texts(names@)),
{
    let ghost fv = field_views(f@);
    let ghost nv = texts(names@);
    let mut i: usize = 0;
    while i < f.len()
        invariant
            i <= f@.len() == fv.len(),
            fv == field_views(f@),
            nv == texts(names@),
            forall|a: int, b: int|
                0 <= a < b < fv.len() && a < i && (#[trigger] fv[a]).0 == (#[trigger] fv[b]).0
                    ==> !nv.contains(fv[a].0),
        decreases f@.len() - i,
    {
        assert(fv[i as int].0 == f@[i as int].0@);
        if holds_text(names, f[i].0.as_str()) {
            let mut j: usize = i + 1;
            while j < f.len()
                invariant
                    i < j <= f@.len() == fv.len(),
                    fv == field_views(f@),
                    nv == texts(names@),
                    nv.contains(fv[i as int].0),
                    fv[i as int].0 == f@[i as int].0@,
                    forall|b: int| i < b < j ==> (#[trigger] fv[b]).0 != fv[i as int].0,
                decreases f@.len() - j,
            {
                assert(fv[j as int].0 == f@[j as int].0@);
                if same_text(f[j].0.as_str(), f[i].0.as_str()) {
                    return false;
                }
                j += 1;
            }
        }
        i += 1;
    }
    true
}

fn read_known(raw: &[u8], names: &Vec<String>) -> (r: Option<Vec<(String, Vec<u8>)>>)
    ensures
        match r {
            Some(f) => known_fields(raw@, texts(names@)) == Some(field_views(f@)),
            None => known_fields(raw@, texts(names@)) is None,
        },
{
    match read_fields(raw) {
        Some(f) => if is_told_once(&f, names) {
            Some(f)
        } else {
            None
        },
        None => None,
    }
}

fn read_record(raw: &Vec<u8>, names: Vec<String>) -> (r: Option<Vec<(String, Vec<u8>)>>)
    ensures
        match r {
            Some(f) => record_fields(raw@, texts(names@)) == Some(field_views(f@)),
            None => record_fields(raw@, texts(names@)) is None,
        },
{
    match read_fields(raw) {
        Some(f) => if is_told_once(&f, &names) {
            Some(f)
        } else {
            None
        },
        None => match read_items(raw) {
            Some(items) => {
                if items.len() > names.len() {
                    return None;
                }
                let mut f: Vec<(String, Vec<u8>)> = Vec::new();
                let mut i: usize = 0;
                while i < items.len()
                    invariant
                        i <= items@.len() <= names@.len(),
                        f@.len() == i,
                        forall|j: int|
                            0 <= j < i ==> (#[trigger] f@[j]).0@ == names@[j]@ && f@[j].1@
                                == items@[j]@,
                    decreases items@.len() - i,
                {
                    f.push((names[i].clone(), bytes_between(&items[i], 0, items[i].len())));
                    assert(f@[i as int].1@ =~= items@[i as int]@);
                    i += 1;
                }
                assert(field_views(f@) =~= Seq::new(
                    byte_views(items@).len(),
                    |j: int| (texts(names@)[j], byte_views(items@)[j]),
                ));
                Some(f)
            },
            None => None,
        },
    }
}

// ----- what a choice says -----

/// What one choice says in one streamed event.
#[derive(Debug)]
pub struct ChoiceDelta {
    pub index: i64,
    pub content: String,
    pub reasoning_content: String,
    /// The JSON texts of the tool calls, as they were sent.
    pub tool_calls: Vec<u8>,
    pub stop: bool,
}

/// The mathematical content of a `ChoiceDelta`.
pub struct DeltaView {
    pub index: i64,
    pub content: Seq<char>,
    pub reasoning_content: Seq<char>,
    pub tool_calls: Seq<u8>,
    pub stop: bool,
}

impl View for ChoiceDelta {
    type V = DeltaView;

    open spec fn view(&self) -> DeltaView {
        DeltaView {
            index: self.index,
            content: self.content@,
            reasoning_content: self.reasoning_content@,
            tool_calls: self.tool_calls@,
            stop: self.stop,
        }
    }
}

/// The deltas as values.
pub open spec fn delta_views(s: Seq<ChoiceDelta>) -> Seq<DeltaView> {
    s.map_values(|d: ChoiceDelta| d@)
}

impl ChoiceDelta {
    /// What the choice says, in the order in which loops are looked for:
    /// reasoning, content, tool calls.
    pub fn detector_bytes(&self) -> (r: Vec<u8>)
        ensures
            r@ == vstd::utf8::encode_utf8(self.reasoning_content@) + vstd::utf8::encode_utf8(
                self.content@,
            ) + self.tool_calls@,
    {
        let a = self.reasoning_content.as_str().as_bytes();
        let b = self.content.as_str().as_bytes();
        let mut r: Vec<u8> = Vec::new();
        r.extend_from_slice(a);
        r.extend_from_slice(b);
        r.extend_from_slice(self.tool_calls.as_slice());
        assert(r@ =~= a@ + b@ + self.tool_calls@);
        r
    }
}

/// One choice of a streamed chat answer.
#[derive(Debug)]
pub struct ChatChoice {
    pub index: i64,
    pub content: String,
    pub reasoning_content: String,
    pub thinking: String,
    pub tool_calls: Vec<Vec<u8>>,
}

/// The mathematical content of a `ChatChoice`.
pub struct ChatView {
    pub index: i64,
    pub content: Seq<char>,
    pub reasoning_content: Seq<char>,
    pub thinking: Seq<char>,
    pub tool_calls: Seq<Seq<u8>>,
}

impl View for ChatChoice {
    type V = ChatView;

    open spec fn view(&self) -> ChatView {
        ChatView {
            index: self.index,
            content: self.content@,
            reasoning_content: self.reasoning_content@,
            thinking: self.thinking@,
            tool_calls: byte_views(self.tool_calls@),
        }
    }
}

/// The choices as values.
pub open spec fn chat_views(s: Seq<ChatChoice>) -> Seq<ChatView> {
    s.map_values(|c: ChatChoice| c@)
}

/// The byte strings one after the other.
pub open spec fn concat_bytes(s: Seq<Seq<u8>>) -> Seq<u8>
    decreases s.len(),
{
    if s.len() == 0 {
        Seq::empty()
    } else {
        concat_bytes(s.drop_last()) + s.last()
    }
}

fn join_bytes(v: &Vec<Vec<u8>>) -> (r: Vec<u8>)
    ensures
        r@ == concat_bytes(byte_views(v@)),
{
    let ghost all = byte_views(v@);
    let mut r: Vec<u8> = Vec::new();
    let mut i: usize = 0;
    while i < v.len()
        invariant
            i <= v@.len(),
            all == byte_views(v@),
            r@ == concat_bytes(all.take(i as int)),
        decreases v@.len() - i,
    {
        assert(all.take(i + 1).drop_last() =~= all.take(i as int));
        assert(all.take(i + 1).last() == v@[i as int]@);
        r.extend_from_slice(v[i].as_slice());
        assert(r@ =~= concat_bytes(all.take(i + 1)));
        i += 1;
    }
    assert(all.take(i as int) =~= all);
    r
}

/// What a choice of a chat answer says, if it says anything.
pub open spec fn chat_delta(c: ChatView) -> Option<DeltaView> {
    let reasoning = c.reasoning_content + c.thinking;
    let tools = concat_bytes(c.tool_calls);
    if c.content.len() == 0 && reasoning.len() == 0 && tools.len() == 0 {
        None
    } else {
        Some(
            DeltaView {
                index: c.index,
                content: c.content,
                reasoning_content: reasoning,
                tool_calls: tools,
                stop: false,
            },
        )
    }
}

/// What the first `n` choices of a chat answer say.
pub open spec fn chat_says(s: Seq<ChatView>, n: int) -> Seq<DeltaView>
    decreases n,
{
    if n <= 0 {
        Seq::empty()
    } else {
        match chat_delta(s[n - 1]) {
            Some(d) => chat_says(s, n - 1).push(d),
            None => chat_says(s, n - 1),
        }
    }
}

/// What the choices of a chat answer say.
pub fn chat_deltas(choices: Vec<ChatChoice>) -> (r: Vec<ChoiceDelta>)
    ensures
        delta_views(r@) == chat_says(chat_views(choices@), choices@.len() as int),
{
    let ghost all = choices@;
    let ghost views = chat_views(all);
    let mut r: Vec<ChoiceDelta> = Vec::new();
    assert(delta_views(r@) =~= Seq::empty());
    for c in it: choices
        invariant
            it.seq() == all,
            views == chat_views(all),
            delta_views(r@) == chat_says(views, it.index() as int),
    {
        let ghost at = it.index() as int;
        assert(views[at] == c@);
        let tool_calls = join_bytes(&c.tool_calls);
        let reasoning_content = c.reasoning_content.concat(c.thinking.as_str());
        let says = !c.content.as_str().is_empty() || !reasoning_content.as_str().is_empty()
            || tool_calls.len() > 0;
        if says {
            let ghost before = r@;
            let d = ChoiceDelta {
                index: c.index,
                content: c.content,
                reasoning_content,
                tool_calls,
                stop: false,
            };
            let ghost dv = d@;
            r.push(d);
            assert(delta_views(r@) =~= delta_views(before).push(dv));
        }
    }
    r
}

/// The names in a chat choice.
pub open spec fn chat_names() -> Seq<Seq<char>> {
    seq!["index"@, "delta"@]
}

/// The names in what a chat choice says.
pub open spec fn delta_names() -> Seq<Seq<char>> {
    seq!["content"@, "reasoning_content"@, "thinking"@, "tool_calls"@]
}

/// The deltas of a chat choice, read from the JSON text of the choice.
pub open spec fn chat_choice(raw: Seq<u8>) -> Option<ChatView> {
    match record_fields(raw, chat_names()) {
        Some(f) => {
            let delta = match field(f, "delta"@) {
                Some(d) => record_fields(d, delta_names()),
                None => Some(Seq::empty()),
            };
            match delta {
                Some(d) => match (
                    integer_field(f, "index"@),
                    text_field(d, "content"@),
                    text_field(d, "reasoning_content"@),
                    text_field(d, "thinking"@),
                    list_field(d, "tool_calls"@),
                ) {
                    (Some(index), Some(content), Some(reasoning), Some(thinking), Some(tools)) =>
                    Some(
                        ChatView {
                            index,
                            content,
                            reasoning_content: reasoning,
                            thinking,
                            tool_calls: tools,
                        },
                    ),
                    _ => None,
                },
                None => None,
            }
        },
        None => None,
    }
}

fn read_chat_choice(raw: &Vec<u8>) -> (r: Option<ChatChoice>)
    ensures
        match r {
            Some(c) => chat_choice(raw@) == Some(c@),
            None => chat_choice(raw@) is None,
        },
{
    let names: Vec<String> = vec!["index".to_owned(), "delta".to_owned()];
    assert(texts(names@) =~= chat_names());
    let f = match read_record(raw, names) {
        Some(f) => f,
        None => {
            return None;
        },
    };
    let d: Vec<(String, Vec<u8>)> = match find_field(&f, "delta") {
        Some(i) => {
            let names: Vec<String> = vec![
                "content".to_owned(),
                "reasoning_content".to_owned(),
                "thinking".to_owned(),
                "tool_calls".to_owned(),
            ];
            assert(texts(names@) =~= delta_names());
            match read_record(&f[i].1, names) {
                Some(d) => d,
                None => {
                    return None;
                },
            }
        },
        None => {
            let d: Vec<(String, Vec<u8>)> = Vec::new();
            assert(field_views(d@) =~= Seq::empty());
            d
        },
    };
    let index = match read_integer_field(&f, "index") {
        Some(x) => x,
        None => {
            return None;
        },
    };
    let content = match read_text_field(&d, "content") {
        Some(x) => x,
        None => {
            return None;
        },
    };
    let reasoning_content = match read_text_field(&d, "reasoning_content") {
        Some(x) => x,
        None => {
            return None;
        },
    };
    let thinking = match read_text_field(&d, "thinking") {
        Some(x) => x,
        None => {
            return None;
        },
    };
    let tool_calls = match read_list_field(&d, "tool_calls") {
        Some(x) => x,
        None => {
            return None;
        },
    };
    Some(ChatChoice { index, content, reasoning_content, thinking, tool_calls })
}

/// The first `n` chat choices, if all of them can be read.
pub open spec fn chat_choices(raw: Seq<Seq<u8>>, n: int) -> Option<Seq<ChatView>>
    decreases n,
{
    if n <= 0 {
        Some(Seq::empty())
    } else {
        match (chat_choices(raw, n - 1), chat_choice(raw[n - 1])) {
            (Some(front), Some(c)) => Some(front.push(c)),
            _ => None,
        }
    }
}

/// The JSON texts of the choices in an event.
pub open spec fn event_choices(payload: Seq<u8>) -> Option<Seq<Seq<u8>>> {
    let t = trimmed(payload);
    if t.len() == 0 || t[0] != 123 {
        None
    } else {
        match known_fields(t, seq!["choices"@]) {
            Some(f) => match field(f, "choices"@) {
                Some(raw) => array_items(raw),
                None => None,
            },
            None => None,
        }
    }
}

fn read_event_choices(payload: &[u8]) -> (r: Option<Vec<Vec<u8>>>)
    ensures
        option_bytes(r) == event_choices(payload@),
{
    let t = trim_ascii(payload);
    if t.len() == 0 || t[0] != 123 {
        return None;
    }
    let names: Vec<String> = vec!["choices".to_owned()];
    assert(texts(names@) =~= seq!["choices"@]);
    match read_known(&t, &names) {
        Some(f) => match find_field(&f, "choices") {
            Some(i) => read_items(&f[i].1),
            None => None,
        },
        None => None,
    }
}

/// The chat choices of an event, if all of it can be read.
pub open spec fn chat_event(payload: Seq<u8>) -> Option<Seq<ChatView>> {
    match event_choices(payload) {
        Some(raw) => chat_choices(raw, raw.len() as int),
        None => None,
    }
}

proof fn lemma_unread_chat(raw: Seq<Seq<u8>>, i: int, n: int)
    requires
        0 < i <= n <= raw.len(),
        chat_choices(raw, i) is None,
    ensures
        chat_choices(raw, n) is None,
    decreases n - i,
{
    if i < n {
        lemma_unread_chat(raw, i, n - 1);
    }
}

fn read_chat_event(payload: &[u8]) -> (r: Option<Vec<ChatChoice>>)
    ensures
        match r {
            Some(v) => chat_event(payload@) == Some(chat_views(v@)),
            None => chat_event(payload@) is None,
        },
{
    let raw = match read_event_choices(payload) {
        Some(raw) => raw,
        None => {
            return None;
        },
    };
    let ghost all = byte_views(raw@);
    let mut r: Vec<ChatChoice> = Vec::new();
    let mut i: usize = 0;
    assert(chat_views(r@) =~= Seq::empty());
    while i < raw.len()
        invariant
            i <= raw@.len(),
            all == byte_views(raw@),
            event_choices(payload@) == Some(all),
            chat_choices(all, i as int) == Some(chat_views(r@)),
        decreases raw@.len() - i,
    {
        assert(all[i as int] == raw@[i as int]@);
        match read_chat_choice(&raw[i]) {
            Some(c) => {
                let ghost before = r@;
                let ghost cv = c@;
                r.push(c);
                assert(chat_views(r@) =~= chat_views(before).push(cv));
            },
            None => {
                proof {
                    lemma_unread_chat(all, i + 1, all.len() as int);
                }
                return None;
            },
        }
        i += 1;
    }
    Some(r)
}

/// What an event of a chat stream says. An event that cannot be read says
/// nothing.
pub fn extract_chat(payload: &[u8]) -> (r: Vec<ChoiceDelta>)
    ensures
        delta_views(r@) == (match chat_event(payload@) {
            Some(c) => chat_says(c, c.len() as int),
            None => Seq::empty(),
        }),
{
    match read_chat_event(payload) {
        Some(c) => chat_deltas(c),
        None => {
            let r: Vec<ChoiceDelta> = Vec::new();
            assert(delta_views(r@) =~= Seq::empty());
            r
        },
    }
}

// ----- completions -----

/// One choice of a streamed completion.
#[derive(Debug)]
pub struct TextChoice {
    pub index: i64,
    pub text: String,
}

/// The choices as values.
pub open spec fn text_views(s: Seq<TextChoice>) -> Seq<(i64, Seq<char>)> {
    s.map_values(|c: TextChoice| (c.index, c.text@))
}

/// What the first `n` choices of a completion say.
pub open spec fn text_says(s: Seq<(i64, Seq<char>)>, n: int) -> Seq<DeltaView>
    decreases n,
{
    if n <= 0 {
        Seq::empty()
    } else if s[n - 1].1.len() == 0 {
        text_says(s, n - 1)
    } else {
        text_says(s, n - 1).push(
            DeltaView {
                index: s[n - 1].0,
                content: s[n - 1].1,
                reasoning_content: Seq::empty(),
                tool_calls: Seq::empty(),
                stop: false,
            },
        )
    }
}

/// What the choices of a completion say.
pub fn text_deltas(choices: Vec<TextChoice>) -> (r: Vec<ChoiceDelta>)
    ensures
        delta_views(r@) == text_says(text_views(choices@), choices@.len() as int),
{
    let ghost all = choices@;
    let ghost views = text_views(all);
    let mut r: Vec<ChoiceDelta> = Vec::new();
    assert(delta_views(r@) =~= Seq::empty());
    for c in it: choices
        invariant
            it.seq() == all,
            views == text_views(all),
            delta_views(r@) == text_says(views, it.index() as int),
    {
        let ghost at = it.index() as int;
        assert(views[at] == (c.index, c.text@));
        if !c.text.as_str().is_empty() {
            let ghost before = r@;
            let d = ChoiceDelta {
                index: c.index,
                content: c.text,
                reasoning_content: String::new(),
                tool_calls: Vec::new(),
                stop: false,
            };
            let ghost dv = d@;
            r.push(d);
            assert(delta_views(r@) =~= delta_views(before).push(dv));
        }
    }
    r
}

/// The names in a choice of a completion.
pub open spec fn completion_names() -> Seq<Seq<char>> {
    seq!["index"@, "text"@]
}

/// A choice of a completion, read from its JSON text.
pub open spec fn text_choice(raw: Seq<u8>) -> Option<(i64, Seq<char>)> {
    match record_fields(raw, completion_names()) {
        Some(f) => match (integer_field(f, "index"@), text_field(f, "text"@)) {
            (Some(index), Some(text)) => Some((index, text)),
            _ => None,
        },
        None => None,
    }
}

/// The first `n` choices, if all of them can be read.
pub open spec fn text_choices(raw: Seq<Seq<u8>>, n: int) -> Option<Seq<(i64, Seq<char>)>>
    decreases n,
{
    if n <= 0 {
        Some(Seq::empty())
    } else {
        match (text_choices(raw, n - 1), text_choice(raw[n - 1])) {
            (Some(front), Some(c)) => Some(front.push(c)),
            _ => None,
        }
    }
}

/// The choices of an event, if all of it can be read.
pub open spec fn text_event(payload: Seq<u8>) -> Option<Seq<(i64, Seq<char>)>> {
    match event_choices(payload) {
        Some(raw) => text_choices(raw, raw.len() as int),
        None => None,
    }
}

fn read_text_choice(raw: &Vec<u8>) -> (r: Option<TextChoice>)
    ensures
        match r {
            Some(c) => text_choice(raw@) == Some((c.index, c.text@)),
            None => text_choice(raw@) is None,
        },
{
    let names: Vec<String> = vec!["index".to_owned(), "text".to_owned()];
    assert(texts(names@) =~= completion_names());
    let f = match read_record(raw, names) {
        Some(f) => f,
        None => {
            return None;
        },
    };
    match (read_integer_field(&f, "index"), read_text_field(&f, "text")) {
        (Some(index), Some(text)) => Some(TextChoice { index, text }),
        _ => None,
    }
}

proof fn lemma_unread_text(raw: Seq<Seq<u8>>, i: int, n: int)
    requires
        0 < i <= n <= raw.len(),
        text_choices(raw, i) is None,
    ensures
        text_choices(raw, n) is None,
    decreases n - i,
{
    if i < n {
        lemma_unread_text(raw, i, n - 1);
    }
}

fn read_text_event(payload: &[u8]) -> (r: Option<Vec<TextChoice>>)
    ensures
        match r {
            Some(v) => text_event(payload@) == Some(text_views(v@)),
            None => text_event(payload@) is None,
        },
{
    let raw = match read_event_choices(payload) {
        Some(raw) => raw,
        None => {
            return None;
        },
    };
    let ghost all = byte_views(raw@);
    let mut r: Vec<TextChoice> = Vec::new();
    let mut i: usize = 0;
    assert(text_views(r@) =~= Seq::empty());
    while i < raw.len()
        invariant
            i <= raw@.len(),
            all == byte_views(raw@),
            event_choices(payload@) == Some(all),
            text_choices(all, i as int) == Some(text_views(r@)),
        decreases raw@.len() - i,
    {
        assert(all[i as int] == raw@[i as int]@);
        match read_text_choice(&raw[i]) {
            Some(c) => {
                let ghost before = r@;
                let ghost cv = (c.index, c.text@);
                r.push(c);
                assert(text_views(r@) =~= text_views(before).push(cv));
            },
            None => {
                proof {
                    lemma_unread_text(all, i + 1, all.len() as int);
                }
                return None;
            },
        }
        i += 1;
    }
    Some(r)
}

/// What an event of a completion stream says. An event that cannot be read
/// says nothing.
pub fn extract_completion(payload: &[u8]) -> (r: Vec<ChoiceDelta>)
    ensures
        delta_views(r@) == (match text_event(payload@) {
            Some(c) => text_says(c, c.len() as int),
            None => Seq::empty(),
        }),
{
    match read_text_event(payload) {
        Some(c) => text_deltas(c),
        None => {
            let r: Vec<ChoiceDelta> = Vec::new();
            assert(delta_views(r@) =~= Seq::empty());
            r
        },
    }
}

// ----- llama.cpp -----

/// What an event of llama.cpp's own stream says: some text, or that the answer
/// stops.
pub open spec fn native_says(content: Seq<char>, stop: bool) -> Seq<DeltaView> {
    if content.len() == 0 && !stop {
        Seq::empty()
    } else {
        seq![
            DeltaView {
                index: 0,
                content,
                reasoning_content: Seq::empty(),
                tool_calls: Seq::empty(),
                stop,
            },
        ]
    }
}

/// The text and the stop mark of an event of llama.cpp's own stream.
pub open spec fn native_event(payload: Seq<u8>) -> Option<(Seq<char>, bool)> {
    let t = trimmed(payload);
    if t.len() == 0 || t[0] != 123 {
        None
    } else {
        match known_fields(t, seq!["content"@, "stop"@]) {
            Some(f) => match (text_field(f, "content"@), switch_field(f, "stop"@)) {
                (Some(content), Some(stop)) => Some((content, stop)),
                _ => None,
            },
            None => None,
        }
    }
}

/// What an event of llama.cpp's own stream says.
pub fn native_deltas(content: String, stop: bool) -> (r: Vec<ChoiceDelta>)
    ensures
        delta_views(r@) == native_says(content@, stop),
{
    let mut r: Vec<ChoiceDelta> = Vec::new();
    if content.as_str().is_empty() && !stop {
        assert(delta_views(r@) =~= Seq::empty());
        return r;
    }
    let ghost c = content@;
    r.push(
        ChoiceDelta {
            index: 0,
            content,
            reasoning_content: String::new(),
            tool_calls: Vec::new(),
            stop,
        },
    );
    assert(delta_views(r@) =~= native_says(c, stop));
    r
}

fn read_native_event(payload: &[u8]) -> (r: Option<(String, bool)>)
    ensures
        match r {
            Some((content, stop)) => native_event(payload@) == Some((content@, stop)),
            None => native_event(payload@) is None,
        },
{
    let t = trim_ascii(payload);
    if t.len() == 0 || t[0] != 123 {
        return None;
    }
    let names: Vec<String> = vec!["content".to_owned(), "stop".to_owned()];
    assert(texts(names@) =~= seq!["content"@, "stop"@]);
    match read_known(&t, &names) {
        Some(f) => match (read_text_field(&f, "content"), read_switch_field(&f, "stop")) {
            (Some(content), Some(stop)) => Some((content, stop)),
            _ => None,
        },
        None => None,
    }
}

/// What an event of llama.cpp's own stream says. An event that cannot be read
/// says nothing.
pub fn extract_llama_cpp(payload: &[u8]) -> (r: Vec<ChoiceDelta>)
    ensures
        delta_views(r@) == (match native_event(payload@) {
            Some(e) => native_says(e.0, e.1),
            None => Seq::empty(),
        }),
{
    match read_native_event(payload) {
        Some((content, stop)) => native_deltas(content, stop),
        None => {
            let r: Vec<ChoiceDelta> = Vec::new();
            assert(delta_views(r@) =~= Seq::empty());
            r
        },
    }
}

/// Whether an event of llama.cpp's own stream carries the stop mark.
pub fn stops(payload: &[u8]) -> (r: bool)
    ensures
        r == (native_event(payload@) matches Some(e) && e.1),
{
    match read_native_event(payload) {
        Some((_, stop)) => stop,
        None => false,
    }
}

// ----- from bytes to events -----

/// A line without its line end.
pub open spec fn bare_line(s: Seq<u8>) -> Seq<u8>
    decreases s.len(),
{
    if s.len() > 0 && (s.last() == 10 || s.last() == 13) {
        bare_line(s.drop_last())
    } else {
        s
    }
}

/// The bytes `data:`.
pub open spec fn data_mark() -> Seq<u8> {
    seq![100u8, 97, 116, 97, 58]
}

/// Whether a line carries data of an event.
pub open spec fn carries_data(line: Seq<u8>) -> bool {
    line.len() >= 5 && line.subrange(0, 5) == data_mark()
}

/// What a line adds to the data gathered so far: an empty line ends the event,
/// a data line adds its data, and any other line adds nothing.
pub open spec fn after_line(event: Seq<u8>, line: Seq<u8>) -> (Seq<u8>, Seq<Seq<u8>>) {
    let l = bare_line(line);
    if l.len() == 0 {
        if event.len() == 0 {
            (event, Seq::empty())
        } else {
            (Seq::empty(), seq![event])
        }
    } else if carries_data(l) {
        let data = trimmed(l.skip(5));
        (
            if event.len() == 0 {
                data
            } else {
                event.push(10) + data
            },
            Seq::empty(),
        )
    } else {
        (event, Seq::empty())
    }
}

/// What was gathered of a stream: the data of an event, and part of a line.
pub struct Gathered {
    pub event: Seq<u8>,
    pub line: Seq<u8>,
}

/// What one more byte makes of what was gathered, and the events that it ends.
pub open spec fn take_byte(g: Gathered, b: u8) -> (Gathered, Seq<Seq<u8>>) {
    let line = g.line.push(b);
    if b == 10 {
        let r = after_line(g.event, line);
        (Gathered { event: r.0, line: Seq::empty() }, r.1)
    } else {
        (Gathered { event: g.event, line }, Seq::empty())
    }
}

/// What a piece of a stream makes of what was gathered, and the events that it
/// ends.
pub open spec fn take_bytes(g: Gathered, s: Seq<u8>) -> (Gathered, Seq<Seq<u8>>)
    decreases s.len(),
{
    if s.len() == 0 {
        (g, Seq::empty())
    } else {
        let front = take_bytes(g, s.drop_last());
        let last = take_byte(front.0, s.last());
        (last.0, front.1 + last.1)
    }
}

/// The events that the end of a stream brings.
pub open spec fn last_events(g: Gathered) -> Seq<Seq<u8>> {
    let r = if g.line.len() == 0 {
        (g.event, Seq::empty())
    } else {
        after_line(g.event, g.line)
    };
    if r.0.len() == 0 {
        r.1
    } else {
        r.1.push(r.0)
    }
}

/// Gathers the bytes of a stream into events.
#[derive(Debug)]
pub struct EventParser {
    event_buf: Vec<u8>,
    line_buf: Vec<u8>,
}

impl View for EventParser {
    type V = Gathered;

    closed spec fn view(&self) -> Gathered {
        Gathered { event: self.event_buf@, line: self.line_buf@ }
    }
}

impl EventParser {
    /// A parser at the beginning of a stream.
    pub fn new() -> (r: EventParser)
        ensures
            r@ == (Gathered { event: Seq::empty(), line: Seq::empty() }),
    {
        EventParser { event_buf: Vec::new(), line_buf: Vec::new() }
    }

    fn process_line(&mut self) -> (r: Option<Vec<u8>>)
        ensures
            ({
                let a = after_line(old(self)@.event, old(self)@.line);
                &&& final(self)@ == (Gathered { event: a.0, line: Seq::empty() })
                &&& match r {
                    Some(e) => a.1 == seq![e@],
                    None => a.1.len() == 0,
                }
            }),
    {
        let ghost line = self.line_buf@;
        let mut n: usize = self.line_buf.len();
        assert(line.take(n as int) =~= line);
        while n > 0 && (self.line_buf[n - 1] == 10 || self.line_buf[n - 1] == 13)
            invariant
                n <= self.line_buf@.len(),
                *self == *old(self),
                line == self.line_buf@,
                bare_line(line) == bare_line(line.take(n as int)),
            decreases n,
        {
            assert(line.take(n as int).drop_last() =~= line.take(n - 1));
            n -= 1;
        }
        let ghost l = line.take(n as int);
        assert(bare_line(line) == l);
        if n == 0 {
            self.line_buf = Vec::new();
            assert(self.line_buf@ =~= Seq::empty());
            if self.event_buf.len() == 0 {
                return None;
            }
            let mut e: Vec<u8> = Vec::new();
            std::mem::swap(&mut e, &mut self.event_buf);
            assert(self.event_buf@ =~= Seq::empty());
            return Some(e);
        }
        let mark: [u8; 5] = [100, 97, 116, 97, 58];
        assert(mark@ =~= data_mark());
        if n >= 5 {
            let head = bytes_between(&self.line_buf, 0, 5);
            assert(head@ =~= l.subrange(0, 5));
            if same_bytes(&head, &mark) {
                let tail = bytes_between(&self.line_buf, 5, n);
                assert(tail@ =~= l.skip(5));
                let data = trim_ascii(&tail);
                let ghost before = self.event_buf@;
                if self.event_buf.len() > 0 {
                    self.event_buf.push(10);
                }
                self.event_buf.extend_from_slice(data.as_slice());
                assert(before.len() == 0 ==> self.event_buf@ =~= data@);
                assert(before.len() > 0 ==> self.event_buf@ =~= before.push(10) + data@);
            }
        }
        self.line_buf = Vec::new();
        assert(self.line_buf@ =~= Seq::empty());
        None
    }

    /// Takes a piece of the stream and returns the events that it ends.
    pub fn push(&mut self, chunk: &[u8]) -> (r: Vec<Vec<u8>>)
        ensures
            (final(self)@, byte_views(r@)) == take_bytes(old(self)@, chunk@),
    {
        let mut events: Vec<Vec<u8>> = Vec::new();
        let mut i: usize = 0;
        assert(byte_views(events@) =~= Seq::empty());
        assert(chunk@.take(0) =~= Seq::empty());
        while i < chunk.len()
            invariant
                i <= chunk@.len(),
                (self@, byte_views(events@)) == take_bytes(old(self)@, chunk@.take(i as int)),
            decreases chunk@.len() - i,
        {
            assert(chunk@.take(i + 1).drop_last() =~= chunk@.take(i as int));
            let ghost front = take_bytes(old(self)@, chunk@.take(i as int));
            let ghost before = events@;
            let b = chunk[i];
            self.line_buf.push(b);
            if b == 10 {
                match self.process_line() {
                    Some(e) => {
                        let ghost ev = e@;
                        events.push(e);
                        assert(byte_views(events@) =~= byte_views(before) + seq![ev]);
                    },
                    None => {
                        assert(byte_views(events@) =~= byte_views(before) + Seq::empty());
                    },
                }
            } else {
                assert(byte_views(events@) =~= byte_views(before) + Seq::empty());
            }
            assert(byte_views(events@) =~= front.1 + take_byte(front.0, b).1);
            i += 1;
        }
        assert(chunk@.take(i as int) =~= chunk@);
        events
    }

    /// Ends the stream and returns the events that were left.
    pub fn finish(&mut self) -> (r: Vec<Vec<u8>>)
        ensures
            byte_views(r@) == last_events(old(self)@),
            final(self)@ == (Gathered { event: Seq::empty(), line: Seq::empty() }),
    {
        let mut events: Vec<Vec<u8>> = Vec::new();
        assert(byte_views(events@) =~= Seq::empty());
        if self.line_buf.len() > 0 {
            match self.process_line() {
                Some(e) => {
                    let ghost ev = e@;
                    events.push(e);
                    assert(byte_views(events@) =~= seq![ev]);
                },
                None => {
                    assert(byte_views(events@) =~= Seq::empty());
                },
            }
        }
        assert(self@.line =~= Seq::empty());
        let ghost before = byte_views(events@);
        if self.event_buf.len() > 0 {
            let mut e: Vec<u8> = Vec::new();
            std::mem::swap(&mut e, &mut self.event_buf);
            let ghost ev = e@;
            events.push(e);
            assert(byte_views(events@) =~= before.push(ev));
        }
        assert(self@.event =~= Seq::empty());
        events
    }
}

/// How a stream is cut into pieces makes no difference to its events.
pub proof fn law_events_are_chunk_independent(g: Gathered, a: Seq<u8>, b: Seq<u8>)
    ensures
        take_bytes(g, a + b).0 == take_bytes(take_bytes(g, a).0, b).0,
        take_bytes(g, a + b).1 == take_bytes(g, a).1 + take_bytes(take_bytes(g, a).0, b).1,
    decreases b.len(),
{
    if b.len() == 0 {
        assert(a + b =~= a);
        assert(take_bytes(g, a).1 + Seq::<Seq<u8>>::empty() =~= take_bytes(g, a).1);
    } else {
        assert((a + b).drop_last() =~= a + b.drop_last());
        assert((a + b).last() == b.last());
        law_events_are_chunk_independent(g, a, b.drop_last());
        let m = take_bytes(g, a);
        let n = take_bytes(m.0, b.drop_last());
        let last = take_byte(n.0, b.last());
        assert(m.1 + n.1 + last.1 =~= m.1 + (n.1 + last.1));
    }
}

} // verus!
