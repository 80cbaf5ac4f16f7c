//! Text operations, stated over sequences of characters.
use vstd::prelude::*;
use vstd::string::*;

verus! {

broadcast use vstd::string::group_string_axioms;

/// Appends one character to a string. The claim is the documented effect of
/// `String::push`: the text grows by that character at its end.
pub assume_specification[ String::push ](s: &mut String, c: char)
    ensures
        final(s)@ == old(s)@.push(c),
;

// ----- specifications -----

/// The texts held by a sequence of strings.
pub open spec fn texts(v: Seq<String>) -> Seq<Seq<char>> {
    v.map_values(|s: String| s@)
}

/// Unicode `White_Space`.
pub open spec fn is_white(c: char) -> bool {
    let u = c as u32;
    ||| 9 <= u <= 13
    ||| u == 32
    ||| u == 0x85
    ||| u == 0xA0
    ||| u == 0x1680
    ||| 0x2000 <= u <= 0x200A
    ||| u == 0x2028
    ||| u == 0x2029
    ||| u == 0x202F
    ||| u == 0x205F
    ||| u == 0x3000
}

/// The text without its leading white space.
pub open spec fn trim_start(s: Seq<char>) -> Seq<char>
    decreases s.len(),
{
    if s.len() > 0 && is_white(s[0]) {
        trim_start(s.drop_first())
    } else {
        s
    }
}

/// The text without its trailing white space.
pub open spec fn trim_end(s: Seq<char>) -> Seq<char>
    decreases s.len(),
{
    if s.len() > 0 && is_white(s.last()) {
        trim_end(s.drop_last())
    } else {
        s
    }
}

/// The text without white space at either end.
pub open spec fn trim(s: Seq<char>) -> Seq<char> {
    trim_end(trim_start(s))
}

/// Whether the text is empty or white space only.
pub open spec fn is_blank(s: Seq<char>) -> bool {
    trim(s).len() == 0
}

pub open spec fn is_digit(c: char) -> bool {
    '0' <= c <= '9'
}

pub open spec fn digit_value(c: char) -> nat {
    (c as u32 - '0' as u32) as nat
}

/// A character with ASCII capitals mapped to small letters.
pub open spec fn lower_char(c: char) -> char {
    if 'A' <= c <= 'Z' {
        ((c as u32 + 32) as u32) as char
    } else {
        c
    }
}

/// A text with ASCII capitals mapped to small letters.
pub open spec fn lower(s: Seq<char>) -> Seq<char> {
    s.map_values(|c: char| lower_char(c))
}

/// Equality up to ASCII case.
pub open spec fn same_ignoring_case(a: Seq<char>, b: Seq<char>) -> bool {
    lower(a) == lower(b)
}

pub open spec fn has_prefix(s: Seq<char>, p: Seq<char>) -> bool {
    p.len() <= s.len() && s.subrange(0, p.len() as int) == p
}

pub open spec fn has_suffix(s: Seq<char>, p: Seq<char>) -> bool {
    p.len() <= s.len() && s.subrange(s.len() - p.len(), s.len() as int) == p
}

/// Whether `needle` occurs in `s` at position `i`.
pub open spec fn occurs_at(s: Seq<char>, needle: Seq<char>, i: int) -> bool {
    0 <= i && i + needle.len() <= s.len() && s.subrange(i, i + needle.len()) == needle
}

/// Whether `needle` occurs somewhere in `s`.
pub open spec fn has_infix(s: Seq<char>, needle: Seq<char>) -> bool {
    exists|i: int| occurs_at(s, needle, i)
}

/// The first position from `from` on where `needle` occurs in `s`.
pub open spec fn first_at(s: Seq<char>, needle: Seq<char>, from: int) -> Option<int>
    decreases s.len() + 1 - from,
{
    if from > s.len() {
        None
    } else if occurs_at(s, needle, from) {
        Some(from)
    } else {
        first_at(s, needle, from + 1)
    }
}

/// What stands before and after the first occurrence of `sep`.
pub open spec fn cut_once(s: Seq<char>, sep: Seq<char>) -> Option<(Seq<char>, Seq<char>)> {
    match first_at(s, sep, 0) {
        Some(i) => Some((s.take(i), s.skip(i + sep.len()))),
        None => None,
    }
}

/// The pieces of `s` between the separators; there is always at least one.
pub open spec fn split_on(s: Seq<char>, sep: char) -> Seq<Seq<char>>
    decreases s.len(),
{
    if s.len() == 0 {
        seq![Seq::empty()]
    } else {
        let rest = split_on(s.drop_last(), sep);
        if s.last() == sep {
            rest.push(Seq::empty())
        } else {
            rest.update(rest.len() - 1, rest.last().push(s.last()))
        }
    }
}

/// The parts in order, with the separator between neighbours.
pub open spec fn join(parts: Seq<Seq<char>>, sep: Seq<char>) -> Seq<char>
    decreases parts.len(),
{
    if parts.len() == 0 {
        Seq::empty()
    } else if parts.len() == 1 {
        parts[0]
    } else {
        join(parts.drop_last(), sep) + sep + parts.last()
    }
}

/// Decimal digits of a number, without leading zeros.
pub open spec fn decimal(n: nat) -> Seq<char>
    decreases n,
{
    if n < 10 {
        seq![(('0' as u32 + n) as u32) as char]
    } else {
        decimal(n / 10).push((('0' as u32 + n % 10) as u32) as char)
    }
}

/// Decimal text of an integer.
pub open spec fn decimal_int(n: int) -> Seq<char> {
    if n < 0 {
        seq!['-'] + decimal((-n) as nat)
    } else {
        decimal(n as nat)
    }
}

/// The value of a non-empty run of digits.
pub open spec fn digits_value(s: Seq<char>) -> Option<nat>
    decreases s.len(),
{
    if s.len() == 0 {
        None
    } else if !is_digit(s.last()) {
        None
    } else if s.len() == 1 {
        Some(digit_value(s[0]))
    } else {
        match digits_value(s.drop_last()) {
            Some(v) => Some(v * 10 + digit_value(s.last())),
            None => None,
        }
    }
}

/// The number that a text denotes: digits with an optional plus sign.
pub open spec fn unsigned_value(s: Seq<char>) -> Option<nat> {
    if s.len() > 0 && s[0] == '+' {
        digits_value(s.drop_first())
    } else {
        digits_value(s)
    }
}

/// The number that a text denotes: digits with an optional sign.
pub open spec fn signed_value(s: Seq<char>) -> Option<int> {
    if s.len() > 0 && s[0] == '-' {
        match digits_value(s.drop_first()) {
            Some(v) => Some(-(v as int)),
            None => None,
        }
    } else {
        match unsigned_value(s) {
            Some(v) => Some(v as int),
            None => None,
        }
    }
}

/// `unsigned_value` where it does not exceed `max`.
pub open spec fn unsigned_up_to(s: Seq<char>, max: nat) -> Option<nat> {
    match unsigned_value(s) {
        Some(v) => if v <= max { Some(v) } else { None },
        None => None,
    }
}

/// `signed_value` where it lies between the bounds.
pub open spec fn signed_between(s: Seq<char>, min: int, max: int) -> Option<int> {
    match signed_value(s) {
        Some(v) => if min <= v <= max { Some(v) } else { None },
        None => None,
    }
}

// ----- conversions -----

/// The characters of a text.
pub fn chars_of(s: &str) -> (v: Vec<char>)
    ensures
        v@ == s@,
{
    let mut v: Vec<char> = Vec::new();
    for c in it: s.chars()
        invariant
            it.seq() == s@,
            v@ == s@.take(it.index() as int),
    {
        v.push(c);
        assert(v@ =~= s@.take(it.index() as int + 1));
    }
    assert(v@ =~= s@);
    v
}

/// The text made of the given characters.
pub fn string_of(v: &[char]) -> (s: String)
    ensures
        s@ == v@,
{
    let mut s = String::new();
    let mut i: usize = 0;
    while i < v.len()
        invariant
            i <= v@.len(),
            s@ == v@.take(i as int),
        decreases v@.len() - i,
    {
        s.push(v[i]);
        assert(v@.take(i + 1) =~= v@.take(i as int).push(v@[i as int]));
        i += 1;
    }
    assert(v@.take(i as int) =~= v@);
    s
}

/// The text made of the characters from `from` up to `to`.
pub fn string_of_range(v: &[char], from: usize, to: usize) -> (s: String)
    requires
        from <= to <= v@.len(),
    ensures
        s@ == v@.subrange(from as int, to as int),
{
    let mut s = String::new();
    let mut i: usize = from;
    assert(s@ =~= v@.subrange(from as int, from as int));
    while i < to
        invariant
            from <= i <= to <= v@.len(),
            s@ == v@.subrange(from as int, i as int),
        decreases to - i,
    {
        s.push(v[i]);
        assert(v@.subrange(from as int, i + 1) =~= v@.subrange(from as int, i as int).push(
            v@[i as int],
        ));
        i += 1;
    }
    s
}

// ----- comparisons -----

/// Whether two texts are the same.
pub fn same_text(a: &str, b: &str) -> (r: bool)
    ensures
        r == (a@ == b@),
{
    let x = a.as_bytes();
    let y = b.as_bytes();
    let r = same_bytes(x, y);
    proof {
        vstd::utf8::encode_utf8_decode_utf8(a@);
        vstd::utf8::encode_utf8_decode_utf8(b@);
    }
    r
}

/// Whether two byte strings are the same.
pub fn same_bytes(x: &[u8], y: &[u8]) -> (r: bool)
    ensures
        r == (x@ == y@),
{
    if x.len() != y.len() {
        return false;
    }
    let mut i: usize = 0;
    while i < x.len()
        invariant
            i <= x@.len(),
            x@.len() == y@.len(),
            forall|j: int| 0 <= j < i ==> x@[j] == y@[j],
        decreases x@.len() - i,
    {
        if x[i] != y[i] {
            assert(x@[i as int] != y@[i as int]);
            return false;
        }
        i += 1;
    }
    assert(x@ =~= y@);
    true
}

/// Whether two optional texts are the same.
pub fn same_option(a: &Option<String>, b: &Option<String>) -> (r: bool)
    ensures
        r == (option_text(*a) == option_text(*b)),
{
    match (a, b) {
        (Some(x), Some(y)) => *x == *y,
        (None, None) => true,
        _ => false,
    }
}

/// The text of an optional string.
pub open spec fn option_text(a: Option<String>) -> Option<Seq<char>> {
    match a {
        Some(x) => Some(x@),
        None => None,
    }
}

/// Whether two lists hold the same texts in the same order.
pub fn same_texts(a: &[String], b: &[String]) -> (r: bool)
    ensures
        r == (texts(a@) == texts(b@)),
{
    if a.len() != b.len() {
        assert(texts(a@).len() != texts(b@).len());
        return false;
    }
    let mut i: usize = 0;
    while i < a.len()
        invariant
            i <= a@.len(),
            a@.len() == b@.len(),
            forall|j: int| 0 <= j < i ==> a@[j]@ == b@[j]@,
        decreases a@.len() - i,
    {
        if !(a[i] == b[i]) {
            assert(texts(a@)[i as int] != texts(b@)[i as int]);
            return false;
        }
        i += 1;
    }
    assert(texts(a@) =~= texts(b@));
    true
}

/// Whether a character is Unicode white space.
pub fn white(c: char) -> (r: bool)
    ensures
        r == is_white(c),
{
    let u: u32 = c as u32;
    (9 <= u && u <= 13) || u == 32 || u == 0x85 || u == 0xA0 || u == 0x1680 || (0x2000 <= u && u
        <= 0x200A) || u == 0x2028 || u == 0x2029 || u == 0x202F || u == 0x205F || u == 0x3000
}

/// A character with ASCII capitals mapped to small letters.
pub fn to_lower_char(c: char) -> (r: char)
    ensures
        r == lower_char(c),
{
    if 'A' <= c && c <= 'Z' {
        let b: u8 = c as u8;
        (b + 32) as char
    } else {
        c
    }
}

/// The characters with ASCII capitals mapped to small letters.
pub fn lower_chars(v: &[char]) -> (r: Vec<char>)
    ensures
        r@ == lower(v@),
{
    let mut r: Vec<char> = Vec::new();
    let mut i: usize = 0;
    while i < v.len()
        invariant
            i <= v@.len(),
            r@ == lower(v@.take(i as int)),
        decreases v@.len() - i,
    {
        r.push(to_lower_char(v[i]));
        assert(lower(v@.take(i + 1)) =~= lower(v@.take(i as int)).push(lower_char(v@[i as int])));
        i += 1;
    }
    assert(v@.take(i as int) =~= v@);
    r
}

/// The text with ASCII capitals mapped to small letters.
pub fn to_lower(s: &str) -> (r: String)
    ensures
        r@ == lower(s@),
{
    let v = chars_of(s);
    let l = lower_chars(&v);
    string_of(&l)
}

/// Whether two texts are the same up to ASCII case.
pub fn same_text_ignoring_case(a: &str, b: &str) -> (r: bool)
    ensures
        r == same_ignoring_case(a@, b@),
{
    to_lower(a) == to_lower(b)
}


// ----- searching and cutting -----

/// Whether the characters of `needle` stand in `s` at position `i`.
pub fn chars_occur_at(s: &[char], needle: &[char], i: usize) -> (r: bool)
    ensures
        r == occurs_at(s@, needle@, i as int),
{
    if i > s.len() || needle.len() > s.len() - i {
        return false;
    }
    let len: usize = s.len();
    let mut k: usize = 0;
    while k < needle.len()
        invariant
            k <= needle@.len(),
            len == s@.len(),
            i + needle@.len() <= len,
            forall|j: int| 0 <= j < k ==> s@[i + j] == needle@[j],
        decreases needle@.len() - k,
    {
        if s[i + k] != needle[k] {
            assert(s@.subrange(i as int, i + needle@.len())[k as int] != needle@[k as int]);
            return false;
        }
        k += 1;
    }
    assert(s@.subrange(i as int, i + needle@.len()) =~= needle@);
    true
}

/// The first position at or after `from` where `needle` occurs.
pub fn find_from(s: &[char], needle: &[char], from: usize) -> (r: Option<usize>)
    requires
        from <= s@.len(),
    ensures
        match r {
            Some(i) => {
                &&& from <= i
                &&& occurs_at(s@, needle@, i as int)
                &&& forall|j: int| from <= j < i ==> !occurs_at(s@, needle@, j)
            },
            None => forall|j: int| from <= j ==> !occurs_at(s@, needle@, j),
        },
{
    let mut i: usize = from;
    while i < s.len()
        invariant
            from <= i <= s@.len(),
            forall|j: int| from <= j < i ==> !occurs_at(s@, needle@, j),
        decreases s@.len() - i,
    {
        if chars_occur_at(s, needle, i) {
            return Some(i);
        }
        i += 1;
    }
    if chars_occur_at(s, needle, i) {
        Some(i)
    } else {
        None
    }
}

/// The first position from `from` on where `needle` occurs.
pub fn find_first(s: &[char], needle: &[char], from: usize) -> (r: Option<usize>)
    requires
        from <= s@.len(),
    ensures
        match r {
            Some(i) => first_at(s@, needle@, from as int) == Some(i as int) && from <= i && i
                + needle@.len() <= s@.len(),
            None => first_at(s@, needle@, from as int) is None,
        },
{
    let mut i: usize = from;
    while i < s.len()
        invariant
            from <= i <= s@.len(),
            first_at(s@, needle@, from as int) == first_at(s@, needle@, i as int),
        decreases s@.len() - i,
    {
        if chars_occur_at(s, needle, i) {
            return Some(i);
        }
        i += 1;
    }
    if chars_occur_at(s, needle, i) {
        Some(i)
    } else {
        assert(first_at(s@, needle@, i + 1) is None);
        None
    }
}

/// What stands before and after the first occurrence of `sep`.
pub fn split_once_text(s: &str, sep: &str) -> (r: Option<(String, String)>)
    ensures
        match r {
            Some(p) => cut_once(s@, sep@) == Some((p.0@, p.1@)),
            None => cut_once(s@, sep@) is None,
        },
{
    let v = chars_of(s);
    let n = chars_of(sep);
    match find_first(&v, &n, 0) {
        Some(i) => {
            let a = string_of_range(&v, 0, i);
            let len: usize = v.len();
            let b = string_of_range(&v, i + n.len(), len);
            assert(a@ =~= s@.take(i as int));
            assert(b@ =~= s@.skip(i + sep@.len()));
            Some((a, b))
        },
        None => None,
    }
}

/// Whether `needle` occurs in `s`.
pub fn contains_chars(s: &[char], needle: &[char]) -> (r: bool)
    ensures
        r == has_infix(s@, needle@),
{
    match find_from(s, needle, 0) {
        Some(i) => {
            assert(occurs_at(s@, needle@, i as int));
            true
        },
        None => false,
    }
}

/// Whether `needle` occurs in `s`.
pub fn contains_text(s: &str, needle: &str) -> (r: bool)
    ensures
        r == has_infix(s@, needle@),
{
    let v = chars_of(s);
    let n = chars_of(needle);
    contains_chars(&v, &n)
}

/// Whether `s` begins with `p`.
pub fn starts_with_text(s: &str, p: &str) -> (r: bool)
    ensures
        r == has_prefix(s@, p@),
{
    let v = chars_of(s);
    let n = chars_of(p);
    chars_occur_at(&v, &n, 0)
}

/// Whether `s` ends with `p`.
pub fn ends_with_text(s: &str, p: &str) -> (r: bool)
    ensures
        r == has_suffix(s@, p@),
{
    let v = chars_of(s);
    let n = chars_of(p);
    if n.len() > v.len() {
        return false;
    }
    chars_occur_at(&v, &n, v.len() - n.len())
}

/// The rest of `s` after the prefix `p`.
pub open spec fn after_prefix(s: Seq<char>, p: Seq<char>) -> Option<Seq<char>> {
    if has_prefix(s, p) {
        Some(s.subrange(p.len() as int, s.len() as int))
    } else {
        None
    }
}

/// The rest of `s` after the prefix `p`, where it has it.
pub fn strip_prefix_text(s: &str, p: &str) -> (r: Option<String>)
    ensures
        option_text(r) == after_prefix(s@, p@),
{
    let v = chars_of(s);
    let n = chars_of(p);
    if chars_occur_at(&v, &n, 0) {
        Some(string_of_range(&v, n.len(), v.len()))
    } else {
        None
    }
}

/// Bounds of the characters left by trimming.
pub fn trim_bounds(v: &[char]) -> (r: (usize, usize))
    ensures
        r.0 <= r.1 <= v@.len(),
        v@.subrange(r.0 as int, r.1 as int) == trim(v@),
{
    let mut i: usize = 0;
    assert(v@.subrange(0, v@.len() as int) =~= v@);
    while i < v.len() && white(v[i])
        invariant
            i <= v@.len(),
            trim_start(v@) == trim_start(v@.subrange(i as int, v@.len() as int)),
        decreases v@.len() - i,
    {
        assert(v@.subrange(i as int, v@.len() as int).drop_first() =~= v@.subrange(
            i + 1,
            v@.len() as int,
        ));
        i += 1;
    }
    let ghost t = v@.subrange(i as int, v@.len() as int);
    assert(trim_start(v@) == t);
    let mut j: usize = v.len();
    while j > i && white(v[j - 1])
        invariant
            i <= j <= v@.len(),
            t == v@.subrange(i as int, v@.len() as int),
            trim_end(t) == trim_end(v@.subrange(i as int, j as int)),
        decreases j,
    {
        assert(v@.subrange(i as int, j as int).drop_last() =~= v@.subrange(i as int, j - 1));
        j -= 1;
    }
    (i, j)
}

/// The text without white space at either end.
pub fn trim_text(s: &str) -> (r: String)
    ensures
        r@ == trim(s@),
{
    let v = chars_of(s);
    let (i, j) = trim_bounds(&v);
    string_of_range(&v, i, j)
}

/// The text without leading white space.
pub fn trim_start_text(s: &str) -> (r: String)
    ensures
        r@ == trim_start(s@),
{
    let v = chars_of(s);
    let mut i: usize = 0;
    assert(v@.subrange(0, v@.len() as int) =~= v@);
    while i < v.len() && white(v[i])
        invariant
            i <= v@.len(),
            trim_start(v@) == trim_start(v@.subrange(i as int, v@.len() as int)),
        decreases v@.len() - i,
    {
        assert(v@.subrange(i as int, v@.len() as int).drop_first() =~= v@.subrange(
            i + 1,
            v@.len() as int,
        ));
        i += 1;
    }
    string_of_range(&v, i, v.len())
}

/// Whether the text is empty or white space only.
pub fn blank(s: &str) -> (r: bool)
    ensures
        r == is_blank(s@),
{
    let v = chars_of(s);
    let (i, j) = trim_bounds(&v);
    i == j
}

pub proof fn lemma_split_on_nonempty(s: Seq<char>, sep: char)
    ensures
        split_on(s, sep).len() >= 1,
    decreases s.len(),
{
    if s.len() > 0 {
        lemma_split_on_nonempty(s.drop_last(), sep);
    }
}

/// The pieces of `s` between the separators.
pub fn split_text(s: &str, sep: char) -> (r: Vec<String>)
    ensures
        texts(r@) == split_on(s@, sep),
{
    let v = chars_of(s);
    let mut r: Vec<String> = Vec::new();
    let mut cur = String::new();
    let mut i: usize = 0;
    assert(texts(r@).push(cur@) =~= split_on(v@.take(0), sep));
    while i < v.len()
        invariant
            i <= v@.len(),
            v@ == s@,
            texts(r@).push(cur@) == split_on(v@.take(i as int), sep),
        decreases v@.len() - i,
    {
        let ghost before = split_on(v@.take(i as int), sep);
        assert(v@.take(i + 1).drop_last() =~= v@.take(i as int));
        assert(before.last() == cur@);
        if v[i] == sep {
            let ghost r0 = r@;
            let ghost c0 = cur@;
            r.push(cur);
            cur = String::new();
            assert(texts(r@) =~= texts(r0).push(c0));
            assert(texts(r@).push(cur@) =~= before.push(Seq::empty()));
        } else {
            cur.push(v[i]);
            assert(texts(r@).push(cur@) =~= before.update(
                before.len() - 1,
                before.last().push(v@[i as int]),
            ));
        }
        i += 1;
    }
    assert(v@.take(i as int) =~= s@);
    let ghost r0 = r@;
    let ghost c0 = cur@;
    r.push(cur);
    assert(texts(r@) =~= texts(r0).push(c0));
    r
}

/// The parts in order, with the separator between neighbours.
pub fn join_texts(parts: &[String], sep: &str) -> (r: String)
    ensures
        r@ == join(texts(parts@), sep@),
{
    let mut r = String::new();
    let mut i: usize = 0;
    let ghost all = texts(parts@);
    while i < parts.len()
        invariant
            i <= parts@.len(),
            all == texts(parts@),
            r@ == join(all.take(i as int), sep@),
        decreases parts@.len() - i,
    {
        assert(all.take(i + 1).drop_last() =~= all.take(i as int));
        assert(all.take(i + 1).last() == parts@[i as int]@);
        if i > 0 {
            r.append(sep);
        }
        r.append(parts[i].as_str());
        assert(r@ =~= join(all.take(i + 1), sep@));
        i += 1;
    }
    assert(all.take(i as int) =~= all);
    r
}

// ----- numbers -----

/// The decimal digit for a number below ten.
pub fn digit_char(d: u8) -> (c: char)
    requires
        d < 10,
    ensures
        c as u32 == '0' as u32 + d,
        is_digit(c),
{
    (48 + d) as char
}

/// Decimal text of a number.
pub fn decimal_text(n: u64) -> (r: String)
    ensures
        r@ == decimal(n as nat),
    decreases n,
{
    if n < 10 {
        let mut s = String::new();
        s.push(digit_char(n as u8));
        assert(s@ =~= decimal(n as nat));
        s
    } else {
        let mut s = decimal_text(n / 10);
        s.push(digit_char((n % 10) as u8));
        s
    }
}

/// Decimal text of a signed number.
pub fn decimal_text_signed(n: i64) -> (r: String)
    ensures
        r@ == decimal_int(n as int),
{
    if n < 0 {
        let mut s = String::new();
        s.push('-');
        let m: u64 = if n == i64::MIN {
            9223372036854775808
        } else {
            (-n) as u64
        };
        let d = decimal_text(m);
        s.append(d.as_str());
        assert(s@ =~= seq!['-'] + decimal((-n) as nat));
        s
    } else {
        decimal_text(n as u64)
    }
}

pub proof fn lemma_digits_value_prefix(s: Seq<char>, i: int)
    requires
        0 < i <= s.len(),
        digits_value(s.take(i)) is None,
    ensures
        digits_value(s) is None,
    decreases s.len() - i,
{
    if i < s.len() {
        assert(s.take(i + 1).drop_last() =~= s.take(i));
        lemma_digits_value_prefix(s, i + 1);
    } else {
        assert(s.take(i) =~= s);
    }
}

pub proof fn lemma_digits_value_grows(s: Seq<char>, i: int)
    requires
        0 < i <= s.len(),
        digits_value(s) is Some,
    ensures
        digits_value(s.take(i)) is Some,
        digits_value(s.take(i))->0 <= digits_value(s)->0,
    decreases s.len() - i,
{
    if i < s.len() {
        lemma_digits_value_grows(s, i + 1);
        assert(s.take(i + 1).drop_last() =~= s.take(i));
    } else {
        assert(s.take(i) =~= s);
    }
}

/// The value of the digits from `from` on, where it does not exceed `max`.
pub fn parse_digits(v: &[char], from: usize, max: u64) -> (r: Option<u64>)
    requires
        from <= v@.len(),
    ensures
        match digits_value(v@.subrange(from as int, v@.len() as int)) {
            Some(n) => if n <= max {
                r == Some(n as u64)
            } else {
                r is None
            },
            None => r is None,
        },
{
    let ghost s = v@.subrange(from as int, v@.len() as int);
    if from == v.len() {
        return None;
    }
    let mut acc: u64 = 0;
    let mut i: usize = from;
    while i < v.len()
        invariant
            from <= i <= v@.len(),
            from < v@.len(),
            s == v@.subrange(from as int, v@.len() as int),
            i == from ==> acc == 0,
            i > from ==> digits_value(s.take(i - from)) == Some(acc as nat),
            acc <= max,
        decreases v@.len() - i,
    {
        let c = v[i];
        assert(s.take(i - from + 1).drop_last() =~= s.take(i - from));
        assert(s.take(i - from + 1).last() == c);
        if !('0' <= c && c <= '9') {
            proof {
                lemma_digits_value_prefix(s, i - from + 1);
            }
            return None;
        }
        let d: u64 = (c as u32 - 48) as u64;
        assert(digits_value(s.take(i - from + 1)) == Some((acc * 10 + d) as nat));
        let next = acc as u128 * 10 + d as u128;
        if next > max as u128 {
            proof {
                if digits_value(s) is Some {
                    lemma_digits_value_grows(s, i - from + 1);
                }
            }
            return None;
        }
        acc = next as u64;
        i += 1;
    }
    assert(s.take(i - from) =~= s);
    Some(acc)
}

/// Reads a number up to `max`: digits with an optional plus sign.
pub fn parse_unsigned(s: &str, max: u64) -> (r: Option<u64>)
    ensures
        match unsigned_up_to(s@, max as nat) {
            Some(n) => r == Some(n as u64),
            None => r is None,
        },
        r is Some ==> r->0 <= max,
{
    let v = chars_of(s);
    if v.len() > 0 && v[0] == '+' {
        assert(s@.drop_first() =~= s@.subrange(1, s@.len() as int));
        parse_digits(&v, 1, max)
    } else {
        assert(s@ =~= s@.subrange(0, s@.len() as int));
        parse_digits(&v, 0, max)
    }
}

/// Reads a number of thirty-two bits: digits with an optional sign.
pub fn parse_i32(s: &str) -> (r: Option<i32>)
    ensures
        match signed_between(s@, i32::MIN as int, i32::MAX as int) {
            Some(n) => r == Some(n as i32),
            None => r is None,
        },
{
    let v = chars_of(s);
    if v.len() > 0 && v[0] == '-' {
        assert(s@.drop_first() =~= s@.subrange(1, s@.len() as int));
        match parse_digits(&v, 1, 2147483648) {
            Some(n) => Some((-(n as i64)) as i32),
            None => None,
        }
    } else {
        match parse_unsigned(s, 2147483647) {
            Some(n) => Some(n as i32),
            None => None,
        }
    }
}

/// Reads a number of sixty-four bits: digits with an optional sign.
pub fn parse_i64(s: &str) -> (r: Option<i64>)
    ensures
        match signed_between(s@, i64::MIN as int, i64::MAX as int) {
            Some(n) => r == Some(n as i64),
            None => r is None,
        },
{
    let v = chars_of(s);
    if v.len() > 0 && v[0] == '-' {
        assert(s@.drop_first() =~= s@.subrange(1, s@.len() as int));
        match parse_digits(&v, 1, 9223372036854775808) {
            Some(n) => Some((-(n as i128)) as i64),
            None => None,
        }
    } else {
        match parse_unsigned(s, 9223372036854775807) {
            Some(n) => Some(n as i64),
            None => None,
        }
    }
}

// ----- words and lines -----

/// Whether a character stands between words. Where only ASCII counts, these are
/// the space, the tab, the line feed, the form feed and the carriage return.
pub open spec fn is_gap(c: char, ascii: bool) -> bool {
    if ascii {
        c == ' ' || c == '\t' || c == '\n' || c == '\x0C' || c == '\r'
    } else {
        is_white(c)
    }
}

fn gap(c: char, ascii: bool) -> (r: bool)
    ensures
        r == is_gap(c, ascii),
{
    if ascii {
        c == ' ' || c == '\t' || c == '\n' || c == '\x0C' || c == '\r'
    } else {
        white(c)
    }
}

/// How many characters stand before the first gap.
pub open spec fn word_len(s: Seq<char>, ascii: bool) -> nat
    decreases s.len(),
{
    if s.len() == 0 || is_gap(s[0], ascii) {
        0
    } else {
        1 + word_len(s.skip(1), ascii)
    }
}

/// The words of a text.
pub open spec fn words_of(s: Seq<char>, ascii: bool) -> Seq<Seq<char>>
    decreases s.len(),
{
    if s.len() == 0 {
        Seq::empty()
    } else if is_gap(s[0], ascii) {
        words_of(s.skip(1), ascii)
    } else {
        let n = if 1 <= word_len(s, ascii) <= s.len() {
            word_len(s, ascii) as int
        } else {
            1
        };
        seq![s.take(n)] + words_of(s.skip(n), ascii)
    }
}

/// The words of a text, split at white characters.
pub open spec fn words(s: Seq<char>) -> Seq<Seq<char>> {
    words_of(s, false)
}

proof fn lemma_word_len(s: Seq<char>, ascii: bool, n: int)
    requires
        0 <= n <= s.len(),
        forall|j: int| 0 <= j < n ==> !is_gap(#[trigger] s[j], ascii),
        n < s.len() ==> is_gap(s[n], ascii),
    ensures
        word_len(s, ascii) == n,
    decreases n,
{
    if n > 0 {
        let t = s.skip(1);
        assert forall|j: int| 0 <= j < n - 1 implies !is_gap(#[trigger] t[j], ascii) by {
            assert(t[j] == s[j + 1]);
        }
        lemma_word_len(t, ascii, n - 1);
    }
}

/// The words of a text.
pub fn split_gaps(s: &str, ascii: bool) -> (r: Vec<String>)
    ensures
        texts(r@) == words_of(s@, ascii),
{
    let v = chars_of(s);
    let mut r: Vec<String> = Vec::new();
    let mut i: usize = 0;
    assert(s@.skip(0) =~= s@);
    assert(texts(r@) + words_of(s@, ascii) =~= words_of(s@, ascii));
    while i < v.len()
        invariant
            i <= v@.len(),
            v@ == s@,
            words_of(s@, ascii) == texts(r@) + words_of(s@.skip(i as int), ascii),
        decreases v@.len() - i,
    {
        let ghost rest = s@.skip(i as int);
        assert(rest[0] == s@[i as int]);
        if gap(v[i], ascii) {
            assert(rest.skip(1) =~= s@.skip(i + 1));
            i += 1;
        } else {
            let mut j: usize = i + 1;
            while j < v.len() && !gap(v[j], ascii)
                invariant
                    i < j <= v@.len(),
                    v@ == s@,
                    forall|k: int| i <= k < j ==> !is_gap(#[trigger] s@[k], ascii),
                decreases v@.len() - j,
            {
                j += 1;
            }
            let ghost n = j - i;
            proof {
                assert forall|k: int| 0 <= k < n implies !is_gap(#[trigger] rest[k], ascii) by {
                    assert(rest[k] == s@[i + k]);
                }
                assert(n < rest.len() ==> rest[n] == s@[j as int]);
                lemma_word_len(rest, ascii, n);
                assert(rest.take(n) =~= s@.subrange(i as int, j as int));
                assert(rest.skip(n) =~= s@.skip(j as int));
            }
            let ghost before = r@;
            let w = string_of_range(&v, i, j);
            let ghost wv = w@;
            r.push(w);
            proof {
                assert(texts(r@) =~= texts(before).push(wv));
                assert(texts(before) + (seq![wv] + words_of(s@.skip(j as int), ascii)) =~= texts(r@)
                    + words_of(s@.skip(j as int), ascii));
            }
            i = j;
        }
    }
    assert(s@.skip(i as int) =~= Seq::empty());
    assert(texts(r@) + words_of(s@.skip(i as int), ascii) =~= texts(r@));
    r
}

/// The words of a text, split at white characters.
pub fn split_words(s: &str) -> (r: Vec<String>)
    ensures
        texts(r@) == words(s@),
{
    split_gaps(s, false)
}

/// A line without a carriage return at its end.
pub open spec fn without_return(s: Seq<char>) -> Seq<char> {
    if s.len() > 0 && s.last() == '\r' {
        s.drop_last()
    } else {
        s
    }
}

/// The lines of a text. A line ends with a line feed, before which a carriage
/// return may stand; the last line need not end so.
pub open spec fn lines(s: Seq<char>) -> Seq<Seq<char>> {
    let parts = split_on(s, '\n');
    let n = if parts.last().len() == 0 {
        (parts.len() - 1) as nat
    } else {
        parts.len()
    };
    Seq::new(
        n,
        |i: int|
            if i < parts.len() - 1 {
                without_return(parts[i])
            } else {
                parts[i]
            },
    )
}

/// The lines of a text.
pub fn split_lines(s: &str) -> (r: Vec<String>)
    ensures
        texts(r@) == lines(s@),
{
    proof {
        lemma_split_on_nonempty(s@, '\n');
    }
    let parts = split_text(s, '\n');
    let ghost all = split_on(s@, '\n');
    assert(parts@.len() == all.len());
    let total = parts.len();
    assert(all.last() == parts@[total - 1]@);
    let n: usize = if parts[total - 1].as_str().is_empty() {
        total - 1
    } else {
        total
    };
    let mut r: Vec<String> = Vec::new();
    let mut i: usize = 0;
    while i < n
        invariant
            i <= n <= total,
            total == parts@.len(),
            texts(parts@) == all,
            r@.len() == i,
            forall|j: int|
                0 <= j < i ==> (#[trigger] r@[j])@ == (if j < total - 1 {
                    without_return(all[j])
                } else {
                    all[j]
                }),
        decreases n - i,
    {
        assert(all[i as int] == parts@[i as int]@);
        if i < total - 1 {
            let v = chars_of(parts[i].as_str());
            if v.len() > 0 && v[v.len() - 1] == '\r' {
                let t = string_of_range(&v, 0, v.len() - 1);
                assert(t@ =~= without_return(all[i as int]));
                r.push(t);
            } else {
                r.push(parts[i].clone());
            }
        } else {
            r.push(parts[i].clone());
        }
        i += 1;
    }
    assert(texts(r@) =~= lines(s@));
    r
}

/// The last place, at `i` or before, where the needle stands.
pub open spec fn last_at(s: Seq<char>, needle: Seq<char>, i: int) -> Option<int>
    decreases i + 1,
{
    if i < 0 {
        None
    } else if occurs_at(s, needle, i) {
        Some(i)
    } else {
        last_at(s, needle, i - 1)
    }
}

/// What follows the last place where the separator stands; all of the text
/// where it stands nowhere.
pub open spec fn after_last(s: Seq<char>, sep: Seq<char>) -> Seq<char> {
    match last_at(s, sep, s.len() as int) {
        Some(i) => s.skip(i + sep.len()),
        None => s,
    }
}

/// The last place where the needle stands.
pub fn find_last(v: &[char], w: &[char]) -> (r: Option<usize>)
    ensures
        match r {
            Some(i) => last_at(v@, w@, v@.len() as int) == Some(i as int) && i + w@.len()
                <= v@.len(),
            None => last_at(v@, w@, v@.len() as int) is None,
        },
{
    let n = v.len();
    let mut i: usize = n;
    loop
        invariant
            i <= n == v@.len(),
            last_at(v@, w@, n as int) == last_at(v@, w@, i as int),
        ensures
            last_at(v@, w@, n as int) is None,
        decreases i,
    {
        if w.len() <= n - i && chars_occur_at(v, w, i) {
            return Some(i);
        }
        assert(!occurs_at(v@, w@, i as int));
        if i == 0 {
            assert(last_at(v@, w@, -1) is None);
            break;
        }
        i -= 1;
    }
    None
}

/// What follows the last place where the separator stands.
pub fn after_last_text(s: &str, sep: &str) -> (r: String)
    ensures
        r@ == after_last(s@, sep@),
{
    let v = chars_of(s);
    let w = chars_of(sep);
    let n = v.len();
    match find_last(&v, &w) {
        Some(i) => {
            let r = string_of_range(&v, i + w.len(), n);
            assert(r@ =~= s@.skip(i + sep@.len()));
            r
        },
        None => s.to_owned(),
    }
}

/// What stands before and after the last occurrence of `sep`.
pub open spec fn cut_last(s: Seq<char>, sep: Seq<char>) -> Option<(Seq<char>, Seq<char>)> {
    match last_at(s, sep, s.len() as int) {
        Some(i) => Some((s.take(i), s.skip(i + sep.len()))),
        None => None,
    }
}

/// What stands before and after the last occurrence of `sep`.
pub fn split_last_text(s: &str, sep: &str) -> (r: Option<(String, String)>)
    ensures
        match r {
            Some((a, b)) => cut_last(s@, sep@) == Some((a@, b@)),
            None => cut_last(s@, sep@) is None,
        },
{
    let v = chars_of(s);
    let w = chars_of(sep);
    let n = v.len();
    match find_last(&v, &w) {
        Some(i) => {
            let a = string_of_range(&v, 0, i);
            let b = string_of_range(&v, i + w.len(), n);
            assert(a@ =~= s@.take(i as int));
            assert(b@ =~= s@.skip(i + sep@.len()));
            Some((a, b))
        },
        None => None,
    }
}

/// A text without the needle, wherever it stands.
pub open spec fn without(s: Seq<char>, needle: Seq<char>) -> Seq<char>
    decreases s.len(),
{
    if needle.len() == 0 {
        s
    } else {
        match first_at(s, needle, 0) {
            Some(i) => if 0 <= i && i + needle.len() <= s.len() {
                s.take(i) + without(s.skip(i + needle.len()), needle)
            } else {
                s
            },
            None => s,
        }
    }
}

proof fn lemma_first_at_bounds(s: Seq<char>, needle: Seq<char>, from: int)
    requires
        0 <= from,
    ensures
        match first_at(s, needle, from) {
            Some(i) => from <= i && i + needle.len() <= s.len(),
            None => true,
        },
    decreases s.len() + 1 - from,
{
    if from <= s.len() && !occurs_at(s, needle, from) {
        lemma_first_at_bounds(s, needle, from + 1);
    }
}

proof fn lemma_first_at_skip(s: Seq<char>, needle: Seq<char>, k: int, from: int)
    requires
        0 <= k <= s.len(),
        0 <= from,
    ensures
        match first_at(s.skip(k), needle, from) {
            Some(i) => first_at(s, needle, k + from) == Some(k + i),
            None => first_at(s, needle, k + from) is None,
        },
    decreases s.len() + 1 - from,
{
    let t = s.skip(k);
    if from <= t.len() {
        assert(occurs_at(t, needle, from) <==> occurs_at(s, needle, k + from)) by {
            if from + needle.len() <= t.len() {
                assert(t.subrange(from, from + needle.len()) =~= s.subrange(
                    k + from,
                    k + from + needle.len(),
                ));
            }
        }
        if !occurs_at(t, needle, from) {
            lemma_first_at_skip(s, needle, k, from + 1);
        }
    }
}

/// A text without the needle, wherever it stands.
pub fn remove_text(s: &str, needle: &str) -> (r: String)
    ensures
        r@ == without(s@, needle@),
{
    let v = chars_of(s);
    let w = chars_of(needle);
    if w.len() == 0 {
        return s.to_owned();
    }
    let mut r = String::new();
    let mut i: usize = 0;
    assert(s@.skip(0) =~= s@);
    assert(r@ + without(s@, needle@) =~= without(s@, needle@));
    loop
        invariant
            i <= v@.len(),
            v@ == s@,
            w@ == needle@,
            w@.len() > 0,
            without(s@, needle@) == r@ + without(s@.skip(i as int), needle@),
        decreases v@.len() - i,
    {
        let ghost rest = s@.skip(i as int);
        let n = v.len();
        proof {
            lemma_first_at_skip(s@, needle@, i as int, 0);
            lemma_first_at_bounds(rest, needle@, 0);
        }
        match find_first(&v, &w, i) {
            Some(k) => {
                let piece = string_of_range(&v, i, k);
                let ghost before = r@;
                r.append(piece.as_str());
                proof {
                    assert(rest.take(k - i) =~= s@.subrange(i as int, k as int));
                    assert(rest.skip(k - i + needle@.len()) =~= s@.skip(k + needle@.len()));
                    assert(before + (piece@ + without(s@.skip(k + needle@.len()), needle@)) =~= r@
                        + without(s@.skip(k + needle@.len()), needle@));
                }
                i = k + w.len();
            },
            None => {
                let piece = string_of_range(&v, i, n);
                assert(piece@ =~= rest);
                r.append(piece.as_str());
                return r;
            },
        }
    }
}

/// A text without the characters `c` at its end.
pub open spec fn without_trailing(s: Seq<char>, c: char) -> Seq<char>
    decreases s.len(),
{
    if s.len() > 0 && s.last() == c {
        without_trailing(s.drop_last(), c)
    } else {
        s
    }
}

/// A text without the characters `c` at its end.
pub fn trim_trailing(s: &str, c: char) -> (r: String)
    ensures
        r@ == without_trailing(s@, c),
{
    let v = chars_of(s);
    let mut n: usize = v.len();
    assert(s@.take(n as int) =~= s@);
    while n > 0 && v[n - 1] == c
        invariant
            n <= v@.len(),
            v@ == s@,
            without_trailing(s@, c) == without_trailing(s@.take(n as int), c),
        decreases n,
    {
        assert(s@.take(n as int).drop_last() =~= s@.take(n - 1));
        n -= 1;
    }
    let r = string_of_range(&v, 0, n);
    assert(r@ =~= s@.take(n as int));
    r
}

/// Whether a list holds a text.
pub(crate) fn holds_text(v: &Vec<String>, t: &str) -> (r: bool)
    ensures
        r == texts(v@).contains(t@),
{
    let ghost all = texts(v@);
    let mut i: usize = 0;
    while i < v.len()
        invariant
            i <= v@.len(),
            all == texts(v@),
            forall|j: int| 0 <= j < i ==> #[trigger] all[j] != t@,
        decreases v@.len() - i,
    {
        assert(all[i as int] == v@[i as int]@);
        if same_text(v[i].as_str(), t) {
            return true;
        }
        i += 1;
    }
    false
}

} // verus!
