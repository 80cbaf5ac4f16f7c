//! What holds of every text, every number in a text and every path.
use vstd::prelude::*;
use vstd::string::*;

use crate::order::text_leq;
use crate::paths::{
    file_name, from_home, is_part, parent_parts, parts, parts_of, shared, stem_and_extension,
};
use crate::text::{
    cut_last, cut_once, decimal, decimal_int, digits_value, first_at, is_gap, is_white, join,
    last_at, lemma_split_on_nonempty, lines, lower, lower_char, occurs_at, signed_value, split_on, trim,
    trim_end, trim_start, unsigned_up_to, unsigned_value, without_return, word_len, words_of,
};

verus! {

broadcast use vstd::string::group_string_axioms;

// ----- white space -----

proof fn lemma_trim_start(s: Seq<char>)
    ensures
        trim_start(s).len() <= s.len(),
        s.skip(s.len() - trim_start(s).len()) == trim_start(s),
        forall|i: int| 0 <= i < s.len() - trim_start(s).len() ==> is_white(#[trigger] s[i]),
        trim_start(s).len() > 0 ==> !is_white(trim_start(s)[0]),
    decreases s.len(),
{
    if s.len() > 0 && is_white(s[0]) {
        let t = s.drop_first();
        lemma_trim_start(t);
        let n = s.len() - trim_start(s).len();
        assert(s.skip(n) =~= t.skip(n - 1));
        assert forall|i: int| 0 <= i < n implies is_white(#[trigger] s[i]) by {
            if i > 0 {
                assert(t[i - 1] == s[i]);
            }
        }
    } else {
        assert(s.skip(0) =~= s);
    }
}

proof fn lemma_trim_end(s: Seq<char>)
    ensures
        trim_end(s).len() <= s.len(),
        s.take(trim_end(s).len() as int) == trim_end(s),
        forall|i: int| trim_end(s).len() <= i < s.len() ==> is_white(#[trigger] s[i]),
        trim_end(s).len() > 0 ==> !is_white(trim_end(s).last()),
    decreases s.len(),
{
    if s.len() > 0 && is_white(s.last()) {
        let t = s.drop_last();
        lemma_trim_end(t);
        let n = trim_end(s).len() as int;
        assert(s.take(n) =~= t.take(n));
        assert forall|i: int| n <= i < s.len() implies is_white(#[trigger] s[i]) by {
            if i < t.len() {
                assert(t[i] == s[i]);
            }
        }
    } else {
        assert(s.take(s.len() as int) =~= s);
    }
}

/// Trimming a text takes away the white space at both ends, all of it and
/// nothing else.
pub proof fn law_trimming_takes_white_space_alone(s: Seq<char>)
    ensures
        exists|i: int, j: int|
            {
                &&& 0 <= i <= j <= s.len()
                &&& trim(s) == #[trigger] s.subrange(i, j)
                &&& forall|k: int| 0 <= k < s.len() && !(i <= k < j) ==> is_white(#[trigger] s[k])
                &&& i < j ==> !is_white(s[i]) && !is_white(s[j - 1])
            },
{
    let t = trim_start(s);
    lemma_trim_start(s);
    lemma_trim_end(t);
    let i = s.len() - t.len();
    let j = i + trim_end(t).len();
    assert(t =~= s.skip(i));
    assert(trim(s) =~= s.subrange(i, j));
    assert forall|k: int| 0 <= k < s.len() && !(i <= k < j) implies is_white(#[trigger] s[k]) by {
        if k >= j {
            assert(t[k - i] == s[k]);
        }
    }
    if i < j {
        assert(t[0] == s[i]);
        assert(trim_end(t).last() == t[j - i - 1]);
        assert(t[j - i - 1] == s[j - 1]);
    }
}

/// White space is what Unicode counts as such: tabs and line breaks, the space
/// and the wider and narrower ones.
pub proof fn law_white_space(c: char)
    ensures
        c == ' ' || c == '\t' || c == '\n' || c == '\r' ==> is_white(c),
        c as u32 == 0x0B || c as u32 == 0x0C || c as u32 == 0x85 || c as u32 == 0xA0 ==> is_white(c),
        c as u32 == 0x1680 || c as u32 == 0x202F || c as u32 == 0x205F || c as u32 == 0x3000
            ==> is_white(c),
        0x2000 <= c as u32 <= 0x200A || c as u32 == 0x2028 || c as u32 == 0x2029 ==> is_white(c),
        is_white(c) && (c as u32) < 0x80 ==> c == ' ' || 9 <= c as u32 <= 13,
        is_white(c) ==> c as u32 <= 0x3000,
        '!' <= c <= '~' ==> !is_white(c),
        is_gap(c, true) ==> is_gap(c, false),
{
}

proof fn lemma_word(s: Seq<char>, ascii: bool)
    ensures
        word_len(s, ascii) <= s.len(),
        forall|i: int| 0 <= i < word_len(s, ascii) ==> !is_gap(#[trigger] s[i], ascii),
        word_len(s, ascii) < s.len() ==> is_gap(s[word_len(s, ascii) as int], ascii),
    decreases s.len(),
{
    if s.len() > 0 && !is_gap(s[0], ascii) {
        let t = s.skip(1);
        lemma_word(t, ascii);
        assert forall|i: int| 0 <= i < word_len(s, ascii) implies !is_gap(
            #[trigger] s[i],
            ascii,
        ) by {
            if i > 0 {
                assert(t[i - 1] == s[i]);
            }
        }
        if word_len(s, ascii) < s.len() {
            assert(t[word_len(t, ascii) as int] == s[word_len(s, ascii) as int]);
        }
    }
}

/// Words hold no gap, none is empty, and every character that is no gap stands
/// in one.
pub proof fn law_words_stand_between_gaps(s: Seq<char>, ascii: bool, i: int)
    ensures
        forall|k: int|
            0 <= k < words_of(s, ascii).len() ==> (#[trigger] words_of(s, ascii)[k]).len() > 0,
        forall|k: int, j: int|
            0 <= k < words_of(s, ascii).len() && 0 <= j < words_of(s, ascii)[k].len() ==> !is_gap(
                #[trigger] words_of(s, ascii)[k][j],
                ascii,
            ),
        0 <= i < s.len() && !is_gap(s[i], ascii) ==> exists|k: int|
            0 <= k < words_of(s, ascii).len() && (#[trigger] words_of(s, ascii)[k]).contains(s[i]),
    decreases s.len(),
{
    if s.len() == 0 {
    } else if is_gap(s[0], ascii) {
        let t = s.skip(1);
        law_words_stand_between_gaps(t, ascii, i - 1);
        assert(words_of(s, ascii) == words_of(t, ascii));
        if 0 < i < s.len() {
            assert(t[i - 1] == s[i]);
        }
    } else {
        lemma_word(s, ascii);
        let n = word_len(s, ascii) as int;
        let t = s.skip(n);
        let w = s.take(n);
        let all = words_of(s, ascii);
        let rest = words_of(t, ascii);
        assert(n >= 1);
        assert(all == seq![w] + rest);
        law_words_stand_between_gaps(t, ascii, i - n);
        assert forall|k: int| 0 <= k < all.len() implies (#[trigger] all[k]).len() > 0 by {
            if k > 0 {
                assert(all[k] == rest[k - 1]);
            }
        }
        assert forall|k: int, j: int| 0 <= k < all.len() && 0 <= j < all[k].len() implies !is_gap(
            #[trigger] all[k][j],
            ascii,
        ) by {
            if k > 0 {
                assert(all[k] == rest[k - 1]);
                assert(!is_gap(rest[k - 1][j], ascii));
            } else {
                assert(all[k][j] == s[j]);
            }
        }
        if 0 <= i < s.len() && !is_gap(s[i], ascii) {
            if i < n {
                assert(w[i] == s[i]);
                assert(all[0].contains(s[i]));
            } else {
                assert(t[i - n] == s[i]);
                let k = choose|k: int|
                    0 <= k < rest.len() && (#[trigger] rest[k]).contains(s[i]);
                assert(all[k + 1] == rest[k]);
            }
        }
    }
}

// ----- case -----

/// In small letters a text has the letters from A to Z as small ones, and all
/// else as it was.
pub proof fn law_capitals_become_small(s: Seq<char>, i: int)
    requires
        0 <= i < s.len(),
    ensures
        lower(s).len() == s.len(),
        'A' <= s[i] && s[i] <= 'Z' ==> 'a' <= lower(s)[i] && lower(s)[i] <= 'z' && lower(s)[i] as u32
            - 'a' as u32 == s[i] as u32 - 'A' as u32,
        !('A' <= s[i] && s[i] <= 'Z') ==> lower(s)[i] == s[i],
        lower_char(s[i]) == lower(s)[i],
{
}

// ----- numbers -----

/// A number that is written is read back as it was, with a plus sign before it
/// too.
pub proof fn law_numbers_are_read_back(n: nat, max: nat)
    ensures
        digits_value(decimal(n)) == Some(n),
        decimal(n).len() > 0,
        forall|i: int| 0 <= i < decimal(n).len() ==> '0' <= #[trigger] decimal(n)[i] && decimal(n)[i] <= '9',
        unsigned_value(decimal(n)) == Some(n),
        unsigned_value(seq!['+'] + decimal(n)) == Some(n),
        n <= max ==> unsigned_up_to(decimal(n), max) == Some(n),
        n > max ==> unsigned_up_to(decimal(n), max) is None,
    decreases n,
{
    if n >= 10 {
        law_numbers_are_read_back(n / 10, max);
        assert(decimal(n).drop_last() =~= decimal(n / 10));
        assert forall|i: int| 0 <= i < decimal(n).len() implies '0' <= #[trigger] decimal(n)[i]
            && decimal(n)[i] <= '9' by {
            if i < decimal(n).len() - 1 {
                assert(decimal(n)[i] == decimal(n / 10)[i]);
            }
        }
    }
    assert(decimal(n)[0] != '+');
    assert((seq!['+'] + decimal(n)).drop_first() =~= decimal(n));
}

/// An integer that is written is read back as it was, whatever its sign.
pub proof fn law_integers_are_read_back(n: int)
    ensures
        signed_value(decimal_int(n)) == Some(n),
{
    if n < 0 {
        law_numbers_are_read_back((-n) as nat, 0);
        assert((seq!['-'] + decimal((-n) as nat)).drop_first() =~= decimal((-n) as nat));
    } else {
        law_numbers_are_read_back(n as nat, 0);
        assert(decimal(n as nat)[0] != '-');
    }
}

/// Numbers are told apart by what is written.
pub proof fn law_numbers_are_written_differently(a: nat, b: nat)
    requires
        a != b,
    ensures
        decimal(a) != decimal(b),
{
    law_numbers_are_read_back(a, 0);
    law_numbers_are_read_back(b, 0);
}

// ----- pieces -----

/// The pieces of a text, with the separator between them, are the text; none of
/// them holds the separator.
pub proof fn law_pieces_joined_are_the_text(s: Seq<char>, sep: char)
    ensures
        join(split_on(s, sep), seq![sep]) == s,
        forall|k: int|
            0 <= k < split_on(s, sep).len() ==> !(#[trigger] split_on(s, sep)[k]).contains(sep),
        split_on(s, sep).len() > 0,
    decreases s.len(),
{
    lemma_split_on_nonempty(s, sep);
    if s.len() > 0 {
        let t = s.drop_last();
        law_pieces_joined_are_the_text(t, sep);
        let rest = split_on(t, sep);
        let all = split_on(s, sep);
        if s.last() == sep {
            assert(all.drop_last() =~= rest);
            assert(join(all, seq![sep]) =~= s);
        } else {
            let last = rest.last().push(s.last());
            assert(all.drop_last() =~= rest.drop_last());
            assert(all.last() == last);
            assert forall|k: int| 0 <= k < all.len() implies !(#[trigger] all[k]).contains(sep) by {
                if k == all.len() - 1 {
                    assert(!rest[k].contains(sep));
                    if last.contains(sep) {
                        let m = choose|m: int| 0 <= m < last.len() && last[m] == sep;
                        assert(rest[k][m] == sep);
                    }
                } else {
                    assert(all[k] == rest[k]);
                }
            }
            assert(join(rest, seq![sep]) == t);
            if rest.len() == 1 {
                assert(all[0] == last);
                assert(rest[0] == t);
            } else {
                assert(join(rest, seq![sep]) == join(rest.drop_last(), seq![sep]) + seq![sep]
                    + rest.last());
            }
            assert(join(all, seq![sep]) =~= join(rest, seq![sep]).push(s.last()));
            assert(join(all, seq![sep]) =~= s);
        }
    } else {
        assert(join(split_on(s, sep), seq![sep]) =~= s);
    }
}

/// A text of lines, each with a line feed at its end or with a carriage return
/// before that, has those lines; what stands behind the last line feed is a line
/// where it is not empty.
pub proof fn law_lines_end_with_line_feeds(s: Seq<char>, line: Seq<char>)
    requires
        !line.contains('\n'),
        s.len() > 0 ==> s.last() == '\n',
    ensures
        line.len() > 0 ==> lines(s + line) == lines(s).push(line),
        line.len() == 0 ==> lines(s + line) == lines(s),
        line.len() > 0 && line.last() != '\r' ==> lines(s + line + seq!['\n']) == lines(s).push(line),
        lines(s + line + seq!['\r', '\n']) == lines(s).push(line),
{
    lemma_lines(s, line);
    let end = line + seq!['\r'];
    assert(!end.contains('\n')) by {
        if end.contains('\n') {
            let k = choose|k: int| 0 <= k < end.len() && end[k] == '\n';
            assert(line[k] == '\n');
        }
    }
    lemma_lines(s, end);
    assert(s + line + seq!['\r', '\n'] =~= s + end + seq!['\n']);
    assert(end.drop_last() =~= line);
    assert(end.last() == '\r');
}

proof fn lemma_lines(s: Seq<char>, line: Seq<char>)
    requires
        !line.contains('\n'),
        s.len() > 0 ==> s.last() == '\n',
    ensures
        line.len() > 0 ==> lines(s + line) == lines(s).push(line),
        line.len() == 0 ==> lines(s + line) == lines(s),
        lines(s + line + seq!['\n']) == lines(s).push(without_return(line)),
{
    let none = Seq::<char>::empty();
    lemma_split_on_nonempty(s, '\n');
    let p = split_on(s, '\n');
    let q = split_on(s + line, '\n');
    let r = split_on(s + line + seq!['\n'], '\n');
    if s.len() == 0 {
        assert(s + line =~= line);
        lemma_one_piece(line, '\n');
        assert(p =~= seq![none]);
        assert(q =~= seq![line]);
    } else {
        let t = s.drop_last();
        assert(s =~= t + seq!['\n'] + none);
        assert(s + line =~= t + seq!['\n'] + line);
        lemma_split_behind(t, '\n', none);
        lemma_split_behind(t, '\n', line);
        lemma_split_on_nonempty(t, '\n');
    }
    assert((s + line + seq!['\n']).drop_last() =~= s + line);
    assert(r =~= q.push(none));
    assert(p.last().len() == 0);
    assert(q.last() == line);
    assert(q.drop_last() =~= p.drop_last());
    if line.len() > 0 {
        assert(lines(s + line) =~= lines(s).push(line));
    } else {
        assert(lines(s + line) =~= lines(s));
    }
    assert(lines(s + line + seq!['\n']) =~= lines(s).push(without_return(line)));
}

proof fn lemma_one_piece(s: Seq<char>, sep: char)
    requires
        !s.contains(sep),
    ensures
        split_on(s, sep) == seq![s],
    decreases s.len(),
{
    if s.len() == 0 {
        assert(s =~= Seq::<char>::empty());
        assert(split_on(s, sep) =~= seq![s]);
    } else {
        let t = s.drop_last();
        assert(s[s.len() - 1] == s.last());
        assert(s.last() != sep) by {
            if s.last() == sep {
                assert(s.contains(sep));
            }
        }
        assert(!t.contains(sep)) by {
            if t.contains(sep) {
                let k = choose|k: int| 0 <= k < t.len() && t[k] == sep;
                assert(s[k] == sep);
            }
        }
        lemma_one_piece(t, sep);
        assert(t.push(s.last()) =~= s);
        assert(split_on(s, sep) =~= seq![s]);
    }
}

pub proof fn lemma_first(s: Seq<char>, sep: Seq<char>, from: int)
    requires
        0 <= from,
    ensures
        match first_at(s, sep, from) {
            Some(i) => from <= i && occurs_at(s, sep, i) && forall|j: int|
                from <= j < i ==> !#[trigger] occurs_at(s, sep, j),
            None => forall|j: int| from <= j ==> !#[trigger] occurs_at(s, sep, j),
        },
    decreases s.len() + 1 - from,
{
    if from <= s.len() {
        lemma_first(s, sep, from + 1);
    }
}

pub proof fn lemma_last(s: Seq<char>, sep: Seq<char>, from: int)
    ensures
        match last_at(s, sep, from) {
            Some(i) => 0 <= i <= from && occurs_at(s, sep, i) && forall|j: int|
                i < j <= from ==> !#[trigger] occurs_at(s, sep, j),
            None => forall|j: int| j <= from ==> !#[trigger] occurs_at(s, sep, j),
        },
    decreases from + 1,
{
    if from >= 0 {
        lemma_last(s, sep, from - 1);
    }
}

/// A text is cut at a separator wherever it holds it: once at the first place,
/// once at the last. What stands before and behind it is kept.
pub proof fn law_texts_are_cut_at_the_separator(s: Seq<char>, sep: Seq<char>, i: int)
    ensures
        cut_once(s, sep) matches Some(p) ==> {
            &&& s == p.0 + sep + p.1
            &&& occurs_at(s, sep, i) ==> p.0.len() <= i
        },
        cut_last(s, sep) matches Some(p) ==> {
            &&& s == p.0 + sep + p.1
            &&& occurs_at(s, sep, i) ==> i <= p.0.len()
        },
        occurs_at(s, sep, i) ==> cut_once(s, sep) is Some && cut_last(s, sep) is Some,
{
    lemma_first(s, sep, 0);
    lemma_last(s, sep, s.len() as int);
    if let Some(k) = first_at(s, sep, 0) {
        assert(s =~= s.take(k) + sep + s.skip(k + sep.len()));
        if occurs_at(s, sep, i) && i < k {
            assert(!occurs_at(s, sep, i));
        }
    }
    if let Some(k) = last_at(s, sep, s.len() as int) {
        assert(s =~= s.take(k) + sep + s.skip(k + sep.len()));
        if occurs_at(s, sep, i) && k < i {
            assert(!occurs_at(s, sep, i));
        }
    }
    if occurs_at(s, sep, i) {
        assert(0 <= i <= s.len());
    }
}

/// Texts stand as in a dictionary: the beginning of a text before the text, and
/// otherwise by the first character in which they differ.
pub proof fn law_texts_stand_as_in_a_dictionary(a: Seq<char>, x: Seq<char>, y: Seq<char>)
    ensures
        text_leq(a, a + x),
        x.len() > 0 && y.len() > 0 && x[0] < y[0] ==> text_leq(a + x, a + y) && !text_leq(
            a + y,
            a + x,
        ),
    decreases a.len(),
{
    if a.len() == 0 {
        assert(a + x =~= x);
        assert(a + y =~= y);
    } else {
        let b = a.drop_first();
        assert((a + x).drop_first() =~= b + x);
        assert((a + y).drop_first() =~= b + y);
        law_texts_stand_as_in_a_dictionary(b, x, y);
    }
}

// ----- paths -----

proof fn lemma_split_behind(p: Seq<char>, sep: char, name: Seq<char>)
    requires
        !name.contains(sep),
    ensures
        split_on(p + seq![sep] + name, sep) == split_on(p, sep).push(name),
    decreases name.len(),
{
    let s = p + seq![sep] + name;
    if name.len() == 0 {
        assert(s.drop_last() =~= p);
        assert(name =~= Seq::empty());
    } else {
        let front = name.drop_last();
        assert(name[name.len() - 1] == name.last());
        assert(name.last() != sep) by {
            if name.last() == sep {
                assert(name.contains(sep));
            }
        }
        assert(!front.contains(sep)) by {
            if front.contains(sep) {
                let k = choose|k: int| 0 <= k < front.len() && front[k] == sep;
                assert(name[k] == sep);
            }
        }
        lemma_split_behind(p, sep, front);
        assert(s.drop_last() =~= p + seq![sep] + front);
        assert(front.push(name.last()) =~= name);
        assert(split_on(s, sep) =~= split_on(p, sep).push(name));
    }
}

proof fn lemma_parts_prefix(a: Seq<Seq<char>>, b: Seq<Seq<char>>, n: int)
    requires
        0 <= n <= a.len(),
        n <= b.len(),
        forall|i: int| 0 <= i < n ==> #[trigger] a[i] == b[i],
    ensures
        parts_of(a, n) == parts_of(b, n),
    decreases n,
{
    if n > 0 {
        assert(a[n - 1] == b[n - 1]);
        lemma_parts_prefix(a, b, n - 1);
    }
}

/// A file in a directory has the parts of the directory and then its name: the
/// name is its file name, and the directory is where it lies. Another slash
/// changes nothing.
pub proof fn law_a_file_lies_in_its_directory(dir: Seq<char>, name: Seq<char>)
    requires
        dir.len() > 0,
        name.len() > 0,
        !name.contains('/'),
        name != "."@,
    ensures
        parts(dir + seq!['/'] + name) == parts(dir).push(name),
        parts(dir + seq!['/']) == parts(dir),
        name != ".."@ ==> file_name(dir + seq!['/'] + name) == Some(name),
        parent_parts(dir + seq!['/'] + name) == Some(parts(dir)),
{
    let path = dir + seq!['/'] + name;
    let p = split_on(dir, '/');
    let q = split_on(path, '/');
    lemma_split_behind(dir, '/', name);
    lemma_split_on_nonempty(dir, '/');
    lemma_parts_prefix(p, q, p.len() as int);
    assert(is_part(q, p.len() as int));
    assert(parts_of(q, q.len() as int) == parts_of(p, p.len() as int).push(name));
    assert(parts(path) =~= parts(dir).push(name));
    assert(parts(path).drop_last() =~= parts(dir));
    let none = Seq::<char>::empty();
    lemma_split_behind(dir, '/', none);
    assert(dir + seq!['/'] + none =~= dir + seq!['/']);
    let r = split_on(dir + seq!['/'], '/');
    lemma_parts_prefix(p, r, p.len() as int);
    assert(!is_part(r, p.len() as int));
    assert(parts(dir + seq!['/']) =~= parts(dir));
    reveal_strlit("/");
    assert(name != "/"@) by {
        if name == "/"@ {
            assert(name[0] == '/');
            assert(name.contains('/'));
        }
    }
}

/// Two paths share the parts in which they agree from the beginning, and not
/// the first in which they differ.
pub proof fn law_paths_share_their_beginning(a: Seq<Seq<char>>, b: Seq<Seq<char>>)
    ensures
        shared(a, b) <= a.len(),
        shared(a, b) <= b.len(),
        a.take(shared(a, b) as int) == b.take(shared(a, b) as int),
        shared(a, b) < a.len() && shared(a, b) < b.len() ==> a[shared(a, b) as int] != b[shared(
            a,
            b,
        ) as int],
    decreases a.len(),
{
    if a.len() > 0 && b.len() > 0 && a[0] == b[0] {
        let x = a.skip(1);
        let y = b.skip(1);
        law_paths_share_their_beginning(x, y);
        let n = shared(x, y) as int;
        assert forall|i: int| 0 <= i < n + 1 implies a[i] == b[i] by {
            if i > 0 {
                assert(x.take(n)[i - 1] == y.take(n)[i - 1]);
            }
        }
        assert(a.take(n + 1) =~= b.take(n + 1));
        if n + 1 < a.len() && n + 1 < b.len() {
            assert(x[n] == a[n + 1] && y[n] == b[n + 1]);
        }
    } else {
        assert(a.take(0) =~= b.take(0));
    }
}

/// The extension of a name stands behind its last dot, unless the name begins
/// with that dot.
pub proof fn law_extensions_stand_behind_the_last_dot(stem: Seq<char>, ext: Seq<char>)
    requires
        !ext.contains('.'),
    ensures
        stem.len() > 0 ==> stem_and_extension(stem + seq!['.'] + ext) == (stem, Some(ext)),
        stem_and_extension(seq!['.'] + ext).1 is None,
        stem_and_extension(ext) == (ext, None::<Seq<char>>),
{
    reveal_strlit(".");
    assert("."@ =~= seq!['.']);
    let s = stem + seq!['.'] + ext;
    lemma_last_dot(stem, ext);
    lemma_last_dot(Seq::empty(), ext);
    assert(Seq::<char>::empty() + seq!['.'] + ext =~= seq!['.'] + ext);
    lemma_last(ext, "."@, ext.len() as int);
    if let Some(i) = last_at(ext, "."@, ext.len() as int) {
        assert(ext.subrange(i, i + 1)[0] == ext[i]);
        assert(ext.contains('.'));
    }
}

proof fn lemma_last_dot(stem: Seq<char>, ext: Seq<char>)
    requires
        !ext.contains('.'),
        "."@ == seq!['.'],
    ensures
        cut_last(stem + seq!['.'] + ext, "."@) == Some((stem, ext)),
{
    let s = stem + seq!['.'] + ext;
    let n = stem.len() as int;
    lemma_last(s, "."@, s.len() as int);
    assert(s.subrange(n, n + 1) =~= seq!['.']);
    assert(occurs_at(s, "."@, n));
    let i = last_at(s, "."@, s.len() as int)->0;
    if i > n {
        assert(s.subrange(i, i + 1)[0] == s[i]);
        assert(ext[i - n - 1] == '.');
        assert(ext.contains('.'));
    }
    assert(i == n);
    assert(s.take(n) =~= stem);
    assert(s.skip(n + 1) =~= ext);
}

/// A tilde stands for the home directory where it stands alone or before a
/// slash, and nowhere else.
pub proof fn law_a_tilde_stands_for_home(rest: Seq<char>)
    ensures
        from_home(seq!['~']),
        from_home(seq!['~', '/'] + rest),
        rest.len() > 0 && rest[0] != '/' && rest[0] != '\\' ==> !from_home(seq!['~'] + rest),
        rest.len() > 0 && rest[0] != '~' ==> !from_home(rest),
{
}

} // verus!
