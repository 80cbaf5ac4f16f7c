//! Paths of a Unix file system, as texts.
use vstd::prelude::*;
use vstd::string::*;

use crate::order::{text_le, text_leq};
use crate::text::{
    chars_of, cut_last, same_text, split_last_text, split_on, split_text, texts,
};

verus! {

broadcast use vstd::string::group_string_axioms;

/// Whether a path begins at the root.
pub open spec fn is_absolute(path: Seq<char>) -> bool {
    path.len() > 0 && path[0] == '/'
}

/// Whether the piece at position `i` between the slashes is a part of the
/// path. Empty pieces are none, and a single dot is one only at the beginning.
pub open spec fn is_part(pieces: Seq<Seq<char>>, i: int) -> bool {
    pieces[i].len() > 0 && (pieces[i] != "."@ || i == 0)
}

/// The parts among the first `n` pieces.
pub open spec fn parts_of(pieces: Seq<Seq<char>>, n: int) -> Seq<Seq<char>>
    decreases n,
{
    if n <= 0 {
        Seq::empty()
    } else if is_part(pieces, n - 1) {
        parts_of(pieces, n - 1).push(pieces[n - 1])
    } else {
        parts_of(pieces, n - 1)
    }
}

/// The parts of a path; the root is a part of its own.
pub open spec fn parts(path: Seq<char>) -> Seq<Seq<char>> {
    let pieces = split_on(path, '/');
    let rest = parts_of(pieces, pieces.len() as int);
    if is_absolute(path) {
        seq!["/"@] + rest
    } else {
        rest
    }
}

/// The parts of a path.
pub fn path_parts(path: &str) -> (r: Vec<String>)
    ensures
        texts(r@) == parts(path@),
{
    let pieces = split_text(path, '/');
    let ghost all = split_on(path@, '/');
    let v = chars_of(path);
    let mut r: Vec<String> = Vec::new();
    let ghost mut head: Seq<Seq<char>> = Seq::empty();
    if v.len() > 0 && v[0] == '/' {
        r.push("/".to_owned());
        proof {
            head = seq!["/"@];
        }
    }
    assert(texts(r@) =~= head + parts_of(all, 0));
    let mut i: usize = 0;
    assert(all.len() == pieces@.len());
    while i < pieces.len()
        invariant
            i <= pieces@.len(),
            texts(pieces@) == all,
            all.len() == pieces@.len(),
            texts(r@) == head + parts_of(all, i as int),
        decreases pieces@.len() - i,
    {
        assert(all[i as int] == pieces@[i as int]@);
        let p = pieces[i].as_str();
        if !p.is_empty() && (!same_text(p, ".") || i == 0) {
            let ghost before = r@;
            let ghost pv = pieces@[i as int]@;
            r.push(pieces[i].clone());
            assert(texts(r@) =~= texts(before).push(pv));
            assert(texts(r@) =~= head + parts_of(all, i as int).push(pv));
        }
        i += 1;
    }
    assert(is_absolute(path@) || head + parts_of(all, i as int) =~= parts_of(all, i as int));
    r
}

/// The parts of the directory in which a path lies, if it lies in one.
pub open spec fn parent_parts(path: Seq<char>) -> Option<Seq<Seq<char>>> {
    let p = parts(path);
    if p.len() == 0 || p.last() == "/"@ {
        None
    } else {
        Some(p.drop_last())
    }
}

/// The optional texts.
pub open spec fn option_texts(v: Option<Vec<String>>) -> Option<Seq<Seq<char>>> {
    match v {
        Some(x) => Some(texts(x@)),
        None => None,
    }
}

/// The parts of the directory in which a path lies, if it lies in one.
pub fn path_parent(path: &str) -> (r: Option<Vec<String>>)
    ensures
        option_texts(r) == parent_parts(path@),
{
    let mut p = path_parts(path);
    let ghost all = p@;
    let n = p.len();
    if n == 0 {
        return None;
    }
    assert(parts(path@).last() == p@[n - 1]@);
    if same_text(p[n - 1].as_str(), "/") {
        return None;
    }
    let _ = p.pop();
    assert(texts(p@) =~= texts(all).drop_last());
    Some(p)
}

/// The last part of a path, where it is a name.
pub open spec fn file_name(path: Seq<char>) -> Option<Seq<char>> {
    let p = parts(path);
    if p.len() == 0 || p.last() == "/"@ || p.last() == "."@ || p.last() == ".."@ {
        None
    } else {
        Some(p.last())
    }
}

/// The last part of a path, where it is a name.
pub fn path_name(path: &str) -> (r: Option<String>)
    ensures
        crate::text::option_text(r) == file_name(path@),
{
    let p = path_parts(path);
    let n = p.len();
    if n == 0 {
        return None;
    }
    assert(parts(path@).last() == p@[n - 1]@);
    let last = p[n - 1].as_str();
    if same_text(last, "/") || same_text(last, ".") || same_text(last, "..") {
        return None;
    }
    Some(p[n - 1].clone())
}

/// A name without and with what follows its last dot. A dot at the beginning
/// separates nothing.
pub open spec fn stem_and_extension(name: Seq<char>) -> (Seq<char>, Option<Seq<char>>) {
    match cut_last(name, "."@) {
        Some((stem, ext)) => if stem.len() > 0 {
            (stem, Some(ext))
        } else {
            (name, None)
        },
        None => (name, None),
    }
}

/// What follows the last dot of a name.
pub fn name_extension(name: &str) -> (r: Option<String>)
    ensures
        crate::text::option_text(r) == stem_and_extension(name@).1,
{
    match split_last_text(name, ".") {
        Some((stem, ext)) => {
            if stem.as_str().is_empty() {
                None
            } else {
                Some(ext)
            }
        },
        None => None,
    }
}

/// A name without what follows its last dot.
pub fn name_stem(name: &str) -> (r: String)
    ensures
        r@ == stem_and_extension(name@).0,
{
    match split_last_text(name, ".") {
        Some((stem, _)) => {
            if stem.as_str().is_empty() {
                name.to_owned()
            } else {
                stem
            }
        },
        None => name.to_owned(),
    }
}

/// How many parts two paths have in common from the beginning.
pub open spec fn shared(a: Seq<Seq<char>>, b: Seq<Seq<char>>) -> nat
    decreases a.len(),
{
    if a.len() == 0 || b.len() == 0 || a[0] != b[0] {
        0
    } else {
        1 + shared(a.skip(1), b.skip(1))
    }
}

proof fn lemma_shared(a: Seq<Seq<char>>, b: Seq<Seq<char>>, n: int)
    requires
        0 <= n <= a.len(),
        n <= b.len(),
        forall|j: int| 0 <= j < n ==> #[trigger] a[j] == b[j],
        n == a.len() || n == b.len() || a[n] != b[n],
    ensures
        shared(a, b) == n,
    decreases n,
{
    if n > 0 {
        let x = a.skip(1);
        let y = b.skip(1);
        assert(a[0] == b[0]);
        assert forall|j: int| 0 <= j < n - 1 implies #[trigger] x[j] == y[j] by {
            assert(a[j + 1] == b[j + 1]);
        }
        lemma_shared(x, y, n - 1);
    }
}

/// How many parts two paths have in common from the beginning.
pub fn shared_prefix_len(a: &Vec<String>, b: &Vec<String>) -> (r: usize)
    ensures
        r == shared(texts(a@), texts(b@)),
        r <= a@.len(),
        r <= b@.len(),
{
    let ghost x = texts(a@);
    let ghost y = texts(b@);
    let mut i: usize = 0;
    while i < a.len() && i < b.len() && same_text(a[i].as_str(), b[i].as_str())
        invariant
            i <= a@.len(),
            i <= b@.len(),
            x == texts(a@),
            y == texts(b@),
            forall|j: int| 0 <= j < i ==> #[trigger] x[j] == y[j],
        ensures
            i == a@.len() || i == b@.len() || x[i as int] != y[i as int],
        decreases a@.len() - i,
    {
        assert(x[i as int] == a@[i as int]@ && y[i as int] == b@[i as int]@);
        i += 1;
    }
    proof {
        lemma_shared(x, y, i as int);
    }
    i
}

/// Whether a path is a directory or lies below it.
pub open spec fn lies_under(path: Seq<char>, root: Seq<char>) -> bool {
    parts(root).is_prefix_of(parts(path))
}

/// Whether a path is a directory or lies below it.
pub fn starts_with_path(path: &str, root: &str) -> (r: bool)
    ensures
        r == lies_under(path@, root@),
{
    let p = path_parts(path);
    let q = path_parts(root);
    let ghost x = parts(path@);
    let ghost y = parts(root@);
    assert(x.len() == p@.len() && y.len() == q@.len());
    if q.len() > p.len() {
        return false;
    }
    let mut i: usize = 0;
    while i < q.len()
        invariant
            i <= q@.len() <= p@.len(),
            x == parts(path@),
            y == parts(root@),
            x == texts(p@),
            y == texts(q@),
            x.len() == p@.len(),
            y.len() == q@.len(),
            forall|j: int| 0 <= j < i ==> #[trigger] x[j] == y[j],
        decreases q@.len() - i,
    {
        assert(x[i as int] == p@[i as int]@ && y[i as int] == q@[i as int]@);
        if !same_text(p[i].as_str(), q[i].as_str()) {
            assert(!y.is_prefix_of(x)) by {
                if y.is_prefix_of(x) {
                    assert(y =~= x.subrange(0, y.len() as int));
                    assert(y[i as int] == x.subrange(0, y.len() as int)[i as int]);
                }
            }
            return false;
        }
        i += 1;
    }
    assert(y =~= x.subrange(0, y.len() as int));
    true
}

/// Whether two lists of parts are the same.
pub fn same_parts(a: &Vec<String>, b: &Vec<String>) -> (r: bool)
    ensures
        r == (texts(a@) == texts(b@)),
{
    let ghost x = texts(a@);
    let ghost y = texts(b@);
    if a.len() != b.len() {
        assert(x.len() != y.len());
        return false;
    }
    let mut i: usize = 0;
    while i < a.len()
        invariant
            i <= a@.len() == b@.len(),
            x == texts(a@),
            y == texts(b@),
            forall|j: int| 0 <= j < i ==> #[trigger] x[j] == y[j],
        decreases a@.len() - i,
    {
        assert(x[i as int] == a@[i as int]@ && y[i as int] == b@[i as int]@);
        if !same_text(a[i].as_str(), b[i].as_str()) {
            return false;
        }
        i += 1;
    }
    assert(x =~= y);
    true
}

/// Whether two paths have the same parts.
pub fn same_path(a: &str, b: &str) -> (r: bool)
    ensures
        r == (parts(a@) == parts(b@)),
{
    same_parts(&path_parts(a), &path_parts(b))
}

/// The parts of an optional path.
pub open spec fn option_parts(path: Option<String>) -> Option<Seq<Seq<char>>> {
    match path {
        Some(p) => Some(parts(p@)),
        None => None,
    }
}

/// Whether two optional paths are both absent or have the same parts.
pub fn same_option_path(a: &Option<String>, b: &Option<String>) -> (r: bool)
    ensures
        r == (option_parts(*a) == option_parts(*b)),
{
    match (a, b) {
        (Some(x), Some(y)) => same_path(x.as_str(), y.as_str()),
        (None, None) => true,
        _ => false,
    }
}

// ----- the order of paths -----

/// The rank of a kind of part: the root, here, up, a name.
pub open spec fn part_rank(p: Seq<char>) -> int {
    if p == "/"@ {
        0
    } else if p == "."@ {
        1
    } else if p == ".."@ {
        2
    } else {
        3
    }
}

/// Whether a part does not stand after another.
pub open spec fn part_leq(a: Seq<char>, b: Seq<char>) -> bool {
    if part_rank(a) != part_rank(b) {
        part_rank(a) < part_rank(b)
    } else {
        text_leq(a, b)
    }
}

/// Whether a path does not stand after another, part by part.
pub open spec fn parts_leq(a: Seq<Seq<char>>, b: Seq<Seq<char>>) -> bool
    decreases a.len(),
{
    if a.len() == 0 {
        true
    } else if b.len() == 0 {
        false
    } else if a[0] == b[0] {
        parts_leq(a.skip(1), b.skip(1))
    } else {
        part_leq(a[0], b[0])
    }
}

/// Whether a path does not stand after another.
pub open spec fn path_leq(a: Seq<char>, b: Seq<char>) -> bool {
    parts_leq(parts(a), parts(b))
}

fn rank_of_part(p: &str) -> (r: u8)
    ensures
        r == part_rank(p@),
{
    if same_text(p, "/") {
        0
    } else if same_text(p, ".") {
        1
    } else if same_text(p, "..") {
        2
    } else {
        3
    }
}

/// Whether a path does not stand after another.
pub fn path_le(a: &str, b: &str) -> (r: bool)
    ensures
        r == path_leq(a@, b@),
{
    let p = path_parts(a);
    let q = path_parts(b);
    let ghost x = parts(a@);
    let ghost y = parts(b@);
    let mut i: usize = 0;
    assert(x.len() == p@.len() && y.len() == q@.len());
    assert(x.skip(0) =~= x && y.skip(0) =~= y);
    while i < p.len() && i < q.len()
        invariant
            i <= p@.len(),
            i <= q@.len(),
            x == parts(a@),
            y == parts(b@),
            x == texts(p@),
            y == texts(q@),
            x.len() == p@.len(),
            y.len() == q@.len(),
            parts_leq(x, y) == parts_leq(x.skip(i as int), y.skip(i as int)),
        decreases p@.len() - i,
    {
        let ghost s = x.skip(i as int);
        let ghost t = y.skip(i as int);
        assert(s[0] == p@[i as int]@ && t[0] == q@[i as int]@);
        if !same_text(p[i].as_str(), q[i].as_str()) {
            let m = rank_of_part(p[i].as_str());
            let n = rank_of_part(q[i].as_str());
            if m != n {
                return m < n;
            }
            return text_le(p[i].as_str(), q[i].as_str());
        }
        assert(s.skip(1) =~= x.skip(i + 1));
        assert(t.skip(1) =~= y.skip(i + 1));
        i += 1;
    }
    i == p.len()
}

// ----- the home directory -----

/// Whether a path begins with a tilde that stands for the home directory of
/// the user.
pub open spec fn from_home(path: Seq<char>) -> bool {
    &&& path.len() >= 1
    &&& path[0] == '~'
    &&& path.len() == 1 || path[1] == '/' || path[1] == '\\'
}

/// Whether a path may be what another one stands for: the same path, or one
/// that has some home directory in the place of the tilde.
pub open spec fn stands_for(path: Seq<char>, full: Seq<char>) -> bool {
    ||| full == path
    ||| from_home(path) && exists|home: Seq<char>| full == #[trigger] (home + path.skip(1))
}

/// Puts the home directory in the place of a tilde, with `shellexpand::tilde`.
/// The claim is that a path that does not begin with a tilde, alone or before
/// a separator, stays as it is, and that of any other one at most the tilde is
/// replaced. What by depends on the user and the environment, and is left open.
#[verifier::external_body]
fn without_tilde(path: &str) -> (r: String)
    ensures
        stands_for(path@, r@),
{
    shellexpand::tilde(path).into_owned()
}

/// A path with the home directory in the place of a tilde.
pub fn expand_tilde(path: &str) -> (r: String)
    ensures
        stands_for(path@, r@),
        !from_home(path@) ==> r@ == path@,
{
    without_tilde(path)
}

} // verus!
