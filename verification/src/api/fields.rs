//! The fields of JSON objects and the items of JSON arrays, as JSON texts. The
//! values are not looked into.
use vstd::prelude::*;
use vstd::slice::slice_subrange;
use vstd::string::*;

use crate::api::json::{byte_views, parse_string, raw_string};
use crate::api::loop_guard::sse::bytes_between;

verus! {

broadcast use vstd::string::group_string_axioms;

// ----- values -----

/// Where the first JSON value of a text ends, if the text begins with one.
pub uninterp spec fn value_end(bytes: Seq<u8>) -> Option<nat>;

/// Passes over the first JSON value of a text with the `next` of
/// `serde_json::StreamDeserializer` for `serde::de::IgnoredAny`, and tells its
/// `byte_offset`. The claim is that what comes out depends on the bytes alone,
/// that nothing comes out exactly where `next` gives no value, and that a value
/// has at least one byte and ends within the text.
#[verifier::external_body]
fn find_value_end(bytes: &[u8]) -> (r: Option<usize>)
    ensures
        match r {
            Some(n) => value_end(bytes@) == Some(n as nat) && 0 < n <= bytes@.len(),
            None => value_end(bytes@) is None,
        },
{
    let text = serde_json::Deserializer::from_slice(bytes);
    let mut values = text.into_iter::<serde::de::IgnoredAny>();
    values.next()?.ok()?;
    Some(values.byte_offset())
}

/// Whether a byte is white space in JSON.
pub open spec fn is_white(b: u8) -> bool {
    b == 32 || b == 9 || b == 10 || b == 13
}

/// The first position from `i` on without white space.
pub open spec fn after_white(s: Seq<u8>, i: int) -> int
    decreases s.len() - i,
{
    if 0 <= i < s.len() && is_white(s[i]) {
        after_white(s, i + 1)
    } else {
        i
    }
}

/// Whether a byte stands at a position.
pub open spec fn stands_at(s: Seq<u8>, i: int, b: u8) -> bool {
    0 <= i < s.len() && s[i] == b
}

/// Whether nothing but white space follows from `i` on.
pub open spec fn ends_at(s: Seq<u8>, i: int) -> bool {
    after_white(s, i) == s.len()
}

/// The value that begins at `i`, after white space, and where it ends.
pub open spec fn value_from(s: Seq<u8>, i: int) -> Option<(Seq<u8>, int)> {
    let j = after_white(s, i);
    if i <= j <= s.len() {
        match value_end(s.subrange(j, s.len() as int)) {
            Some(n) => if 0 < n && j + n <= s.len() {
                Some((s.subrange(j, j + n), j + n))
            } else {
                None
            },
            None => None,
        }
    } else {
        None
    }
}

fn skip_white(v: &[u8], i: usize) -> (r: usize)
    requires
        i <= v@.len(),
    ensures
        r == after_white(v@, i as int),
        i <= r <= v@.len() <= usize::MAX,
{
    let mut j: usize = i;
    while j < v.len() && (v[j] == 32 || v[j] == 9 || v[j] == 10 || v[j] == 13)
        invariant
            i <= j <= v@.len(),
            after_white(v@, i as int) == after_white(v@, j as int),
        decreases v@.len() - j,
    {
        j += 1;
    }
    j
}

fn holds_at(v: &[u8], i: usize, b: u8) -> (r: bool)
    ensures
        r == stands_at(v@, i as int, b),
{
    i < v.len() && v[i] == b
}

fn read_value(v: &[u8], i: usize) -> (r: Option<(Vec<u8>, usize)>)
    requires
        i <= v@.len(),
    ensures
        match r {
            Some((raw, end)) => value_from(v@, i as int) == Some((raw@, end as int)) && i < end
                <= v@.len(),
            None => value_from(v@, i as int) is None,
        },
{
    let j = skip_white(v, i);
    match find_value_end(slice_subrange(v, j, v.len())) {
        Some(n) => Some((bytes_between(v, j, j + n), j + n)),
        None => None,
    }
}

// ----- lists -----

/// The fields in a list.
pub open spec fn field_views(s: Seq<(String, Vec<u8>)>) -> Seq<(Seq<char>, Seq<u8>)> {
    s.map_values(|f: (String, Vec<u8>)| (f.0@, f.1@))
}

/// A list with what stands before it.
pub open spec fn after_front<T>(front: Seq<T>, rest: Option<Seq<T>>) -> Option<Seq<T>> {
    match rest {
        Some(r) => Some(front + r),
        None => None,
    }
}

/// The field that begins at `i`, and where it ends: a name, a colon and a
/// value.
pub open spec fn field_from(s: Seq<u8>, i: int) -> Option<((Seq<char>, Seq<u8>), int)> {
    if !stands_at(s, after_white(s, i), 34) {
        None
    } else {
        match value_from(s, i) {
            Some((key, k)) => match raw_string(key) {
                Some(name) => if stands_at(s, after_white(s, k), 58) {
                    match value_from(s, after_white(s, k) + 1) {
                        Some((raw, end)) => Some(((name, raw), end)),
                        None => None,
                    }
                } else {
                    None
                },
                None => None,
            },
            None => None,
        }
    }
}

/// The fields from `i` on, up to the brace that ends the text.
pub open spec fn fields_from(s: Seq<u8>, i: int) -> Option<Seq<(Seq<char>, Seq<u8>)>>
    decreases s.len() - i,
{
    match field_from(s, i) {
        Some((f, end)) => {
            let d = after_white(s, end);
            if i < d && stands_at(s, d, 44) {
                after_front(seq![f], fields_from(s, d + 1))
            } else if stands_at(s, d, 125) && ends_at(s, d + 1) {
                Some(seq![f])
            } else {
                None
            }
        },
        None => None,
    }
}

/// The fields of a JSON object in their order, each with the JSON text of its
/// value. A name may occur more than once.
pub open spec fn object_fields(s: Seq<u8>) -> Option<Seq<(Seq<char>, Seq<u8>)>> {
    let i = after_white(s, 0);
    let j = after_white(s, i + 1);
    if !stands_at(s, i, 123) {
        None
    } else if !stands_at(s, j, 125) {
        fields_from(s, i + 1)
    } else if ends_at(s, j + 1) {
        Some(Seq::empty())
    } else {
        None
    }
}

/// The items from `i` on, up to the bracket that ends the text.
pub open spec fn items_from(s: Seq<u8>, i: int) -> Option<Seq<Seq<u8>>>
    decreases s.len() - i,
{
    match value_from(s, i) {
        Some((raw, end)) => {
            let d = after_white(s, end);
            if i < d && stands_at(s, d, 44) {
                after_front(seq![raw], items_from(s, d + 1))
            } else if stands_at(s, d, 93) && ends_at(s, d + 1) {
                Some(seq![raw])
            } else {
                None
            }
        },
        None => None,
    }
}

/// The JSON texts of the items of a JSON array.
pub open spec fn array_items(s: Seq<u8>) -> Option<Seq<Seq<u8>>> {
    let i = after_white(s, 0);
    let j = after_white(s, i + 1);
    if !stands_at(s, i, 91) {
        None
    } else if !stands_at(s, j, 93) {
        items_from(s, i + 1)
    } else if ends_at(s, j + 1) {
        Some(Seq::empty())
    } else {
        None
    }
}

fn read_field(v: &[u8], i: usize) -> (r: Option<((String, Vec<u8>), usize)>)
    requires
        i <= v@.len(),
    ensures
        match r {
            Some((f, end)) => field_from(v@, i as int) == Some(((f.0@, f.1@), end as int)) && i
                < end <= v@.len(),
            None => field_from(v@, i as int) is None,
        },
{
    let j = skip_white(v, i);
    if !holds_at(v, j, 34) {
        return None;
    }
    let (key, k) = match read_value(v, i) {
        Some(x) => x,
        None => {
            return None;
        },
    };
    let name = match parse_string(key.as_slice()) {
        Some(n) => n,
        None => {
            return None;
        },
    };
    let c = skip_white(v, k);
    if !holds_at(v, c, 58) {
        return None;
    }
    match read_value(v, c + 1) {
        Some((raw, end)) => Some(((name, raw), end)),
        None => None,
    }
}

/// Reads the fields of a JSON object, in their order.
pub fn read_fields(v: &[u8]) -> (r: Option<Vec<(String, Vec<u8>)>>)
    ensures
        match r {
            Some(f) => object_fields(v@) == Some(field_views(f@)),
            None => object_fields(v@) is None,
        },
{
    let mut out: Vec<(String, Vec<u8>)> = Vec::new();
    assert(field_views(out@) =~= Seq::empty());
    let i = skip_white(v, 0);
    if !holds_at(v, i, 123) {
        return None;
    }
    let j = skip_white(v, i + 1);
    if holds_at(v, j, 125) {
        if skip_white(v, j + 1) == v.len() {
            return Some(out);
        }
        return None;
    }
    let ghost want = fields_from(v@, i + 1);
    let mut at: usize = i + 1;
    assert(want == after_front(field_views(out@), fields_from(v@, at as int))) by {
        if want is Some {
            assert(field_views(out@) + want->0 =~= want->0);
        }
    }
    loop
        invariant
            at <= v@.len(),
            want == after_front(field_views(out@), fields_from(v@, at as int)),
            want == object_fields(v@),
        decreases v@.len() - at,
    {
        let (f, end) = match read_field(v, at) {
            Some(x) => x,
            None => {
                return None;
            },
        };
        let ghost before = out@;
        let ghost fv = (f.0@, f.1@);
        out.push(f);
        assert(field_views(out@) =~= field_views(before) + seq![fv]);
        let d = skip_white(v, end);
        if holds_at(v, d, 44) {
            proof {
                let rest = fields_from(v@, d + 1);
                if rest is Some {
                    assert(field_views(before) + (seq![fv] + rest->0) =~= field_views(out@)
                        + rest->0);
                }
            }
            at = d + 1;
        } else if holds_at(v, d, 125) && skip_white(v, d + 1) == v.len() {
            return Some(out);
        } else {
            return None;
        }
    }
}

/// Reads the items of a JSON array.
pub fn read_items(v: &[u8]) -> (r: Option<Vec<Vec<u8>>>)
    ensures
        match r {
            Some(x) => array_items(v@) == Some(byte_views(x@)),
            None => array_items(v@) is None,
        },
{
    let mut out: Vec<Vec<u8>> = Vec::new();
    assert(byte_views(out@) =~= Seq::empty());
    let i = skip_white(v, 0);
    if !holds_at(v, i, 91) {
        return None;
    }
    let j = skip_white(v, i + 1);
    if holds_at(v, j, 93) {
        if skip_white(v, j + 1) == v.len() {
            return Some(out);
        }
        return None;
    }
    let ghost want = items_from(v@, i + 1);
    let mut at: usize = i + 1;
    assert(want == after_front(byte_views(out@), items_from(v@, at as int))) by {
        if want is Some {
            assert(byte_views(out@) + want->0 =~= want->0);
        }
    }
    loop
        invariant
            at <= v@.len(),
            want == after_front(byte_views(out@), items_from(v@, at as int)),
            want == array_items(v@),
        decreases v@.len() - at,
    {
        let (raw, end) = match read_value(v, at) {
            Some(x) => x,
            None => {
                return None;
            },
        };
        let ghost before = out@;
        let ghost rv = raw@;
        out.push(raw);
        assert(byte_views(out@) =~= byte_views(before) + seq![rv]);
        let d = skip_white(v, end);
        if holds_at(v, d, 44) {
            proof {
                let rest = items_from(v@, d + 1);
                if rest is Some {
                    assert(byte_views(before) + (seq![rv] + rest->0) =~= byte_views(out@)
                        + rest->0);
                }
            }
            at = d + 1;
        } else if holds_at(v, d, 93) && skip_white(v, d + 1) == v.len() {
            return Some(out);
        } else {
            return None;
        }
    }
}

} // verus!
