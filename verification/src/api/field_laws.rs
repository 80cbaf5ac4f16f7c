//! What holds of reading the fields of objects and the items of arrays.
use vstd::prelude::*;
use vstd::string::*;

use crate::api::fields::{
    after_white, array_items, field_from, fields_from, items_from, object_fields, stands_at,
    value_from,
};
use crate::api::json::raw_string;

verus! {

broadcast use vstd::string::group_string_axioms;

/// White space between the parts of a text is passed over: spaces, tabs, line
/// feeds and carriage returns, and nothing else.
pub proof fn law_white_space_is_passed_over(s: Seq<u8>, i: int)
    requires
        0 <= i <= s.len(),
    ensures
        i <= after_white(s, i) <= s.len(),
        forall|k: int|
            i <= k < after_white(s, i) ==> (#[trigger] s[k] == 32 || s[k] == 9 || s[k] == 10 || s[k]
                == 13),
        after_white(s, i) < s.len() ==> !(s[after_white(s, i)] == 32 || s[after_white(s, i)] == 9
            || s[after_white(s, i)] == 10 || s[after_white(s, i)] == 13),
    decreases s.len() - i,
{
    if i < s.len() && (s[i] == 32 || s[i] == 9 || s[i] == 10 || s[i] == 13) {
        law_white_space_is_passed_over(s, i + 1);
    }
}

/// The items of an array are read one after the other: behind an item there is
/// a comma and the rest of them, or the bracket that ends the text.
pub proof fn law_every_item_of_an_array_is_read(
    s: Seq<u8>,
    i: int,
    raw: Seq<u8>,
    end: int,
    rest: Seq<Seq<u8>>,
)
    requires
        0 <= i <= s.len(),
        value_from(s, i) == Some((raw, end)),
    ensures
        i < end <= s.len(),
        ({
            let d = after_white(s, end);
            &&& d < s.len() && s[d] == 44 && items_from(s, d + 1) == Some(rest) ==> items_from(s, i)
                == Some(seq![raw] + rest)
            &&& d < s.len() && s[d] == 44 && items_from(s, d + 1) is None ==> items_from(
                s,
                i,
            ) is None
            &&& d < s.len() && s[d] == 93 && after_white(s, d + 1) == s.len() ==> items_from(s, i)
                == Some(seq![raw])
            &&& d == s.len() || (s[d] != 44 && s[d] != 93) ==> items_from(s, i) is None
        }),
{
    law_white_space_is_passed_over(s, i);
    law_white_space_is_passed_over(s, end);
}

/// The fields of an object are read one after the other, each as a name in
/// quotes, a colon and a value: behind a field there is a comma and the rest of
/// them, or the brace that ends the text.
pub proof fn law_every_field_of_an_object_is_read(
    s: Seq<u8>,
    i: int,
    key: Seq<u8>,
    k: int,
    name: Seq<char>,
    raw: Seq<u8>,
    end: int,
    rest: Seq<(Seq<char>, Seq<u8>)>,
)
    requires
        0 <= i <= s.len(),
        stands_at(s, after_white(s, i), 34),
        value_from(s, i) == Some((key, k)),
        raw_string(key) == Some(name),
        stands_at(s, after_white(s, k), 58),
        value_from(s, after_white(s, k) + 1) == Some((raw, end)),
    ensures
        field_from(s, i) == Some(((name, raw), end)),
        ({
            let d = after_white(s, end);
            &&& d < s.len() && s[d] == 44 && fields_from(s, d + 1) == Some(rest) ==> fields_from(
                s,
                i,
            ) == Some(seq![(name, raw)] + rest)
            &&& d < s.len() && s[d] == 44 && fields_from(s, d + 1) is None ==> fields_from(
                s,
                i,
            ) is None
            &&& d < s.len() && s[d] == 125 && after_white(s, d + 1) == s.len() ==> fields_from(s, i)
                == Some(seq![(name, raw)])
            &&& d == s.len() || (s[d] != 44 && s[d] != 125) ==> fields_from(s, i) is None
        }),
{
    law_white_space_is_passed_over(s, i);
    law_white_space_is_passed_over(s, k);
    law_white_space_is_passed_over(s, end);
}

/// An object begins with a brace and an array with a bracket; either may be
/// empty.
pub proof fn law_objects_and_arrays_begin_with_their_sign(s: Seq<u8>)
    ensures
        ({
            let i = after_white(s, 0);
            let j = after_white(s, i + 1);
            &&& object_fields(s) is Some ==> i < s.len() && s[i] == 123
            &&& array_items(s) is Some ==> i < s.len() && s[i] == 91
            &&& stands_at(s, i, 123) && stands_at(s, j, 125) && after_white(s, j + 1) == s.len()
                ==> object_fields(s) == Some(Seq::<(Seq<char>, Seq<u8>)>::empty())
            &&& stands_at(s, i, 91) && stands_at(s, j, 93) && after_white(s, j + 1) == s.len()
                ==> array_items(s) == Some(Seq::<Seq<u8>>::empty())
            &&& stands_at(s, i, 123) && !stands_at(s, j, 125) ==> object_fields(s) == fields_from(
                s,
                i + 1,
            )
            &&& stands_at(s, i, 91) && !stands_at(s, j, 93) ==> array_items(s) == items_from(
                s,
                i + 1,
            )
            &&& object_fields(s) is Some ==> array_items(s) is None
        }),
{
    law_white_space_is_passed_over(s, 0);
}

} // verus!
