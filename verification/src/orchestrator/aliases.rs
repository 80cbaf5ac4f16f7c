//! Following aliases to models.
use vstd::prelude::*;
use vstd::string::*;

use crate::config::alias::ModelAlias;
use crate::table::{has_key, position_of, Keyed, Table};
use crate::text::chars_of;

verus! {

broadcast use vstd::string::group_string_axioms;

/// Aliases by name.
pub type AliasMap = Map<Seq<char>, ModelAlias>;

/// Whether a name is an alias to which something is assigned.
pub open spec fn leads_on(m: AliasMap, name: Seq<char>) -> bool {
    m.dom().contains(name) && m[name].target@.len() > 0
}

/// The name reached after following `k` aliases.
pub open spec fn link(m: AliasMap, name: Seq<char>, k: nat) -> Seq<char>
    decreases k,
{
    if k == 0 {
        name
    } else {
        m[link(m, name, (k - 1) as nat)].target@
    }
}

/// Whether the first `k` names on the way each lead on.
pub open spec fn leads(m: AliasMap, name: Seq<char>, k: nat) -> bool {
    forall|j: nat| j < k ==> leads_on(m, #[trigger] link(m, name, j))
}

/// Whether the way from `name` ends after `k` aliases.
pub open spec fn ends_at(m: AliasMap, name: Seq<char>, k: nat) -> bool {
    leads(m, name, k) && !leads_on(m, link(m, name, k))
}

/// Whether the way from `name` ends.
pub open spec fn ends(m: AliasMap, name: Seq<char>) -> bool {
    exists|k: nat| #[trigger] ends_at(m, name, k)
}

/// Where the way from `name` ends.
pub open spec fn end_of(m: AliasMap, name: Seq<char>) -> Seq<char> {
    link(m, name, choose|k: nat| #[trigger] ends_at(m, name, k))
}

/// The model that a name stands for: where the way from it ends, or the empty
/// text where it ends at an unassigned alias or does not end.
pub open spec fn resolved_name(m: AliasMap, name: Seq<char>) -> Seq<char> {
    if ends(m, name) && !m.dom().contains(end_of(m, name)) {
        end_of(m, name)
    } else {
        Seq::empty()
    }
}

/// Whether no chain of aliases runs in a circle.
pub open spec fn acyclic(m: AliasMap) -> bool {
    forall|name: Seq<char>| #[trigger] ends(m, name)
}

proof fn lemma_end_is_unique(m: AliasMap, name: Seq<char>, a: nat, b: nat)
    requires
        ends_at(m, name, a),
        ends_at(m, name, b),
    ensures
        a == b,
{
    if a < b {
        assert(leads_on(m, link(m, name, a)));
    } else if b < a {
        assert(leads_on(m, link(m, name, b)));
    }
}

proof fn lemma_ends_at(m: AliasMap, name: Seq<char>, k: nat)
    requires
        ends_at(m, name, k),
    ensures
        ends(m, name),
        end_of(m, name) == link(m, name, k),
{
    let c = choose|k: nat| #[trigger] ends_at(m, name, k);
    lemma_end_is_unique(m, name, k, c);
}

/// Following from the name reached after `a` aliases is following further.
proof fn lemma_link_add(m: AliasMap, name: Seq<char>, a: nat, b: nat)
    ensures
        link(m, link(m, name, a), b) == link(m, name, a + b),
    decreases b,
{
    if b > 0 {
        lemma_link_add(m, name, a, (b - 1) as nat);
        assert((a + b - 1) as nat == a + (b - 1));
    }
}

/// A way that comes back to a name that it passed does not end.
proof fn lemma_circle(m: AliasMap, name: Seq<char>, i: nat, k: nat)
    requires
        i < k,
        leads(m, name, k),
        link(m, name, i) == link(m, name, k),
    ensures
        !ends(m, name),
{
    assert forall|j: nat| leads_on(m, #[trigger] link(m, name, j)) by {
        lemma_circle_leads(m, name, i, k, j);
    }
    assert forall|j: nat| !#[trigger] ends_at(m, name, j) by {
        assert(leads_on(m, link(m, name, j)));
    }
}

proof fn lemma_circle_leads(m: AliasMap, name: Seq<char>, i: nat, k: nat, j: nat)
    requires
        i < k,
        leads(m, name, k),
        link(m, name, i) == link(m, name, k),
    ensures
        leads_on(m, link(m, name, j)),
    decreases j,
{
    if j >= k {
        let d = (k - i) as nat;
        let r = (j - k) as nat;
        lemma_link_add(m, name, k, r);
        lemma_link_add(m, name, i, r);
        assert(k + r == j);
        assert(link(m, name, j) == link(m, name, i + r));
        lemma_circle_leads(m, name, i, k, i + r);
    }
}

/// Where the way from a name ends.
pub enum WayEnd {
    /// At a name that is no alias.
    Name(String),
    /// At an alias to which nothing is assigned.
    Unassigned,
    /// Nowhere: it runs in a circle.
    Circle,
}

/// How many entries are not marked.
spec fn unmarked(v: Seq<bool>) -> nat
    decreases v.len(),
{
    if v.len() == 0 {
        0
    } else {
        unmarked(v.drop_last()) + if v.last() {
            0nat
        } else {
            1nat
        }
    }
}

proof fn lemma_mark(v: Seq<bool>, i: int)
    requires
        0 <= i < v.len(),
        !v[i],
    ensures
        unmarked(v.update(i, true)) + 1 == unmarked(v),
    decreases v.len(),
{
    if i == v.len() - 1 {
        assert(v.update(i, true).drop_last() =~= v.drop_last());
    } else {
        lemma_mark(v.drop_last(), i);
        assert(v.update(i, true).drop_last() =~= v.drop_last().update(i, true));
    }
}

/// Follows the aliases from a name.
pub fn follow(aliases: &Table<ModelAlias>, name: &str) -> (r: WayEnd)
    requires
        aliases.wf(),
    ensures
        match r {
            WayEnd::Name(n) => {
                &&& ends(aliases@, name@)
                &&& n@ == end_of(aliases@, name@)
                &&& !aliases@.dom().contains(n@)
            },
            WayEnd::Unassigned => {
                &&& ends(aliases@, name@)
                &&& aliases@.dom().contains(end_of(aliases@, name@))
            },
            WayEnd::Circle => !ends(aliases@, name@),
        },
{
    let n = aliases.len();
    let mut marked: Vec<bool> = Vec::new();
    let mut i: usize = 0;
    while i < n
        invariant
            i <= n,
            marked@.len() == i,
            forall|j: int| 0 <= j < i ==> !marked@[j],
        decreases n - i,
    {
        marked.push(false);
        i += 1;
    }
    let mut current = name.to_owned();
    let ghost m = aliases@;
    let ghost records = aliases.records();
    let ghost mut k: nat = 0;
    loop
        invariant
            aliases.wf(),
            m == aliases@,
            records == aliases.records(),
            n == records.len(),
            marked@.len() == n,
            current@ == link(m, name@, k),
            leads(m, name@, k),
            forall|j: int|
                0 <= j < n && #[trigger] marked@[j] ==> exists|i: nat|
                    i < k && #[trigger] link(m, name@, i) == records[j].key(),
        decreases unmarked(marked@),
    {
        match aliases.find(current.as_str()) {
            None => {
                proof {
                    lemma_ends_at(m, name@, k);
                }
                return WayEnd::Name(current);
            },
            Some(p) => {
                if marked[p] {
                    proof {
                        let i = choose|i: nat|
                            i < k && #[trigger] link(m, name@, i) == records[p as int].key();
                        lemma_circle(m, name@, i, k);
                    }
                    return WayEnd::Circle;
                }
                let a = aliases.at(p);
                if a.target.as_str().is_empty() {
                    proof {
                        lemma_ends_at(m, name@, k);
                    }
                    return WayEnd::Unassigned;
                }
                proof {
                    lemma_mark(marked@, p as int);
                }
                let ghost before = marked@;
                marked.set(p, true);
                current = a.target.clone();
                proof {
                    assert(leads_on(m, link(m, name@, k)));
                    let k0 = k;
                    k = k + 1;
                    assert forall|j: int| 0 <= j < n && #[trigger] marked@[j] implies exists|i: nat|
                        i < k && #[trigger] link(m, name@, i) == records[j].key() by {
                        if j == p {
                            assert(link(m, name@, k0) == records[j].key());
                        } else {
                            assert(before[j]);
                            let i = choose|i: nat|
                                i < k0 && #[trigger] link(m, name@, i) == records[j].key();
                            assert(i < k && link(m, name@, i) == records[j].key());
                        }
                    }
                }
            },
        }
    }
}

/// The model that a name stands for. A name that is no alias stands for
/// itself; an unassigned alias and a circle stand for nothing.
pub fn resolve_alias_chain(aliases: &Table<ModelAlias>, name: &str) -> (r: String)
    requires
        aliases.wf(),
    ensures
        r@ == resolved_name(aliases@, name@),
{
    match follow(aliases, name) {
        WayEnd::Name(n) => n,
        _ => {
            let s = String::new();
            s
        },
    }
}

/// The aliases, copied.
fn copy_aliases(aliases: &Table<ModelAlias>) -> (r: Table<ModelAlias>)
    requires
        aliases.wf(),
    ensures
        r.wf(),
        r.records() == aliases.records(),
        r@ == aliases@,
{
    let mut r: Table<ModelAlias> = Table::new();
    let mut i: usize = 0;
    while i < aliases.len()
        invariant
            i <= aliases.records().len(),
            aliases.wf(),
            r.wf(),
            r.records() == aliases.records().take(i as int),
        decreases aliases.records().len() - i,
    {
        let a = aliases.at(i);
        proof {
            if has_key(r.records(), a.key()) {
                let p = position_of(r.records(), a.key());
                assert(r.records()[p].key() == a.key());
                assert(aliases.records()[p].key() != aliases.records()[i as int].key());
            }
            assert(!r@.dom().contains(a.key()));
            assert(aliases.records().take(i + 1) =~= aliases.records().take(i as int).push(
                aliases.records()[i as int],
            ));
        }
        r.insert(a.clone());
        i += 1;
    }
    assert(r.records() =~= aliases.records());
    r
}

/// Whether putting an alias in would make a circle through it.
pub fn assignment_circles(aliases: &Table<ModelAlias>, alias: &ModelAlias) -> (r: bool)
    requires
        aliases.wf(),
    ensures
        r == !ends(aliases@.insert(alias.alias@, *alias), alias.alias@),
{
    let mut next = copy_aliases(aliases);
    next.insert(alias.clone());
    match follow(&next, alias.alias.as_str()) {
        WayEnd::Circle => true,
        _ => false,
    }
}

/// Whether assigning `target` to `alias_name` would make a circle.
pub fn target_creates_cycle(aliases: &Table<ModelAlias>, alias_name: &str, target: &str) -> (r:
    bool)
    requires
        aliases.wf(),
    ensures
        exists|a: ModelAlias|
            #![trigger aliases@.insert(alias_name@, a)]
            a.alias@ == alias_name@ && a.target@ == target@ && r == !ends(
                aliases@.insert(alias_name@, a),
                alias_name@,
            ),
{
    let a = ModelAlias { alias: alias_name.to_owned(), target: target.to_owned() };
    let r = assignment_circles(aliases, &a);
    assert(r == !ends(aliases@.insert(alias_name@, a), alias_name@));
    r
}

/// A canonical name: one to sixty-four small letters, digits, dots,
/// underscores and dashes.
pub open spec fn canonical_name(s: Seq<char>) -> bool {
    &&& 1 <= s.len() <= 64
    &&& forall|i: int| 0 <= i < s.len() ==> canonical_char(#[trigger] s[i])
}

pub open spec fn canonical_char(c: char) -> bool {
    ('a' <= c <= 'z') || ('0' <= c <= '9') || c == '.' || c == '_' || c == '-'
}

/// Whether a name is canonical.
pub fn is_valid_alias_name(s: &str) -> (r: bool)
    ensures
        r == canonical_name(s@),
{
    let v = chars_of(s);
    if v.len() == 0 || v.len() > 64 {
        return false;
    }
    let mut i: usize = 0;
    while i < v.len()
        invariant
            i <= v@.len(),
            v@ == s@,
            forall|j: int| 0 <= j < i ==> canonical_char(#[trigger] s@[j]),
        decreases v@.len() - i,
    {
        let c = v[i];
        let ok = ('a' <= c && c <= 'z') || ('0' <= c && c <= '9') || c == '.' || c == '_' || c
            == '-';
        if !ok {
            assert(!canonical_char(s@[i as int]));
            return false;
        }
        i += 1;
    }
    true
}

// ----- laws -----

/// A name that is no alias stands for itself.
pub proof fn law_other_names_pass_through(m: AliasMap, name: Seq<char>)
    requires
        !m.dom().contains(name),
    ensures
        resolved_name(m, name) == name,
{
    assert(link(m, name, 0) == name);
    lemma_ends_at(m, name, 0);
}

/// An alias stands for what its target stands for, so that pointing an alias
/// elsewhere carries over to every alias that refers to it.
pub proof fn law_alias_follows_target(m: AliasMap, name: Seq<char>)
    requires
        leads_on(m, name),
    ensures
        resolved_name(m, name) == resolved_name(m, m[name].target@),
{
    let t = m[name].target@;
    assert(link(m, name, 1) == t) by {
        assert(link(m, name, 0) == name);
    }
    assert forall|k: nat| #[trigger] ends_at(m, t, k) implies ends_at(m, name, k + 1) by {
        assert forall|j: nat| j < k + 1 implies leads_on(m, #[trigger] link(m, name, j)) by {
            if j > 0 {
                lemma_link_add(m, name, 1, (j - 1) as nat);
                assert(leads_on(m, link(m, t, (j - 1) as nat)));
            }
        }
        lemma_link_add(m, name, 1, k);
    }
    if ends(m, t) {
        let k = choose|k: nat| #[trigger] ends_at(m, t, k);
        assert(ends_at(m, name, k + 1));
        lemma_ends_at(m, t, k);
        lemma_ends_at(m, name, k + 1);
        lemma_link_add(m, name, 1, k);
    }
    if ends(m, name) {
        let k = choose|k: nat| #[trigger] ends_at(m, name, k);
        assert(link(m, name, 0) == name);
        assert(k > 0);
        let d = (k - 1) as nat;
        assert forall|j: nat| j < d implies leads_on(m, #[trigger] link(m, t, j)) by {
            lemma_link_add(m, name, 1, j);
            assert(leads_on(m, link(m, name, 1 + j)));
        }
        lemma_link_add(m, name, 1, d);
        assert(ends_at(m, t, d));
    }
}

/// An unassigned alias stands for nothing.
pub proof fn law_unassigned_alias_stands_for_nothing(m: AliasMap, name: Seq<char>)
    requires
        m.dom().contains(name),
        m[name].target@.len() == 0,
    ensures
        resolved_name(m, name) == Seq::<char>::empty(),
{
    assert(link(m, name, 0) == name);
    lemma_ends_at(m, name, 0);
}

/// Outside of circles a name stands for nothing only where the way from it
/// ends at an unassigned alias.
pub proof fn law_assigned_names_resolve(m: AliasMap, name: Seq<char>)
    requires
        acyclic(m),
    ensures
        resolved_name(m, name) == (if m.dom().contains(end_of(m, name)) {
            Seq::<char>::empty()
        } else {
            end_of(m, name)
        }),
{
    assert(ends(m, name));
}

/// Ways that avoid a name are the same whatever is assigned to it.
proof fn lemma_same_way(m: AliasMap, w: AliasMap, name: Seq<char>, at: Seq<char>, k: nat)
    requires
        forall|x: Seq<char>|
            x != at ==> (leads_on(m, x) == #[trigger] leads_on(w, x)) && (leads_on(w, x) ==> m[x]
                == w[x]),
        leads(w, name, k),
        forall|j: nat| j < k ==> #[trigger] link(w, name, j) != at,
    ensures
        link(m, name, k) == link(w, name, k),
        leads(m, name, k),
    decreases k,
{
    if k > 0 {
        let d = (k - 1) as nat;
        lemma_same_way(m, w, name, at, d);
        assert(link(w, name, d) != at);
        assert(leads_on(w, link(w, name, d)));
        assert forall|j: nat| j < k implies leads_on(m, #[trigger] link(m, name, j)) by {
            if j == d {
                assert(leads_on(w, link(w, name, d)));
            }
        }
    }
}

/// Assigning keeps aliases free of circles if the way from the alias itself
/// still ends.
pub proof fn law_checked_assignment_keeps_acyclic(m: AliasMap, a: ModelAlias)
    requires
        acyclic(m),
        ends(m.insert(a.alias@, a), a.alias@),
    ensures
        acyclic(m.insert(a.alias@, a)),
{
    let at = a.alias@;
    let w = m.insert(at, a);
    assert forall|name: Seq<char>| #[trigger] ends(w, name) by {
        lemma_way_ends_after(m, w, name, at);
    }
}

/// Where a map differs from one without circles in one name only, and the way
/// from that name ends, every way ends.
proof fn lemma_way_ends_after(m: AliasMap, w: AliasMap, name: Seq<char>, at: Seq<char>)
    requires
        ends(m, name),
        ends(w, at),
        forall|x: Seq<char>|
            x != at ==> (leads_on(m, x) == #[trigger] leads_on(w, x)) && (leads_on(w, x) ==> m[x]
                == w[x]),
    ensures
        ends(w, name),
{
    let k = choose|k: nat| #[trigger] ends_at(m, name, k);
    if exists|i: nat| i <= k && #[trigger] link(m, name, i) == at {
        let i0 = choose|i: nat| i <= k && #[trigger] link(m, name, i) == at;
        let i = lemma_least_hit(m, name, at, i0);
        assert(leads(m, name, i)) by {
            assert forall|j: nat| j < i implies leads_on(m, #[trigger] link(m, name, j)) by {}
        }
        lemma_same_way(w, m, name, at, i);
        let d = choose|d: nat| #[trigger] ends_at(w, at, d);
        assert forall|j: nat| j < i + d implies leads_on(w, #[trigger] link(w, name, j)) by {
            if j >= i {
                let r = (j - i) as nat;
                lemma_link_add(w, name, i, r);
                assert(i + r == j);
                assert(leads_on(w, link(w, at, r)));
            }
        }
        lemma_link_add(w, name, i, d);
        assert(ends_at(w, name, i + d));
    } else {
        assert(leads(m, name, k));
        lemma_same_way(w, m, name, at, k);
        assert(link(m, name, k) != at);
        assert(ends_at(w, name, k));
    }
}

/// The first time that a way meets a name.
proof fn lemma_least_hit(m: AliasMap, name: Seq<char>, at: Seq<char>, i: nat) -> (r: nat)
    requires
        link(m, name, i) == at,
    ensures
        r <= i,
        link(m, name, r) == at,
        forall|j: nat| j < r ==> #[trigger] link(m, name, j) != at,
    decreases i,
{
    if exists|j: nat| j < i && #[trigger] link(m, name, j) == at {
        let j = choose|j: nat| j < i && #[trigger] link(m, name, j) == at;
        lemma_least_hit(m, name, at, j)
    } else {
        i
    }
}

/// The way from an alias ends where nothing is assigned to it, or a name that
/// is no alias.
pub proof fn lemma_short_way(m: AliasMap, a: ModelAlias)
    requires
        a.target@.len() == 0 || (a.target@ != a.alias@ && !m.dom().contains(a.target@)),
    ensures
        ends(m.insert(a.alias@, a), a.alias@),
{
    let w = m.insert(a.alias@, a);
    assert(link(w, a.alias@, 0) == a.alias@);
    if a.target@.len() == 0 {
        assert(ends_at(w, a.alias@, 0));
    } else {
        assert(link(w, a.alias@, 1) == a.target@);
        assert forall|j: nat| j < 1 implies leads_on(w, #[trigger] link(w, a.alias@, j)) by {
            assert(j == 0);
        }
        assert(ends_at(w, a.alias@, 1));
    }
}

/// Where every way that leads on in `w` leads to the same name in `m`, and
/// `m` has no circles, neither has `w`.
pub proof fn lemma_fewer_links(m: AliasMap, w: AliasMap)
    requires
        acyclic(m),
        forall|x: Seq<char>| #[trigger]
            leads_on(w, x) ==> leads_on(m, x) && m[x].target@ == w[x].target@,
    ensures
        acyclic(w),
{
    assert forall|name: Seq<char>| #[trigger] ends(w, name) by {
        assert(ends(m, name));
        let k = choose|k: nat| #[trigger] ends_at(m, name, k);
        lemma_fewer_ends(m, w, name, k, 0);
    }
}

proof fn lemma_fewer_ends(m: AliasMap, w: AliasMap, name: Seq<char>, k: nat, i: nat)
    requires
        ends_at(m, name, k),
        i <= k,
        forall|x: Seq<char>| #[trigger]
            leads_on(w, x) ==> leads_on(m, x) && m[x].target@ == w[x].target@,
        leads(w, name, i),
        link(w, name, i) == link(m, name, i),
    ensures
        ends(w, name),
    decreases k - i,
{
    if leads_on(w, link(w, name, i)) {
        assert(leads_on(m, link(m, name, i)));
        assert(i < k);
        assert(link(w, name, i + 1) == link(m, name, i + 1));
        assert forall|j: nat| j < i + 1 implies leads_on(w, #[trigger] link(w, name, j)) by {}
        lemma_fewer_ends(m, w, name, k, i + 1);
    } else {
        assert(ends_at(w, name, i));
    }
}

} // verus!
