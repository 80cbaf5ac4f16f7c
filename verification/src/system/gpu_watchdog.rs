//! Dumps that the kernel leaves when a GPU hangs.
use vstd::prelude::*;
use vstd::string::*;

use crate::text::{contains_text, decimal, decimal_text, has_infix, has_prefix, starts_with_text};

verus! {

broadcast use vstd::string::group_string_axioms;

/// A dump: its directory and when that was last changed, in seconds.
#[derive(Debug)]
pub struct CoredumpSignature {
    pub path: String,
    pub mtime_secs: u64,
}

/// The mathematical content of a `CoredumpSignature`.
pub struct DumpView {
    pub path: Seq<char>,
    pub mtime_secs: u64,
}

impl View for CoredumpSignature {
    type V = DumpView;

    open spec fn view(&self) -> DumpView {
        DumpView { path: self.path@, mtime_secs: self.mtime_secs }
    }
}

impl Clone for CoredumpSignature {
    fn clone(&self) -> (r: Self)
        ensures
            r == *self,
    {
        CoredumpSignature { path: self.path.clone(), mtime_secs: self.mtime_secs }
    }
}

impl CoredumpSignature {
    /// Whether two signatures are the same.
    pub fn same(&self, other: &CoredumpSignature) -> (r: bool)
        ensures
            r == (self@ == other@),
    {
        self.path == other.path && self.mtime_secs == other.mtime_secs
    }
}

/// The signatures as values.
pub open spec fn dumps(s: Seq<CoredumpSignature>) -> Seq<DumpView> {
    s.map_values(|d: CoredumpSignature| d@)
}

/// Whether a directory entry is a card, not one of its connectors.
pub open spec fn names_card(name: Seq<char>) -> bool {
    has_prefix(name, "card"@) && !has_infix(name, "-"@)
}

/// Whether a directory entry is a card, not one of its connectors.
pub fn is_card(name: &str) -> (r: bool)
    ensures
        r == names_card(name@),
{
    starts_with_text(name, "card") && !contains_text(name, "-")
}

/// What is to be done about the first `n` dumps, where those in `known` were
/// dealt with.
pub open spec fn fresh(known: Seq<DumpView>, s: Seq<DumpView>, n: int) -> Seq<DumpView>
    decreases n,
{
    if n <= 0 {
        Seq::empty()
    } else {
        let front = fresh(known, s, n - 1);
        if known.contains(s[n - 1]) || front.contains(s[n - 1]) {
            front
        } else {
            front.push(s[n - 1])
        }
    }
}

/// Knows which dumps were dealt with, so that each hang is dealt with once.
#[derive(Debug)]
pub struct CoredumpWatcher {
    pub drm_root: String,
    pub handled: Vec<CoredumpSignature>,
}

fn holds(v: &Vec<CoredumpSignature>, d: &CoredumpSignature) -> (r: bool)
    ensures
        r == dumps(v@).contains(d@),
{
    let mut i: usize = 0;
    while i < v.len()
        invariant
            i <= v@.len(),
            forall|j: int| 0 <= j < i ==> (#[trigger] v@[j])@ != d@,
        decreases v@.len() - i,
    {
        if v[i].same(d) {
            assert(dumps(v@)[i as int] == d@);
            return true;
        }
        i += 1;
    }
    proof {
        if dumps(v@).contains(d@) {
            let j = choose|j: int| 0 <= j < dumps(v@).len() && dumps(v@)[j] == d@;
            assert(v@[j]@ == d@);
        }
    }
    false
}

impl CoredumpWatcher {
    /// The dumps that were dealt with.
    pub open spec fn known(&self) -> Seq<DumpView> {
        dumps(self.handled@)
    }

    /// A watcher to which the dumps that are there already were dealt with.
    pub fn new(drm_root: &str, current: Vec<CoredumpSignature>) -> (r: CoredumpWatcher)
        ensures
            r.drm_root@ == drm_root@,
            r.known() == dumps(current@),
    {
        CoredumpWatcher { drm_root: drm_root.to_owned(), handled: current }
    }

    /// The dumps that were not dealt with. Afterwards they count as dealt with.
    pub fn poll_new(&mut self, current: &Vec<CoredumpSignature>) -> (r: Vec<CoredumpSignature>)
        ensures
            dumps(r@) == fresh(old(self).known(), dumps(current@), current@.len() as int),
            final(self).known() == old(self).known() + dumps(r@),
            final(self).drm_root == old(self).drm_root,
    {
        let ghost before = self.known();
        let ghost all = dumps(current@);
        let mut r: Vec<CoredumpSignature> = Vec::new();
        let mut i: usize = 0;
        assert(dumps(r@) =~= Seq::empty());
        assert(before + dumps(r@) =~= before);
        while i < current.len()
            invariant
                i <= current@.len(),
                all == dumps(current@),
                self.drm_root == old(self).drm_root,
                dumps(r@) == fresh(before, all, i as int),
                self.known() == before + dumps(r@),
            decreases current@.len() - i,
        {
            assert(all[i as int] == current@[i as int]@);
            let ghost d = all[i as int];
            let ghost was = r@;
            let ghost held = self.handled@;
            proof {
                let both = before + dumps(r@);
                assert(both.contains(d) <==> before.contains(d) || dumps(r@).contains(d)) by {
                    if before.contains(d) {
                        let j = choose|j: int| 0 <= j < before.len() && before[j] == d;
                        assert(both[j] == d);
                    }
                    if dumps(r@).contains(d) {
                        let j = choose|j: int| 0 <= j < dumps(r@).len() && dumps(r@)[j] == d;
                        assert(both[before.len() + j] == d);
                    }
                }
            }
            if !holds(&self.handled, &current[i]) {
                self.handled.push(current[i].clone());
                r.push(current[i].clone());
                assert(dumps(r@) =~= dumps(was).push(d));
                assert(self.known() =~= dumps(held).push(d));
                assert(self.known() =~= before + dumps(r@));
            }
            i += 1;
        }
        r
    }
}

/// The name of the file to which a dump is copied.
pub fn capture_name(secs: u64) -> (r: String)
    ensures
        r@ == "devcoredump-"@ + decimal(secs as nat) + ".bin"@,
{
    "devcoredump-".to_owned().concat(decimal_text(secs).as_str()).concat(".bin")
}

proof fn lemma_fresh(known: Seq<DumpView>, s: Seq<DumpView>, n: int)
    requires
        0 <= n <= s.len(),
    ensures
        forall|i: int|
            0 <= i < n ==> known.contains(#[trigger] s[i]) || fresh(known, s, n).contains(s[i]),
    decreases n,
{
    if n > 0 {
        lemma_fresh(known, s, n - 1);
        let front = fresh(known, s, n - 1);
        let now = fresh(known, s, n);
        assert forall|i: int| 0 <= i < n implies known.contains(#[trigger] s[i]) || now.contains(
            s[i],
        ) by {
            if front.contains(s[i]) {
                let j = choose|j: int| 0 <= j < front.len() && front[j] == s[i];
                assert(now[j] == s[i]);
            } else if i == n - 1 && !known.contains(s[i]) {
                assert(now[now.len() - 1] == s[i]);
            }
        }
    }
}

proof fn lemma_nothing_fresh(known: Seq<DumpView>, s: Seq<DumpView>, n: int)
    requires
        0 <= n <= s.len(),
        forall|i: int| 0 <= i < s.len() ==> known.contains(#[trigger] s[i]),
    ensures
        fresh(known, s, n).len() == 0,
    decreases n,
{
    if n > 0 {
        lemma_nothing_fresh(known, s, n - 1);
    }
}

/// Each hang is dealt with once: the same dumps lead to nothing when they are
/// seen again.
pub proof fn law_each_dump_is_handled_once(known: Seq<DumpView>, s: Seq<DumpView>)
    ensures
        ({
            let n = s.len() as int;
            fresh(known + fresh(known, s, n), s, n).len() == 0
        }),
{
    let n = s.len() as int;
    let new = fresh(known, s, n);
    let both = known + new;
    lemma_fresh(known, s, n);
    assert forall|i: int| 0 <= i < s.len() implies both.contains(#[trigger] s[i]) by {
        if known.contains(s[i]) {
            let j = choose|j: int| 0 <= j < known.len() && known[j] == s[i];
            assert(both[j] == s[i]);
        } else {
            let j = choose|j: int| 0 <= j < new.len() && new[j] == s[i];
            assert(both[known.len() + j] == s[i]);
        }
    }
    lemma_nothing_fresh(both, s, n);
}

} // verus!
