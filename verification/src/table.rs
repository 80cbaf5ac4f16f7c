//! Tables of named records.
use vstd::prelude::*;
use vstd::string::*;

use crate::text::same_text;

verus! {

broadcast use vstd::string::group_string_axioms;

/// A record that has a name.
pub trait Keyed {
    /// The name of the record.
    spec fn key(&self) -> Seq<char>;

    /// The name of the record.
    fn name_of(&self) -> (r: &String)
        ensures
            r@ == self.key(),
    ;
}

/// Whether a record of that name is in the list.
pub open spec fn has_key<T: Keyed>(s: Seq<T>, k: Seq<char>) -> bool {
    exists|i: int| 0 <= i < s.len() && #[trigger] s[i].key() == k
}

/// Where the record of that name stands.
pub open spec fn position_of<T: Keyed>(s: Seq<T>, k: Seq<char>) -> int {
    choose|i: int| 0 <= i < s.len() && #[trigger] s[i].key() == k
}

/// Whether no two records have the same name.
pub open spec fn distinct_keys<T: Keyed>(s: Seq<T>) -> bool {
    forall|i: int, j: int|
        0 <= i < j < s.len() ==> #[trigger] s[i].key() != #[trigger] s[j].key()
}

/// The records by name.
pub open spec fn by_key<T: Keyed>(s: Seq<T>) -> Map<Seq<char>, T> {
    Map::new(|k: Seq<char>| has_key(s, k), |k: Seq<char>| s[position_of(s, k)])
}

/// The records by name; of several with the same name the last one.
pub open spec fn last_by_key<T: Keyed>(s: Seq<T>) -> Map<Seq<char>, T>
    decreases s.len(),
{
    if s.len() == 0 {
        Map::empty()
    } else {
        last_by_key(s.drop_last()).insert(s.last().key(), s.last())
    }
}

/// Records with distinct names.
pub struct Table<T> {
    items: Vec<T>,
}

impl<T: Keyed> View for Table<T> {
    type V = Map<Seq<char>, T>;

    open spec fn view(&self) -> Map<Seq<char>, T> {
        by_key(self.records())
    }
}

impl<T: Keyed> Table<T> {
    /// The records in the order in which they were first put in.
    pub closed spec fn records(&self) -> Seq<T> {
        self.items@
    }

    /// No two records have the same name.
    pub open spec fn wf(&self) -> bool {
        distinct_keys(self.records())
    }

    /// A table without records.
    pub fn new() -> (t: Table<T>)
        ensures
            t.wf(),
            t.records() == Seq::<T>::empty(),
            t@ == Map::<Seq<char>, T>::empty(),
    {
        let t = Table { items: Vec::new() };
        assert(t@ =~= Map::<Seq<char>, T>::empty());
        t
    }

    /// The number of records.
    pub fn len(&self) -> (n: usize)
        ensures
            n == self.records().len(),
    {
        self.items.len()
    }

    /// The record at a position.
    pub fn at(&self, i: usize) -> (r: &T)
        requires
            i < self.records().len(),
        ensures
            *r == self.records()[i as int],
    {
        &self.items[i]
    }

    /// Where the record of that name stands.
    pub fn find(&self, k: &str) -> (r: Option<usize>)
        requires
            self.wf(),
        ensures
            match r {
                Some(i) => {
                    &&& i < self.records().len()
                    &&& self.records()[i as int].key() == k@
                    &&& self@.dom().contains(k@)
                    &&& self@[k@] == self.records()[i as int]
                },
                None => !self@.dom().contains(k@),
            },
    {
        let mut i: usize = 0;
        while i < self.items.len()
            invariant
                i <= self.items@.len(),
                self.wf(),
                forall|j: int| 0 <= j < i ==> #[trigger] self.items@[j].key() != k@,
            decreases self.items@.len() - i,
        {
            if same_text(self.items[i].name_of().as_str(), k) {
                proof {
                    lemma_position(self.items@, i as int);
                }
                return Some(i);
            }
            i += 1;
        }
        None
    }

    /// Whether there is a record of that name.
    pub fn contains(&self, k: &str) -> (r: bool)
        requires
            self.wf(),
        ensures
            r == self@.dom().contains(k@),
    {
        self.find(k).is_some()
    }

    /// The record of that name.
    pub fn get(&self, k: &str) -> (r: Option<&T>)
        requires
            self.wf(),
        ensures
            match r {
                Some(x) => self@.dom().contains(k@) && *x == self@[k@] && x.key() == k@,
                None => !self@.dom().contains(k@),
            },
    {
        match self.find(k) {
            Some(i) => Some(&self.items[i]),
            None => None,
        }
    }

    /// Puts a record in, in place of one of the same name.
    pub fn insert(&mut self, x: T)
        requires
            old(self).wf(),
        ensures
            final(self).wf(),
            final(self)@ == old(self)@.insert(x.key(), x),
            final(self).records() == (if old(self)@.dom().contains(x.key()) {
                old(self).records().update(position_of(old(self).records(), x.key()), x)
            } else {
                old(self).records().push(x)
            }),
    {
        let ghost before = self.items@;
        let ghost k = x.key();
        match self.find(x.name_of().as_str()) {
            Some(i) => {
                proof {
                    lemma_position(before, i as int);
                }
                let ghost y = x;
                self.items.set(i, x);
                proof {
                    lemma_update(before, i as int, y);
                }
            },
            None => {
                let ghost y = x;
                self.items.push(x);
                proof {
                    lemma_push(before, y);
                }
            },
        }
    }

    /// Takes the record of that name out and says whether there was one.
    pub fn remove(&mut self, k: &str) -> (r: bool)
        requires
            old(self).wf(),
        ensures
            final(self).wf(),
            r == old(self)@.dom().contains(k@),
            final(self)@ == old(self)@.remove(k@),
            final(self).records() == (if old(self)@.dom().contains(k@) {
                old(self).records().remove(position_of(old(self).records(), k@))
            } else {
                old(self).records()
            }),
    {
        let ghost before = self.items@;
        match self.find(k) {
            Some(i) => {
                proof {
                    lemma_position(before, i as int);
                    lemma_remove(before, i as int);
                }
                self.items.remove(i);
                true
            },
            None => {
                assert(self@.remove(k@) =~= self@);
                false
            },
        }
    }

    /// The record at a position, to be changed in place.
    pub fn at_mut(&mut self, i: usize) -> (r: &mut T)
        requires
            i < old(self).records().len(),
        ensures
            *r == old(self).records()[i as int],
            final(self).records() == old(self).records().update(i as int, *final(r)),
    {
        &mut self.items[i]
    }

    /// A table of the records in the list. Of several with the same name the
    /// last one counts.
    pub fn from_list(v: Vec<T>) -> (t: Table<T>)
        ensures
            t.wf(),
            t@ == last_by_key(v@),
    {
        let ghost all = v@;
        let mut t: Table<T> = Table::new();
        for x in it: v
            invariant
                it.seq() == all,
                t.wf(),
                t@ == last_by_key(all.take(it.index() as int)),
        {
            assert(all.take(it.index() as int + 1).drop_last() =~= all.take(it.index() as int));
            t.insert(x);
        }
        assert(all.take(all.len() as int) =~= all);
        t
    }

    /// Replaces the record at a position by another of the same name.
    pub fn set(&mut self, i: usize, x: T)
        requires
            old(self).wf(),
            i < old(self).records().len(),
            x.key() == old(self).records()[i as int].key(),
        ensures
            final(self).wf(),
            final(self).records() == old(self).records().update(i as int, x),
            final(self)@ == old(self)@.insert(x.key(), x),
    {
        let ghost before = self.items@;
        let ghost y = x;
        self.items.set(i, x);
        proof {
            lemma_update(before, i as int, y);
        }
    }
}

pub proof fn lemma_position<T: Keyed>(s: Seq<T>, i: int)
    requires
        distinct_keys(s),
        0 <= i < s.len(),
    ensures
        has_key(s, s[i].key()),
        position_of(s, s[i].key()) == i,
        by_key(s).dom().contains(s[i].key()),
        by_key(s)[s[i].key()] == s[i],
{
    let k = s[i].key();
    let p = position_of(s, k);
    assert(0 <= p < s.len() && s[p].key() == k);
    if p < i {
        assert(s[p].key() != s[i].key());
    } else if i < p {
        assert(s[i].key() != s[p].key());
    }
}

/// Every record stands under its own name.
pub proof fn lemma_keys<T: Keyed>(s: Seq<T>)
    ensures
        forall|k: Seq<char>| #[trigger]
            by_key(s).dom().contains(k) ==> by_key(s)[k].key() == k,
{
    assert forall|k: Seq<char>| #[trigger] by_key(s).dom().contains(k) implies by_key(s)[k].key()
        == k by {
        assert(has_key(s, k));
        let p = position_of(s, k);
        assert(s[p].key() == k);
    }
}

/// Lists with the same names in the same order are tables with the same names,
/// and a name finds records at the same position.
pub proof fn lemma_same_keys<T: Keyed>(s: Seq<T>, t: Seq<T>)
    requires
        distinct_keys(s),
        s.len() == t.len(),
        forall|i: int| 0 <= i < s.len() ==> (#[trigger] t[i]).key() == s[i].key(),
    ensures
        distinct_keys(t),
        by_key(t).dom() == by_key(s).dom(),
        forall|k: Seq<char>| #[trigger]
            by_key(s).dom().contains(k) ==> exists|p: int|
                0 <= p < s.len() && #[trigger] s[p] == by_key(s)[k] && t[p] == by_key(t)[k]
                    && s[p].key() == k,
{
    assert forall|a: int, b: int| 0 <= a < b < t.len() implies #[trigger] t[a].key()
        != #[trigger] t[b].key() by {
        assert(s[a].key() != s[b].key());
    }
    assert forall|k: Seq<char>| has_key(s, k) == has_key(t, k) by {
        if has_key(s, k) {
            let p = position_of(s, k);
            assert(t[p].key() == s[p].key());
        }
        if has_key(t, k) {
            let p = position_of(t, k);
            assert(t[p].key() == s[p].key());
        }
    }
    assert(by_key(t).dom() =~= by_key(s).dom());
    assert forall|k: Seq<char>| #[trigger] by_key(s).dom().contains(k) implies exists|p: int|
        0 <= p < s.len() && #[trigger] s[p] == by_key(s)[k] && t[p] == by_key(t)[k] && s[p].key()
            == k by {
        let p = position_of(s, k);
        assert(s[p].key() == k);
        assert(t[p].key() == k);
        lemma_position(s, p);
        lemma_position(t, p);
        assert(s[p] == by_key(s)[k]);
    }
}

pub proof fn lemma_update<T: Keyed>(s: Seq<T>, i: int, x: T)
    requires
        distinct_keys(s),
        0 <= i < s.len(),
        s[i].key() == x.key(),
    ensures
        distinct_keys(s.update(i, x)),
        by_key(s.update(i, x)) == by_key(s).insert(x.key(), x),
{
    let t = s.update(i, x);
    assert forall|a: int, b: int| 0 <= a < b < t.len() implies #[trigger] t[a].key()
        != #[trigger] t[b].key() by {
        assert(s[a].key() != s[b].key());
    }
    assert forall|k: Seq<char>| by_key(t).dom().contains(k) == by_key(s).insert(
        x.key(),
        x,
    ).dom().contains(k) by {
        if has_key(t, k) {
            let p = position_of(t, k);
            assert(t[p].key() == k);
            assert(s[p].key() == k);
        }
        if has_key(s, k) {
            let p = position_of(s, k);
            assert(s[p].key() == k);
            assert(t[p].key() == k);
        }
        assert(t[i].key() == x.key());
    }
    assert forall|k: Seq<char>| by_key(t).dom().contains(k) implies #[trigger] by_key(t)[k]
        == by_key(s).insert(x.key(), x)[k] by {
        let p = position_of(t, k);
        assert(t[p].key() == k);
        lemma_position(t, p);
        lemma_position(t, i);
        lemma_position(s, p);
    }
    assert(by_key(t) =~= by_key(s).insert(x.key(), x));
}

pub proof fn lemma_push<T: Keyed>(s: Seq<T>, x: T)
    requires
        distinct_keys(s),
        !has_key(s, x.key()),
    ensures
        distinct_keys(s.push(x)),
        by_key(s.push(x)) == by_key(s).insert(x.key(), x),
{
    let t = s.push(x);
    assert forall|a: int, b: int| 0 <= a < b < t.len() implies #[trigger] t[a].key()
        != #[trigger] t[b].key() by {
        assert(s[a].key() == t[a].key());
        if b < s.len() {
            assert(s[a].key() != s[b].key());
        }
    }
    assert(t[s.len() as int].key() == x.key());
    assert forall|k: Seq<char>| by_key(t).dom().contains(k) == by_key(s).insert(
        x.key(),
        x,
    ).dom().contains(k) by {
        if has_key(t, k) {
            let p = position_of(t, k);
            assert(t[p].key() == k);
            if p < s.len() {
                assert(s[p].key() == k);
            }
        }
        if has_key(s, k) {
            let p = position_of(s, k);
            assert(s[p].key() == k);
            assert(t[p].key() == k);
        }
    }
    assert forall|k: Seq<char>| by_key(t).dom().contains(k) implies #[trigger] by_key(t)[k]
        == by_key(s).insert(x.key(), x)[k] by {
        let p = position_of(t, k);
        assert(t[p].key() == k);
        lemma_position(t, p);
        if p < s.len() {
            lemma_position(s, p);
        }
    }
    assert(by_key(t) =~= by_key(s).insert(x.key(), x));
}

pub proof fn lemma_remove<T: Keyed>(s: Seq<T>, i: int)
    requires
        distinct_keys(s),
        0 <= i < s.len(),
    ensures
        distinct_keys(s.remove(i)),
        by_key(s.remove(i)) == by_key(s).remove(s[i].key()),
{
    let t = s.remove(i);
    let old_at = |p: int|
        if p < i {
            p
        } else {
            p + 1
        };
    assert forall|p: int| 0 <= p < t.len() implies #[trigger] t[p] == s[old_at(p)] by {}
    assert forall|a: int, b: int| 0 <= a < b < t.len() implies #[trigger] t[a].key()
        != #[trigger] t[b].key() by {
        assert(s[old_at(a)].key() != s[old_at(b)].key());
    }
    assert forall|k: Seq<char>| by_key(t).dom().contains(k) == by_key(s).remove(
        s[i].key(),
    ).dom().contains(k) by {
        if has_key(t, k) {
            let p = position_of(t, k);
            assert(t[p].key() == k);
            assert(s[old_at(p)].key() == k);
            lemma_position(s, old_at(p));
            lemma_position(s, i);
        }
        if has_key(s, k) && k != s[i].key() {
            let q = position_of(s, k);
            assert(s[q].key() == k);
            let p = if q < i {
                q
            } else {
                q - 1
            };
            assert(t[p].key() == k);
        }
    }
    assert forall|k: Seq<char>| by_key(t).dom().contains(k) implies #[trigger] by_key(t)[k]
        == by_key(s).remove(s[i].key())[k] by {
        let p = position_of(t, k);
        assert(t[p].key() == k);
        lemma_position(t, p);
        lemma_position(s, old_at(p));
    }
    assert(by_key(t) =~= by_key(s).remove(s[i].key()));
}

// ----- laws -----

/// Of several records with the same name the last one counts, and every name
/// that occurs has a record.
pub proof fn law_the_last_record_of_a_name_counts<T: Keyed>(s: Seq<T>, i: int)
    requires
        0 <= i < s.len(),
        forall|j: int| i < j < s.len() ==> (#[trigger] s[j]).key() != s[i].key(),
    ensures
        last_by_key(s).dom().contains(s[i].key()),
        last_by_key(s)[s[i].key()] == s[i],
    decreases s.len(),
{
    if i < s.len() - 1 {
        let front = s.drop_last();
        assert(s[s.len() - 1].key() != s[i].key());
        assert forall|j: int| i < j < front.len() implies (#[trigger] front[j]).key()
            != front[i].key() by {
            assert(front[j] == s[j]);
        }
        law_the_last_record_of_a_name_counts(front, i);
    }
}

} // verus!
