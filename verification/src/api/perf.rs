//! Which reads of a backend's metrics are under way.
use vstd::prelude::*;
use vstd::string::*;

use crate::text::same_text;

verus! {

broadcast use vstd::string::group_string_axioms;

/// The greatest size of a metrics report.
pub const MAX_METRICS_BYTES: usize = 8388608;

/// One backend process in one generation of its model.
#[derive(Debug)]
pub struct CollectionKey {
    pub model_id: String,
    pub pid: i32,
    pub port: u16,
    pub generation: u64,
}

/// The mathematical content of a `CollectionKey`.
pub struct KeyView {
    pub model_id: Seq<char>,
    pub pid: i32,
    pub port: u16,
    pub generation: u64,
}

impl View for CollectionKey {
    type V = KeyView;

    open spec fn view(&self) -> KeyView {
        KeyView {
            model_id: self.model_id@,
            pid: self.pid,
            port: self.port,
            generation: self.generation,
        }
    }
}

impl Clone for CollectionKey {
    fn clone(&self) -> (r: Self)
        ensures
            r == *self,
    {
        CollectionKey {
            model_id: self.model_id.clone(),
            pid: self.pid,
            port: self.port,
            generation: self.generation,
        }
    }
}

impl CollectionKey {
    /// Whether two keys are the same.
    pub fn same(&self, other: &CollectionKey) -> (r: bool)
        ensures
            r == (self@ == other@),
    {
        self.pid == other.pid && self.port == other.port && self.generation == other.generation
            && same_text(self.model_id.as_str(), other.model_id.as_str())
    }
}

/// A read that is under way, and whether another is to follow it.
#[derive(Debug)]
pub struct Collection {
    pub key: CollectionKey,
    pub again: bool,
}

/// The reads as values.
pub open spec fn reads(s: Seq<Collection>) -> Map<KeyView, bool>
    decreases s.len(),
{
    if s.len() == 0 {
        Map::empty()
    } else {
        reads(s.drop_last()).insert(s.last().key@, s.last().again)
    }
}

/// The reads that are under way. There is one at most for each process; a
/// request that ends meanwhile has one more follow.
#[derive(Debug)]
pub struct CollectionQueue {
    pub items: Vec<Collection>,
}

impl View for CollectionQueue {
    type V = Map<KeyView, bool>;

    open spec fn view(&self) -> Map<KeyView, bool> {
        reads(self.items@)
    }
}

proof fn lemma_reads(s: Seq<Collection>)
    ensures
        forall|k: KeyView| #[trigger]
            reads(s).dom().contains(k) <==> exists|i: int|
                0 <= i < s.len() && (#[trigger] s[i]).key@ == k,
    decreases s.len(),
{
    if s.len() > 0 {
        let t = s.drop_last();
        lemma_reads(t);
        assert forall|k: KeyView| #[trigger] reads(s).dom().contains(k) implies exists|i: int|
            0 <= i < s.len() && (#[trigger] s[i]).key@ == k by {
            if k == s.last().key@ {
                assert(s[s.len() - 1].key@ == k);
            } else {
                assert(reads(t).dom().contains(k));
                let i = choose|i: int| 0 <= i < t.len() && (#[trigger] t[i]).key@ == k;
                assert(s[i].key@ == k);
            }
        }
        assert forall|k: KeyView, i: int|
            0 <= i < s.len() && (#[trigger] s[i]).key@ == k implies #[trigger] reads(
            s,
        ).dom().contains(k) by {
            if i < s.len() - 1 {
                assert(t[i].key@ == k);
                assert(reads(t).dom().contains(k));
            }
        }
    }
}

proof fn lemma_reads_at(s: Seq<Collection>, i: int)
    requires
        0 <= i < s.len(),
        forall|a: int, b: int|
            0 <= a < b < s.len() ==> (#[trigger] s[a]).key@ != (#[trigger] s[b]).key@,
    ensures
        reads(s).dom().contains(s[i].key@),
        reads(s)[s[i].key@] == s[i].again,
    decreases s.len(),
{
    let t = s.drop_last();
    if i < s.len() - 1 {
        assert(t[i] == s[i]);
        lemma_reads_at(t, i);
        assert(s[i].key@ != s[s.len() - 1].key@);
    }
}

proof fn lemma_reads_update(s: Seq<Collection>, i: int, x: Collection)
    requires
        0 <= i < s.len(),
        x.key@ == s[i].key@,
        forall|a: int, b: int|
            0 <= a < b < s.len() ==> (#[trigger] s[a]).key@ != (#[trigger] s[b]).key@,
    ensures
        reads(s.update(i, x)) =~= reads(s).insert(x.key@, x.again),
    decreases s.len(),
{
    let u = s.update(i, x);
    if i == s.len() - 1 {
        assert(u.drop_last() =~= s.drop_last());
    } else {
        assert(u.drop_last() =~= s.drop_last().update(i, x));
        assert(s.drop_last()[i] == s[i]);
        lemma_reads_update(s.drop_last(), i, x);
        assert(s[i].key@ != s[s.len() - 1].key@);
        assert(u.last() == s.last());
    }
}

proof fn lemma_reads_remove(s: Seq<Collection>, i: int)
    requires
        0 <= i < s.len(),
        forall|a: int, b: int|
            0 <= a < b < s.len() ==> (#[trigger] s[a]).key@ != (#[trigger] s[b]).key@,
    ensures
        reads(s.remove(i)) =~= reads(s).remove(s[i].key@),
    decreases s.len(),
{
    let u = s.remove(i);
    if i == s.len() - 1 {
        assert(u =~= s.drop_last());
        lemma_reads(s.drop_last());
        assert(!reads(s.drop_last()).dom().contains(s[i].key@)) by {
            if reads(s.drop_last()).dom().contains(s[i].key@) {
                let j = choose|j: int|
                    0 <= j < s.drop_last().len() && (#[trigger] s.drop_last()[j]).key@ == s[i].key@;
                assert(s[j].key@ == s[i].key@);
            }
        }
    } else {
        assert(u.drop_last() =~= s.drop_last().remove(i));
        assert(s.drop_last()[i] == s[i]);
        lemma_reads_remove(s.drop_last(), i);
        assert(s[i].key@ != s[s.len() - 1].key@);
        assert(u.last() == s.last());
    }
}

impl CollectionQueue {
    /// No process is there twice.
    pub open spec fn wf(&self) -> bool {
        forall|a: int, b: int|
            0 <= a < b < self.items@.len() ==> (#[trigger] self.items@[a]).key@ != (
            #[trigger] self.items@[b]).key@
    }

    /// A queue without reads.
    pub fn new() -> (r: CollectionQueue)
        ensures
            r.wf(),
            r@ == Map::<KeyView, bool>::empty(),
    {
        CollectionQueue { items: Vec::new() }
    }

    fn find(&self, key: &CollectionKey) -> (r: Option<usize>)
        ensures
            match r {
                Some(i) => i < self.items@.len() && self.items@[i as int].key@ == key@,
                None => forall|i: int|
                    0 <= i < self.items@.len() ==> (#[trigger] self.items@[i]).key@ != key@,
            },
    {
        let mut i: usize = 0;
        while i < self.items.len()
            invariant
                i <= self.items@.len(),
                forall|j: int| 0 <= j < i ==> (#[trigger] self.items@[j]).key@ != key@,
            decreases self.items@.len() - i,
        {
            if self.items[i].key.same(key) {
                return Some(i);
            }
            i += 1;
        }
        None
    }

    /// Asks for a read and says whether it is to begin now. Where one is under
    /// way, another is to follow.
    pub fn begin(&mut self, key: &CollectionKey) -> (r: bool)
        requires
            old(self).wf(),
        ensures
            final(self).wf(),
            r == !old(self)@.dom().contains(key@),
            final(self)@ == old(self)@.insert(key@, !r),
    {
        let ghost before = self.items@;
        proof {
            lemma_reads(before);
        }
        match self.find(key) {
            Some(i) => {
                let x = Collection { key: self.items[i].key.clone(), again: true };
                proof {
                    lemma_reads_update(before, i as int, x);
                    lemma_reads_at(before, i as int);
                }
                self.items.set(i, x);
                false
            },
            None => {
                let x = Collection { key: key.clone(), again: false };
                self.items.push(x);
                assert(self.items@.drop_last() =~= before);
                true
            },
        }
    }

    /// Ends a read and says whether another follows at once.
    pub fn finish(&mut self, key: &CollectionKey) -> (r: bool)
        requires
            old(self).wf(),
        ensures
            final(self).wf(),
            r == (old(self)@.dom().contains(key@) && old(self)@[key@]),
            final(self)@ == (if r {
                old(self)@.insert(key@, false)
            } else {
                old(self)@.remove(key@)
            }),
    {
        let ghost before = self.items@;
        proof {
            lemma_reads(before);
        }
        match self.find(key) {
            Some(i) => {
                proof {
                    lemma_reads_at(before, i as int);
                }
                if self.items[i].again {
                    let x = Collection { key: self.items[i].key.clone(), again: false };
                    proof {
                        lemma_reads_update(before, i as int, x);
                    }
                    self.items.set(i, x);
                    true
                } else {
                    proof {
                        lemma_reads_remove(before, i as int);
                    }
                    let _ = self.items.remove(i);
                    false
                }
            },
            None => {
                assert(self@.remove(key@) =~= self@);
                false
            },
        }
    }
}

} // verus!
