//! Operator overrides of the backend tags of single GPUs.
use vstd::prelude::*;
use vstd::string::*;

use crate::config::backend::BackendTags;
use crate::table::{Keyed, Table};
use crate::text::same_text;
use crate::vram::tracker::GpuInfo;

verus! {

broadcast use vstd::string::group_string_axioms;

/// The tags that replace the discovered ones for the GPU at a PCI address.
#[derive(Debug)]
pub struct GpuTagOverride {
    pub pci_bus_id: String,
    pub tags: BackendTags,
}

impl Clone for GpuTagOverride {
    fn clone(&self) -> (r: Self)
        ensures
            r == *self,
    {
        GpuTagOverride { pci_bus_id: self.pci_bus_id.clone(), tags: self.tags }
    }
}

impl Keyed for GpuTagOverride {
    open spec fn key(&self) -> Seq<char> {
        self.pci_bus_id@
    }

    fn name_of(&self) -> (r: &String) {
        &self.pci_bus_id
    }
}

/// The overrides by address. Later entries win.
pub open spec fn overrides_by_pci(s: Seq<GpuTagOverride>) -> Map<Seq<char>, GpuTagOverride>
    decreases s.len(),
{
    if s.len() == 0 {
        Map::empty()
    } else {
        overrides_by_pci(s.drop_last()).insert(s.last().pci_bus_id@, s.last())
    }
}

/// Collects the overrides by address. Later entries win, so that a file edited
/// by hand leaves no ambiguity.
pub fn tag_overrides_by_pci(overrides: &[GpuTagOverride]) -> (r: Table<GpuTagOverride>)
    ensures
        r.wf(),
        r@ == overrides_by_pci(overrides@),
{
    let mut r: Table<GpuTagOverride> = Table::new();
    let mut i: usize = 0;
    while i < overrides.len()
        invariant
            i <= overrides@.len(),
            r.wf(),
            r@ == overrides_by_pci(overrides@.take(i as int)),
        decreases overrides@.len() - i,
    {
        assert(overrides@.take(i + 1).drop_last() =~= overrides@.take(i as int));
        r.insert(overrides[i].clone());
        i += 1;
    }
    assert(overrides@.take(i as int) =~= overrides@);
    r
}

/// The list without entries for the address, and with a new one at its end.
pub open spec fn with_override(s: Seq<GpuTagOverride>, o: GpuTagOverride) -> Seq<GpuTagOverride> {
    s.filter(|x: GpuTagOverride| x.pci_bus_id@ != o.pci_bus_id@).push(o)
}

/// Sets the tags for one address, in place of whatever was set for it before.
pub fn set_override(list: &Vec<GpuTagOverride>, o: GpuTagOverride) -> (r: Vec<GpuTagOverride>)
    ensures
        r@ == with_override(list@, o),
{
    let ghost p = |x: GpuTagOverride| x.pci_bus_id@ != o.pci_bus_id@;
    let mut r: Vec<GpuTagOverride> = Vec::new();
    let mut i: usize = 0;
    while i < list.len()
        invariant
            i <= list@.len(),
            p == (|x: GpuTagOverride| x.pci_bus_id@ != o.pci_bus_id@),
            r@ == list@.take(i as int).filter(p),
        decreases list@.len() - i,
    {
        proof {
            reveal(Seq::filter);
            assert(list@.take(i + 1).drop_last() =~= list@.take(i as int));
        }
        if !same_text(list[i].pci_bus_id.as_str(), o.pci_bus_id.as_str()) {
            r.push(list[i].clone());
        }
        i += 1;
    }
    assert(list@.take(i as int) =~= list@);
    r.push(o);
    r
}

/// A GPU with the tags that were set for its address, or else with those that
/// were discovered.
pub open spec fn tagged(g: GpuInfo, o: Map<Seq<char>, GpuTagOverride>) -> GpuInfo {
    match g.pci_bus_id {
        Some(p) => if o.dom().contains(p@) {
            GpuInfo { tags: o[p@].tags, ..g }
        } else {
            g
        },
        None => g,
    }
}

/// Puts the tags that were set in place of those that were discovered.
pub fn apply_overrides(gpus: Vec<GpuInfo>, overrides: &[GpuTagOverride]) -> (r: Vec<GpuInfo>)
    ensures
        r@ == gpus@.map_values(|g: GpuInfo| tagged(g, overrides_by_pci(overrides@))),
{
    let table = tag_overrides_by_pci(overrides);
    let ghost found = gpus@;
    let ghost set = overrides_by_pci(overrides@);
    let mut gpus = gpus;
    let mut i: usize = 0;
    while i < gpus.len()
        invariant
            i <= gpus@.len() == found.len(),
            table.wf(),
            table@ == set,
            forall|j: int| 0 <= j < i ==> #[trigger] gpus@[j] == tagged(found[j], set),
            forall|j: int| i <= j < found.len() ==> #[trigger] gpus@[j] == found[j],
        decreases gpus@.len() - i,
    {
        let tags = match &gpus[i].pci_bus_id {
            Some(p) => match table.get(p.as_str()) {
                Some(o) => Some(o.tags),
                None => None,
            },
            None => None,
        };
        if let Some(t) = tags {
            gpus[i].tags = t;
        }
        i += 1;
    }
    assert(gpus@ =~= found.map_values(|g: GpuInfo| tagged(g, set)));
    gpus
}

/// After setting the tags for an address, those tags are found there, and
/// every other address keeps what it had.
pub proof fn law_set_override(s: Seq<GpuTagOverride>, o: GpuTagOverride)
    ensures
        overrides_by_pci(with_override(s, o)) == overrides_by_pci(s).insert(o.pci_bus_id@, o),
{
    let kept = s.filter(|x: GpuTagOverride| x.pci_bus_id@ != o.pci_bus_id@);
    assert(with_override(s, o).drop_last() =~= kept);
    lemma_kept(s, o);
    assert(overrides_by_pci(with_override(s, o)) =~= overrides_by_pci(s).insert(
        o.pci_bus_id@,
        o,
    ));
}

proof fn lemma_kept(s: Seq<GpuTagOverride>, o: GpuTagOverride)
    ensures
        overrides_by_pci(s.filter(|x: GpuTagOverride| x.pci_bus_id@ != o.pci_bus_id@))
            == overrides_by_pci(s).remove(o.pci_bus_id@),
    decreases s.len(),
{
    reveal(Seq::filter);
    let p = |x: GpuTagOverride| x.pci_bus_id@ != o.pci_bus_id@;
    if s.len() > 0 {
        lemma_kept(s.drop_last(), o);
        let f = s.drop_last().filter(p);
        if p(s.last()) {
            assert(s.filter(p) == f.push(s.last()));
            assert(s.filter(p).drop_last() =~= f);
        }
    }
    assert(overrides_by_pci(s.filter(p)) =~= overrides_by_pci(s).remove(o.pci_bus_id@));
}

} // verus!
