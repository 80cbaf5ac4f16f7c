//! Where a model runs: memory held back for loads in flight, the probes that
//! are put to llama.cpp, and what is made of their answers.
use vstd::prelude::*;
use vstd::string::*;

use crate::config::backend::Backend;
use crate::config::model::ModelConfig;
use crate::config::preset::BinaryPreset;
use crate::orchestrator::allocation::{capped_sum, saturating_product, saturating_times, Caps};
use crate::order::{law_sorted_by, ranks, sort_stable, sorted_by};
use crate::table::Table;
use crate::text::{decimal, decimal_text, join, join_texts, texts};
use crate::vram::tracker::{clamp_pct, clamped_pct, GpuInfo};

verus! {

broadcast use vstd::string::group_string_axioms;

// ----- memory held back for loads in flight -----

/// The GPU with `n` more bytes in use.
pub open spec fn with_used(g: GpuInfo, n: int) -> GpuInfo {
    GpuInfo { used_vram: (g.used_vram + n) as u64, ..g }
}

/// The lesser of two numbers.
pub open spec fn least(a: int, b: int) -> int {
    if a <= b {
        a
    } else {
        b
    }
}

/// The GPUs after `reserved` bytes are taken from them, in the order of the
/// positions given, as much from each as it has free.
pub open spec fn drained(gpus: Seq<GpuInfo>, at: Seq<usize>, reserved: int) -> Seq<GpuInfo>
    decreases at.len(),
{
    if at.len() == 0 {
        gpus
    } else {
        let i = at[0] as int;
        let take = least(gpus[i].free(), reserved);
        drained(gpus.update(i, with_used(gpus[i], take)), at.drop_first(), reserved - take)
    }
}

/// All positions of a list.
pub open spec fn positions(n: nat) -> Seq<usize> {
    Seq::new(n, |i: int| i as usize)
}

/// Positions with more free memory come first.
pub open spec fn freer(gpus: Seq<GpuInfo>) -> spec_fn(usize, usize) -> bool {
    |a: usize, b: usize| free_of(gpus, a as int) >= free_of(gpus, b as int)
}

/// The free memory at a position.
pub open spec fn free_of(gpus: Seq<GpuInfo>, i: int) -> int {
    if 0 <= i < gpus.len() {
        gpus[i].free()
    } else {
        0
    }
}

/// The GPUs as a new load sees them: bytes reserved for loads in flight count
/// as used, on the GPUs with most free memory first.
pub open spec fn after_reserve(gpus: Seq<GpuInfo>, reserved: int) -> Seq<GpuInfo> {
    drained(gpus, sorted_by(positions(gpus.len()), freer(gpus)), reserved)
}

fn free_at(gpus: &Vec<GpuInfo>, i: usize) -> (r: u64)
    ensures
        r == free_of(gpus@, i as int),
{
    if i < gpus.len() {
        gpus[i].free_vram()
    } else {
        0
    }
}

pub proof fn lemma_order_is_positions(gpus: Seq<GpuInfo>)
    ensures
        ({
            let at = sorted_by(positions(gpus.len()), freer(gpus));
            &&& at.len() == gpus.len()
            &&& at.to_multiset() == positions(gpus.len()).to_multiset()
            &&& at.no_duplicates() || gpus.len() > usize::MAX + 1
            &&& forall|j: int| 0 <= j < at.len() ==> gpus.len() <= usize::MAX + 1 ==> (
                #[trigger] at[j]) < gpus.len()
        }),
{
    broadcast use vstd::seq_lib::group_seq_properties;

    let p = positions(gpus.len());
    assert(ranks(freer(gpus)));
    law_sorted_by(p, freer(gpus));
    let at = sorted_by(p, freer(gpus));
    if gpus.len() <= usize::MAX + 1 {
        assert(p.no_duplicates());
        p.lemma_multiset_has_no_duplicates();
        at.lemma_multiset_has_no_duplicates_conv();
        assert forall|j: int| 0 <= j < at.len() implies (#[trigger] at[j]) < gpus.len() by {
            assert(at.contains(at[j]));
            assert(at.to_multiset().contains(at[j]));
            assert(p.contains(at[j]));
        }
    }
}

/// The GPUs as a new load sees them, with reserved bytes counted as used.
pub fn subtract_reserved_from_gpus(gpus: Vec<GpuInfo>, reserved: u64) -> (r: Vec<GpuInfo>)
    ensures
        r@ == after_reserve(gpus@, reserved as int),
{
    let n = gpus.len();
    let ghost original = gpus@;
    let mut order: Vec<usize> = Vec::new();
    let mut i: usize = 0;
    while i < n
        invariant
            i <= n,
            n == original.len(),
            order@ == positions(i as nat),
        decreases n - i,
    {
        order.push(i);
        assert(order@ =~= positions((i + 1) as nat));
        i += 1;
    }
    let le = |a: &usize, b: &usize| -> (c: bool)
        ensures
            c == freer(gpus@)(*a, *b),
        {
            let x = free_at(&gpus, *a);
            let y = free_at(&gpus, *b);
            x >= y
        };
    let order = sort_stable(order, le, Ghost(freer(original)));
    proof {
        lemma_order_is_positions(original);
    }
    let mut gpus = gpus;
    let mut left: u64 = reserved;
    let mut k: usize = 0;
    assert(order@.subrange(0, order@.len() as int) =~= order@);
    while k < order.len()
        invariant
            k <= order@.len(),
            gpus@.len() == original.len(),
            forall|j: int| 0 <= j < order@.len() ==> (#[trigger] order@[j]) < original.len(),
            after_reserve(original, reserved as int) == drained(
                gpus@,
                order@.subrange(k as int, order@.len() as int),
                left as int,
            ),
        decreases order@.len() - k,
    {
        let idx = order[k];
        let ghost rest = order@.subrange(k as int, order@.len() as int);
        assert(rest[0] == idx);
        assert(rest.drop_first() =~= order@.subrange(k + 1, order@.len() as int));
        let free = gpus[idx].free_vram();
        let take = if free <= left {
            free
        } else {
            left
        };
        let mut g = gpus[idx].clone();
        g.used_vram = g.used_vram + take;
        let ghost before = gpus@;
        assert(g == with_used(before[idx as int], take as int));
        gpus.set(idx, g);
        left = left - take;
        k += 1;
    }
    gpus
}

/// Free memory of all GPUs together.
pub open spec fn free_sum(gpus: Seq<GpuInfo>) -> int
    decreases gpus.len(),
{
    if gpus.len() == 0 {
        0
    } else {
        free_sum(gpus.drop_last()) + gpus.last().free()
    }
}

/// Free memory at the positions given.
pub open spec fn free_sum_at(gpus: Seq<GpuInfo>, at: Seq<usize>) -> int
    decreases at.len(),
{
    if at.len() == 0 {
        0
    } else {
        gpus[at[0] as int].free() + free_sum_at(gpus, at.drop_first())
    }
}

proof fn lemma_free_sum_update(gpus: Seq<GpuInfo>, i: int, g: GpuInfo)
    requires
        0 <= i < gpus.len(),
    ensures
        free_sum(gpus.update(i, g)) == free_sum(gpus) - gpus[i].free() + g.free(),
    decreases gpus.len(),
{
    if i == gpus.len() - 1 {
        assert(gpus.update(i, g).drop_last() =~= gpus.drop_last());
    } else {
        lemma_free_sum_update(gpus.drop_last(), i, g);
        assert(gpus.update(i, g).drop_last() =~= gpus.drop_last().update(i, g));
    }
}

proof fn lemma_free_sum_at_elsewhere(gpus: Seq<GpuInfo>, at: Seq<usize>, i: int, g: GpuInfo)
    requires
        0 <= i < gpus.len(),
        forall|j: int| 0 <= j < at.len() ==> (#[trigger] at[j]) != i && at[j] < gpus.len(),
    ensures
        free_sum_at(gpus.update(i, g), at) == free_sum_at(gpus, at),
    decreases at.len(),
{
    if at.len() > 0 {
        assert(at[0] != i);
        assert forall|j: int| 0 <= j < at.drop_first().len() implies (#[trigger] at.drop_first()[j])
            != i && at.drop_first()[j] < gpus.len() by {
            assert(at[j + 1] != i);
        }
        lemma_free_sum_at_elsewhere(gpus, at.drop_first(), i, g);
    }
}

proof fn lemma_drained(gpus: Seq<GpuInfo>, at: Seq<usize>, reserved: int)
    requires
        reserved >= 0,
        at.no_duplicates(),
        forall|j: int| 0 <= j < at.len() ==> (#[trigger] at[j]) < gpus.len(),
    ensures
        drained(gpus, at, reserved).len() == gpus.len(),
        free_sum(drained(gpus, at, reserved)) == free_sum(gpus) - least(
            free_sum_at(gpus, at),
            reserved,
        ),
        free_sum_at(gpus, at) >= 0,
        forall|i: int|
            0 <= i < gpus.len() ==> {
                let before = #[trigger] gpus[i];
                let after = drained(gpus, at, reserved)[i];
                &&& after == (GpuInfo { used_vram: after.used_vram, ..before })
                &&& before.used_vram <= after.used_vram
            },
    decreases at.len(),
{
    if at.len() > 0 {
        let i = at[0] as int;
        let take = least(gpus[i].free(), reserved);
        let next = gpus.update(i, with_used(gpus[i], take));
        let rest = at.drop_first();
        assert forall|j: int| 0 <= j < rest.len() implies (#[trigger] rest[j]) != i by {
            assert(at[j + 1] != at[0]);
        }
        assert forall|j: int| 0 <= j < rest.len() implies (#[trigger] rest[j]) < next.len() by {
            assert(at[j + 1] < gpus.len());
        }
        lemma_drained(next, rest, reserved - take);
        lemma_free_sum_update(gpus, i, with_used(gpus[i], take));
        lemma_free_sum_at_elsewhere(gpus, rest, i, with_used(gpus[i], take));
        assert forall|k: int| 0 <= k < gpus.len() implies {
            let before = #[trigger] gpus[k];
            let after = drained(gpus, at, reserved)[k];
            &&& after == (GpuInfo { used_vram: after.used_vram, ..before })
            &&& before.used_vram <= after.used_vram
        } by {
            let mid = next[k];
            assert(mid == (GpuInfo { used_vram: mid.used_vram, ..gpus[k] }));
        }
    }
}

proof fn lemma_free_sum_of_rearranged(gpus: Seq<GpuInfo>, a: Seq<usize>, b: Seq<usize>)
    requires
        a.to_multiset() == b.to_multiset(),
    ensures
        free_sum_at(gpus, a) == free_sum_at(gpus, b),
    decreases a.len(),
{
    broadcast use vstd::seq_lib::group_seq_properties;

    a.to_multiset_ensures();
    b.to_multiset_ensures();
    assert(a.len() == b.len());
    if a.len() > 0 {
        let x = a[0];
        assert(a.contains(x));
        assert(a.to_multiset().count(x) > 0);
        assert(b.contains(x));
        let p = choose|p: int| 0 <= p < b.len() && b[p] == x;
        lemma_free_sum_at_without(gpus, b, p);
        assert(a.drop_first() =~= a.remove(0));
        assert(a.remove(0).to_multiset() =~= a.to_multiset().remove(x));
        assert(b.remove(p).to_multiset() =~= b.to_multiset().remove(x));
        lemma_free_sum_of_rearranged(gpus, a.drop_first(), b.remove(p));
    }
}

proof fn lemma_free_sum_at_without(gpus: Seq<GpuInfo>, b: Seq<usize>, p: int)
    requires
        0 <= p < b.len(),
    ensures
        free_sum_at(gpus, b) == gpus[b[p] as int].free() + free_sum_at(gpus, b.remove(p)),
    decreases b.len(),
{
    if p == 0 {
        assert(b.remove(0) =~= b.drop_first());
    } else {
        lemma_free_sum_at_without(gpus, b.drop_first(), p - 1);
        assert(b.remove(p).drop_first() =~= b.drop_first().remove(p - 1));
        assert(b.remove(p)[0] == b[0]);
    }
}

proof fn lemma_free_sum_at_positions(gpus: Seq<GpuInfo>, n: nat)
    requires
        n <= gpus.len() <= usize::MAX + 1,
    ensures
        free_sum_at(gpus, positions(n)) == free_sum(gpus.take(n as int)),
    decreases n,
{
    if n > 0 {
        let m = (n - 1) as nat;
        lemma_free_sum_at_positions(gpus, m);
        lemma_free_sum_at_without(gpus, positions(n), n - 1);
        assert(positions(n).remove(n - 1) =~= positions(m));
        assert(gpus.take(n as int).drop_last() =~= gpus.take(m as int));
    }
}

/// Reserved bytes are withheld exactly once: together the GPUs offer what they
/// have free less what is reserved, and nothing but the memory in use differs.
pub proof fn law_reserved_memory_is_withheld(gpus: Seq<GpuInfo>, reserved: int)
    requires
        reserved >= 0,
        gpus.len() <= usize::MAX,
    ensures
        free_sum(after_reserve(gpus, reserved)) == (if free_sum(gpus) >= reserved {
            free_sum(gpus) - reserved
        } else {
            0
        }),
        after_reserve(gpus, reserved).len() == gpus.len(),
        forall|i: int|
            0 <= i < gpus.len() ==> {
                let before = #[trigger] gpus[i];
                let after = after_reserve(gpus, reserved)[i];
                &&& after == (GpuInfo { used_vram: after.used_vram, ..before })
                &&& before.used_vram <= after.used_vram
            },
{
    let at = sorted_by(positions(gpus.len()), freer(gpus));
    lemma_order_is_positions(gpus);
    lemma_drained(gpus, at, reserved);
    lemma_free_sum_of_rearranged(gpus, at, positions(gpus.len()));
    lemma_free_sum_at_positions(gpus, gpus.len());
    assert(gpus.take(gpus.len() as int) =~= gpus);
}

// ----- targets -----

/// The backends on which a model may run, in the order of preference: those
/// of its preset, or Vulkan.
pub open spec fn targets_of(m: &ModelConfig, presets: Map<Seq<char>, BinaryPreset>) -> Seq<
    Backend,
> {
    if m.binary_preset is Some && presets.dom().contains(m.binary_preset->0@)
        && presets[m.binary_preset->0@].targets_or_guess().len() > 0 {
        presets[m.binary_preset->0@].targets_or_guess()
    } else {
        seq![Backend::Vulkan]
    }
}

/// The backends on which a model may run, in the order of preference.
pub fn resolve_targets(m: &ModelConfig, presets: &Table<BinaryPreset>) -> (r: Vec<Backend>)
    requires
        presets.wf(),
    ensures
        r@ == targets_of(m, presets@),
        r@.len() > 0,
{
    match &m.binary_preset {
        Some(id) => match presets.get(id.as_str()) {
            Some(p) => {
                let t = p.effective_targets();
                if t.len() > 0 {
                    return t;
                }
            },
            None => {},
        },
        None => {},
    }
    let mut r: Vec<Backend> = Vec::new();
    r.push(Backend::Vulkan);
    assert(r@ =~= seq![Backend::Vulkan]);
    r
}

// ----- margins -----

/// Whether two records describe one GPU: the same address, or the same id.
pub open spec fn is_same_gpu(a: GpuInfo, b: GpuInfo) -> bool {
    ||| a.pci_bus_id is Some && b.pci_bus_id is Some && a.pci_bus_id->0@ == b.pci_bus_id->0@
    ||| a.id@ == b.id@
}

/// Whether two records describe one GPU.
pub fn same_gpu(a: &GpuInfo, b: &GpuInfo) -> (r: bool)
    ensures
        r == is_same_gpu(*a, *b),
{
    let by_address = match (&a.pci_bus_id, &b.pci_bus_id) {
        (Some(x), Some(y)) => *x == *y,
        _ => false,
    };
    by_address || a.id == b.id
}

/// Mebibytes, rounded up.
pub open spec fn mib_ceil(bytes: int) -> int {
    capped_sum(bytes + 1048575) / 1048576
}

/// Mebibytes, rounded up.
pub fn bytes_to_mib_ceil(bytes: u64) -> (r: u64)
    ensures
        r == mib_ceil(bytes as int),
{
    bytes.saturating_add(1048575) / 1048576
}

/// Memory in use on the GPU before anything was reserved.
pub open spec fn original_used(g: GpuInfo, original: Seq<GpuInfo>) -> u64
    decreases original.len(),
{
    if original.len() == 0 {
        g.used_vram
    } else if is_same_gpu(original[0], g) {
        original[0].used_vram
    } else {
        original_used(g, original.drop_first())
    }
}

/// MiB that a probe must leave free on a GPU: the margin of its cap and what
/// is reserved there.
pub open spec fn probe_margin_mib(g: GpuInfo, original: Seq<GpuInfo>, caps: Caps) -> int {
    let margin = saturating_product(
        g.total_vram as int,
        100 - clamp_pct(g.cap(caps.gpu, caps.display)),
    ) / 100;
    let used = original_used(g, original);
    let reserved = if g.used_vram >= used {
        g.used_vram - used
    } else {
        0
    };
    mib_ceil(capped_sum(margin + reserved))
}

/// MiB that a probe must leave free on a GPU.
pub fn fit_target_for_probe_mib(
    g: &GpuInfo,
    original: &[GpuInfo],
    gpu_cap_pct: u8,
    display_cap_pct: u8,
) -> (r: u64)
    ensures
        r == probe_margin_mib(
            *g,
            original@,
            Caps { gpu: gpu_cap_pct as int, display: display_cap_pct as int },
        ),
{
    let cap = clamped_pct(g.vram_cap_pct(gpu_cap_pct as u64, display_cap_pct as u64));
    let margin = saturating_times(g.total_vram, 100 - cap) / 100;
    let mut used: u64 = g.used_vram;
    let mut i: usize = 0;
    let mut found = false;
    assert(original@.subrange(0, original@.len() as int) =~= original@);
    while i < original.len() && !found
        invariant
            i <= original@.len(),
            found ==> used == original_used(*g, original@),
            !found ==> used == g.used_vram && original_used(*g, original@) == original_used(
                *g,
                original@.subrange(i as int, original@.len() as int),
            ),
        decreases original@.len() - i,
    {
        let ghost rest = original@.subrange(i as int, original@.len() as int);
        assert(rest[0] == original@[i as int]);
        assert(rest.drop_first() =~= original@.subrange(i + 1, original@.len() as int));
        if same_gpu(&original[i], g) {
            used = original[i].used_vram;
            found = true;
        }
        i += 1;
    }
    let reserved = g.used_vram.saturating_sub(used);
    bytes_to_mib_ceil(margin.saturating_add(reserved))
}

/// The margins of a probe, as texts.
pub open spec fn probe_margins(gpus: Seq<GpuInfo>, original: Seq<GpuInfo>, caps: Caps) -> Seq<
    Seq<char>,
> {
    gpus.map_values(|g: GpuInfo| decimal(probe_margin_mib(g, original, caps) as nat))
}

pub(crate) fn probe_target_list(
    gpus: &Vec<GpuInfo>,
    original: &[GpuInfo],
    gpu_cap_pct: u8,
    display_cap_pct: u8,
) -> (r: String)
    ensures
        r@ == join(
            probe_margins(
                gpus@,
                original@,
                Caps { gpu: gpu_cap_pct as int, display: display_cap_pct as int },
            ),
            seq![','],
        ),
{
    let ghost caps = Caps { gpu: gpu_cap_pct as int, display: display_cap_pct as int };
    let mut parts: Vec<String> = Vec::new();
    let mut i: usize = 0;
    assert(texts(parts@) =~= probe_margins(gpus@.take(0), original@, caps));
    while i < gpus.len()
        invariant
            i <= gpus@.len(),
            caps == (Caps { gpu: gpu_cap_pct as int, display: display_cap_pct as int }),
            texts(parts@) == probe_margins(gpus@.take(i as int), original@, caps),
        decreases gpus@.len() - i,
    {
        let t = decimal_text(
            fit_target_for_probe_mib(&gpus[i], original, gpu_cap_pct, display_cap_pct),
        );
        let ghost tv = t@;
        let ghost before = parts@;
        parts.push(t);
        assert(texts(parts@) =~= texts(before).push(tv));
        assert(probe_margins(gpus@.take(i + 1), original@, caps) =~= probe_margins(
            gpus@.take(i as int),
            original@,
            caps,
        ).push(tv));
        i += 1;
    }
    assert(gpus@.take(i as int) =~= gpus@);
    proof {
        reveal_strlit(",");
        assert(","@ =~= seq![',']);
    }
    join_texts(&parts, ",")
}

} // verus!
