//! What holds of every placement.
use vstd::prelude::*;
use vstd::seq_lib::*;
use vstd::string::*;

use crate::config::backend::Backend;
use crate::config::model::{ModelConfig, WeightsFormat};
use crate::orchestrator::allocation::{
    allocatable_sum, capped_sum, device_names, lemma_pick_sum, lemma_sum_of_rearranged, lower_index,
    more_allocatable, picked, picks, Caps,
};
use crate::orchestrator::placement::{
    after_reserve, law_reserved_memory_is_withheld, probe_margin_mib,
};
use crate::orchestrator::search::{
    answered_full, backend_pool, backend_probes, best_spill, first_full, group_views, is_placement,
    is_plan, lemma_first_full, probe_views, probes_of, selected, step_from, FitProbe, PlaceOutcome,
    PlacementStep, ProbePlan, ProbeResult, SearchStep,
};
use crate::order::{law_sorted_by, ranks, sorted_by};
use crate::text::{decimal, join};
use crate::vram::llama_fit::LlamaFitSizing;
use crate::vram::tracker::GpuInfo;

verus! {

broadcast use vstd::string::group_string_axioms;

/// The name that llama.cpp gives to the device of a GPU on a backend.
pub open spec fn device_name(g: GpuInfo, b: Backend) -> Option<Seq<char>> {
    match b {
        Backend::Vulkan => match g.vulkan_index {
            Some(i) => Some("Vulkan"@ + decimal(i as nat)),
            None => None,
        },
        Backend::Cuda => match g.cuda_index {
            Some(i) => Some("CUDA"@ + decimal(i as nat)),
            None => None,
        },
        Backend::Rocm => match g.rocm_index {
            Some(i) => Some("ROCm"@ + decimal(i as nat)),
            None => None,
        },
        Backend::Sycl => match g.sycl_index {
            Some(i) => Some("SYCL"@ + decimal(i as nat)),
            None => None,
        },
    }
}

// ----- which GPUs take part -----

/// A backend may use every GPU that is not integrated and carries its tag, and
/// no other, whatever else is known of it.
pub proof fn law_pool_is_every_tagged_gpu(gpus: Seq<GpuInfo>, b: Backend, g: GpuInfo)
    ensures
        backend_pool(gpus, b).contains(g) <==> (gpus.contains(g) && !g.integrated && g.tags.has(b)),
        !g.integrated && g.tags.has(b) ==> backend_pool(gpus, b).to_multiset().count(g)
            == gpus.to_multiset().count(g),
    decreases gpus.len(),
{
    broadcast use group_seq_properties;

    reveal(Seq::filter);
    if gpus.len() > 0 {
        let front = gpus.drop_last();
        law_pool_is_every_tagged_gpu(front, b, g);
        assert(gpus =~= front.push(gpus.last()));
        let pool = backend_pool(front, b);
        if !gpus.last().integrated && gpus.last().tags.has(b) {
            assert(backend_pool(gpus, b) =~= pool.push(gpus.last()));
            assert(backend_pool(gpus, b).contains(g) <==> pool.contains(g) || g == gpus.last()) by {
                if pool.contains(g) {
                    let i = choose|i: int| 0 <= i < pool.len() && pool[i] == g;
                    assert(backend_pool(gpus, b)[i] == g);
                }
                assert(backend_pool(gpus, b)[pool.len() as int] == gpus.last());
            }
        } else {
            assert(backend_pool(gpus, b) =~= pool);
        }
        assert(gpus.contains(g) <==> front.contains(g) || g == gpus.last()) by {
            if front.contains(g) {
                let i = choose|i: int| 0 <= i < front.len() && front[i] == g;
                assert(gpus[i] == g);
            }
            assert(gpus[gpus.len() - 1] == gpus.last());
        }
    } else {
        assert(backend_pool(gpus, b) =~= Seq::empty());
    }
}

proof fn lemma_same_members<T>(a: Seq<T>, b: Seq<T>, x: T)
    requires
        a.to_multiset() == b.to_multiset(),
    ensures
        a.contains(x) == b.contains(x),
{
    broadcast use group_seq_properties;

    a.to_multiset_ensures();
    b.to_multiset_ensures();
    assert(a.contains(x) <==> a.to_multiset().count(x) > 0);
    assert(b.contains(x) <==> b.to_multiset().count(x) > 0);
}

proof fn lemma_named(gpus: Seq<GpuInfo>, b: Backend, x: Seq<char>)
    ensures
        device_names(gpus, b).contains(x) <==> exists|i: int|
            0 <= i < gpus.len() && device_name(#[trigger] gpus[i], b) == Some(x),
    decreases gpus.len(),
{
    if gpus.len() > 0 {
        let front = gpus.drop_last();
        lemma_named(front, b, x);
        let names = device_names(front, b);
        let all = device_names(gpus, b);
        assert(gpus.last().device_for(b) == device_name(gpus.last(), b));
        if device_name(gpus.last(), b) is Some {
            assert(all == names.push(device_name(gpus.last(), b)->0));
            if names.contains(x) {
                let i = choose|i: int| 0 <= i < names.len() && names[i] == x;
                assert(all[i] == x);
            }
            assert(all[names.len() as int] == device_name(gpus.last(), b)->0);
        }
        if exists|i: int| 0 <= i < front.len() && device_name(#[trigger] front[i], b) == Some(x) {
            let i = choose|i: int|
                0 <= i < front.len() && device_name(#[trigger] front[i], b) == Some(x);
            assert(gpus[i] == front[i]);
        }
        if exists|i: int| 0 <= i < gpus.len() && device_name(#[trigger] gpus[i], b) == Some(x) {
            let i = choose|i: int|
                0 <= i < gpus.len() && device_name(#[trigger] gpus[i], b) == Some(x);
            if i < front.len() {
                assert(front[i] == gpus[i]);
            }
        }
        assert(gpus[gpus.len() - 1] == gpus.last());
    }
}

proof fn lemma_joined(parts: Seq<Seq<char>>, sep: Seq<char>, i: int)
    requires
        0 <= i < parts.len(),
        parts[i].len() > 0,
    ensures
        join(parts, sep).len() > 0,
    decreases parts.len(),
{
    if parts.len() > 1 && i < parts.len() - 1 {
        lemma_joined(parts.drop_last(), sep, i);
    }
}

proof fn lemma_name_is_long(g: GpuInfo, b: Backend)
    ensures
        device_name(g, b) is Some ==> device_name(g, b)->0.len() > 0,
{
    reveal_strlit("Vulkan");
    reveal_strlit("CUDA");
    reveal_strlit("ROCm");
    reveal_strlit("SYCL");
}

/// Where any GPU has a device name, the largest probe of a backend names every
/// GPU of the backend that has one, and no other.
proof fn lemma_largest_probe(
    adjusted: Seq<GpuInfo>,
    b: Backend,
    original: Seq<GpuInfo>,
    caps: Caps,
    g: GpuInfo,
) -> (names: Seq<Seq<char>>)
    requires
        adjusted.contains(g),
        !g.integrated,
        g.tags.has(b),
        device_name(g, b) is Some,
    ensures
        ({
            let probes = backend_probes(adjusted, b, original, caps);
            &&& probes.len() > 0
            &&& probes.last().backend == b
            &&& probes.last().device == join(names, seq![','])
            &&& forall|x: Seq<char>| #[trigger]
                names.contains(x) <==> exists|i: int|
                    0 <= i < adjusted.len() && !adjusted[i].integrated && adjusted[i].tags.has(b)
                        && device_name(#[trigger] adjusted[i], b) == Some(x)
        }),
{
    let pool = backend_pool(adjusted, b);
    let leq = more_allocatable(caps);
    assert(ranks(leq));
    law_sorted_by(pool, leq);
    let best = sorted_by(pool, leq);
    assert(best.take(best.len() as int) =~= best);
    let low = lower_index(b);
    assert(ranks(low));
    law_sorted_by(best, low);
    let chosen = sorted_by(best, low);
    let names = device_names(chosen, b);
    assert forall|x: GpuInfo| #[trigger]
        chosen.contains(x) <==> (adjusted.contains(x) && !x.integrated && x.tags.has(b)) by {
        law_pool_is_every_tagged_gpu(adjusted, b, x);
        lemma_same_members(chosen, best, x);
        lemma_same_members(best, pool, x);
    }
    assert forall|x: Seq<char>| #[trigger]
        names.contains(x) <==> exists|i: int|
            0 <= i < adjusted.len() && !adjusted[i].integrated && adjusted[i].tags.has(b)
                && device_name(#[trigger] adjusted[i], b) == Some(x) by {
        lemma_named(chosen, b, x);
        if names.contains(x) {
            let i = choose|i: int|
                0 <= i < chosen.len() && device_name(#[trigger] chosen[i], b) == Some(x);
            assert(chosen.contains(chosen[i]));
            let k = choose|k: int| 0 <= k < adjusted.len() && adjusted[k] == chosen[i];
            assert(device_name(adjusted[k], b) == Some(x));
        }
        if exists|i: int|
            0 <= i < adjusted.len() && !adjusted[i].integrated && adjusted[i].tags.has(b)
                && device_name(#[trigger] adjusted[i], b) == Some(x) {
            let i = choose|i: int|
                0 <= i < adjusted.len() && !adjusted[i].integrated && adjusted[i].tags.has(b)
                    && device_name(#[trigger] adjusted[i], b) == Some(x);
            assert(adjusted.contains(adjusted[i]));
            assert(chosen.contains(adjusted[i]));
            let k = choose|k: int| 0 <= k < chosen.len() && chosen[k] == adjusted[i];
            assert(device_name(chosen[k], b) == Some(x));
        }
    }
    let x = device_name(g, b)->0;
    lemma_name_is_long(g, b);
    let at = choose|at: int| 0 <= at < adjusted.len() && adjusted[at] == g;
    assert(device_name(adjusted[at], b) == Some(x));
    assert(names.contains(x));
    let i = choose|i: int| 0 <= i < names.len() && names[i] == x;
    lemma_joined(names, seq![','], i);
    assert(chosen.contains(g));
    assert(best.len() > 0) by {
        lemma_same_members(chosen, best, g);
    }
    names
}

/// For a model without a configured device, the last probe of each backend
/// names every GPU that is not integrated, carries the backend's tag and has a
/// device name there, and no other GPU.
pub proof fn law_every_tagged_gpu_is_probed(
    plan: ProbePlan,
    model: &ModelConfig,
    targets: Seq<Backend>,
    gpus: Seq<GpuInfo>,
    reserved: int,
    caps: Caps,
    t: int,
    i: int,
) -> (names: Seq<Seq<char>>)
    requires
        is_plan(plan, model, targets, gpus, reserved, caps),
        model.device is None,
        0 <= t < targets.len(),
        0 <= i < gpus.len() <= usize::MAX,
        reserved >= 0,
        !gpus[i].integrated,
        gpus[i].tags.has(targets[t]),
        device_name(gpus[i], targets[t]) is Some,
    ensures
        plan.groups@.len() == targets.len(),
        plan.groups@[t]@.len() > 0,
        plan.groups@[t]@.last().backend == targets[t],
        plan.groups@[t]@.last().device@ == join(names, seq![',']),
        names.contains(device_name(gpus[i], targets[t])->0),
        forall|x: Seq<char>| #[trigger]
            names.contains(x) <==> exists|k: int|
                0 <= k < gpus.len() && !gpus[k].integrated && gpus[k].tags.has(targets[t])
                    && device_name(#[trigger] gpus[k], targets[t]) == Some(x),
{
    let b = targets[t];
    let adjusted = after_reserve(gpus, reserved);
    law_reserved_memory_is_withheld(gpus, reserved);
    let g = adjusted[i];
    assert(gpus[i] == gpus[i]);
    assert(adjusted.contains(g));
    let names = lemma_largest_probe(adjusted, b, gpus, caps, g);
    let groups = group_views(plan.groups@);
    assert(groups.len() == targets.len());
    assert(groups[t] == backend_probes(adjusted, b, gpus, caps));
    assert(groups[t] == probe_views(plan.groups@[t]@));
    assert(probe_views(plan.groups@[t]@).last() == plan.groups@[t]@.last()@);
    assert forall|x: Seq<char>| #[trigger]
        names.contains(x) <==> exists|k: int|
            0 <= k < gpus.len() && !gpus[k].integrated && gpus[k].tags.has(b) && device_name(
                #[trigger] gpus[k],
                b,
            ) == Some(x) by {
        if names.contains(x) {
            let k = choose|k: int|
                0 <= k < adjusted.len() && !adjusted[k].integrated && adjusted[k].tags.has(b)
                    && device_name(#[trigger] adjusted[k], b) == Some(x);
            assert(device_name(gpus[k], b) == Some(x));
        }
        if exists|k: int|
            0 <= k < gpus.len() && !gpus[k].integrated && gpus[k].tags.has(b) && device_name(
                #[trigger] gpus[k],
                b,
            ) == Some(x) {
            let k = choose|k: int|
                0 <= k < gpus.len() && !gpus[k].integrated && gpus[k].tags.has(b) && device_name(
                    #[trigger] gpus[k],
                    b,
                ) == Some(x);
            assert(device_name(adjusted[k], b) == Some(x));
        }
    }
    assert(device_name(gpus[i], b) == device_name(g, b));
    names
}

// ----- the order of the probes -----

proof fn lemma_pool_len(gpus: Seq<GpuInfo>, b: Backend)
    ensures
        backend_pool(gpus, b).len() <= gpus.len(),
    decreases gpus.len(),
{
    reveal(Seq::filter);
    if gpus.len() > 0 {
        lemma_pool_len(gpus.drop_last(), b);
    }
}

proof fn lemma_probes_grow(
    best: Seq<GpuInfo>,
    n: int,
    b: Backend,
    original: Seq<GpuInfo>,
    caps: Caps,
)
    requires
        0 <= n <= best.len(),
    ensures
        ({
            let p = probes_of(best, n, b, original, caps);
            &&& p.len() <= n
            &&& forall|i: int|
                0 <= i < p.len() ==> {
                    &&& (#[trigger] p[i]).backend == b
                    &&& 1 <= p[i].gpus_used <= n
                    &&& p[i].device.len() > 0
                    &&& p[i].free == capped_sum(
                        allocatable_sum(best.take(p[i].gpus_used as int), caps),
                    )
                }
            &&& forall|i: int, j: int|
                0 <= i < j < p.len() ==> (#[trigger] p[i]).gpus_used < (#[trigger] p[j]).gpus_used
        }),
    decreases n,
{
    if n > 0 {
        lemma_probes_grow(best, n - 1, b, original, caps);
        let low = lower_index(b);
        assert(ranks(low));
        law_sorted_by(best.take(n), low);
        lemma_sum_of_rearranged(sorted_by(best.take(n), low), best.take(n), caps);
        let front = probes_of(best, n - 1, b, original, caps);
        let p = probes_of(best, n, b, original, caps);
        assert forall|i: int| 0 <= i < p.len() implies {
            &&& (#[trigger] p[i]).backend == b
            &&& 1 <= p[i].gpus_used <= n
            &&& p[i].device.len() > 0
            &&& p[i].free == capped_sum(allocatable_sum(best.take(p[i].gpus_used as int), caps))
        } by {
            if i < front.len() {
                assert(p[i] == front[i]);
            }
        }
        assert forall|i: int, j: int| 0 <= i < j < p.len() implies (#[trigger] p[i]).gpus_used < (
        #[trigger] p[j]).gpus_used by {
            assert(p[i] == front[i]);
            if j < front.len() {
                assert(p[j] == front[j]);
            }
        }
    }
}

/// The probes of one backend use more GPUs from one to the next, so that fewer
/// GPUs are tried first; each uses at least one, and none more than there are.
pub proof fn law_fewer_gpus_are_tried_first(
    adjusted: Seq<GpuInfo>,
    b: Backend,
    original: Seq<GpuInfo>,
    caps: Caps,
)
    ensures
        ({
            let p = backend_probes(adjusted, b, original, caps);
            &&& forall|i: int|
                0 <= i < p.len() ==> (#[trigger] p[i]).backend == b && 1 <= p[i].gpus_used
                    <= adjusted.len()
            &&& forall|i: int, j: int|
                0 <= i < j < p.len() ==> (#[trigger] p[i]).gpus_used < (#[trigger] p[j]).gpus_used
        }),
{
    let pool = backend_pool(adjusted, b);
    assert(ranks(more_allocatable(caps)));
    law_sorted_by(pool, more_allocatable(caps));
    let best = sorted_by(pool, more_allocatable(caps));
    lemma_probes_grow(best, best.len() as int, b, original, caps);
    lemma_pool_len(adjusted, b);
}

/// A probe of so many GPUs takes those with most memory to allocate: no other
/// choice of as many GPUs of the backend offers more, and what it counts as
/// free is what they offer.
pub proof fn law_a_probe_takes_the_roomiest_gpus(
    adjusted: Seq<GpuInfo>,
    b: Backend,
    original: Seq<GpuInfo>,
    caps: Caps,
    k: int,
    at: Seq<int>,
)
    requires
        0 <= k < backend_probes(adjusted, b, original, caps).len(),
        picks(at, backend_pool(adjusted, b).len()),
        at.len() == backend_probes(adjusted, b, original, caps)[k].gpus_used,
    ensures
        capped_sum(
            allocatable_sum(
                picked(sorted_by(backend_pool(adjusted, b), more_allocatable(caps)), at),
                caps,
            ),
        ) <= backend_probes(adjusted, b, original, caps)[k].free,
{
    let pool = backend_pool(adjusted, b);
    let leq = more_allocatable(caps);
    assert(ranks(leq));
    law_sorted_by(pool, leq);
    let best = sorted_by(pool, leq);
    lemma_probes_grow(best, best.len() as int, b, original, caps);
    lemma_pick_sum(best, at, caps);
}

/// There is one group of probes for each backend, in the order of preference,
/// and each group asks about its own backend alone.
pub proof fn law_backends_are_probed_in_order(
    plan: ProbePlan,
    model: &ModelConfig,
    targets: Seq<Backend>,
    gpus: Seq<GpuInfo>,
    reserved: int,
    caps: Caps,
    t: int,
    k: int,
)
    requires
        is_plan(plan, model, targets, gpus, reserved, caps),
        model.device is None,
        0 <= t < plan.groups@.len(),
        0 <= k < plan.groups@[t]@.len(),
    ensures
        plan.groups@.len() == targets.len(),
        plan.groups@[t]@[k].backend == targets[t],
        plan.groups@[t]@[k].gpus_used >= 1,
        k > 0 ==> plan.groups@[t]@[k - 1].gpus_used < plan.groups@[t]@[k].gpus_used,
{
    let adjusted = after_reserve(gpus, reserved);
    let groups = group_views(plan.groups@);
    assert(groups.len() == targets.len());
    let p = backend_probes(adjusted, targets[t], gpus, caps);
    assert(groups[t] == p);
    assert(p[k] == plan.groups@[t]@[k]@);
    law_fewer_gpus_are_tried_first(adjusted, targets[t], gpus, caps);
    if k > 0 {
        assert(p[k - 1] == plan.groups@[t]@[k - 1]@);
        assert(p[k - 1].gpus_used < p[k].gpus_used);
    }
}

/// A model whose devices are configured is probed on those alone, once.
pub proof fn law_configured_devices_are_kept(
    plan: ProbePlan,
    model: &ModelConfig,
    targets: Seq<Backend>,
    gpus: Seq<GpuInfo>,
    reserved: int,
    caps: Caps,
)
    requires
        is_plan(plan, model, targets, gpus, reserved, caps),
        model.device is Some,
    ensures
        plan.groups@.len() <= 1,
        plan.groups@.len() == 1 ==> {
            &&& plan.groups@[0]@.len() == 1
            &&& plan.groups@[0]@[0].device@ == model.device->0@
            &&& targets.len() > 0 ==> plan.groups@[0]@[0].backend == targets[0]
            &&& plan.groups@[0]@[0].free == plan.best_free
        },
        plan.groups@.len() == 0 ==> plan.best_free == 0,
{
    let groups = group_views(plan.groups@);
    assert(groups.len() == plan.groups@.len());
    if plan.groups@.len() > 0 {
        assert(groups[0] == probe_views(plan.groups@[0]@));
        assert(groups[0].len() == 1);
        assert(groups[0][0] == plan.groups@[0]@[0]@);
    }
}

// ----- how much is left free -----

/// The share of its memory that a GPU may be filled to: the lower cap where a
/// monitor is attached.
pub open spec fn fill_cap(g: GpuInfo, caps: Caps) -> int {
    let p = if g.display_attached {
        caps.display
    } else {
        caps.gpu
    };
    if p < 1 {
        1
    } else if p > 100 {
        100
    } else {
        p
    }
}

/// What a GPU can still be given fills it up to its cap and not beyond.
pub proof fn law_gpus_are_filled_to_their_cap(g: GpuInfo, caps: Caps)
    ensures
        ({
            let room = g.allocatable(caps.gpu, caps.display);
            &&& room >= 0
            &&& room > 0 ==> {
                &&& (g.used_vram + room) * 100 <= g.total_vram * fill_cap(g, caps)
                &&& (g.used_vram + room + 1) * 100 > g.total_vram * fill_cap(g, caps)
            }
            &&& room == 0 ==> (g.used_vram + 1) * 100 > g.total_vram * fill_cap(g, caps)
            &&& g.used_vram + room <= g.total_vram || room == 0
        }),
{
    let n = g.total_vram * fill_cap(g, caps);
    assert(n <= g.total_vram * 100) by (nonlinear_arith)
        requires
            n == g.total_vram * fill_cap(g, caps),
            fill_cap(g, caps) <= 100,
            g.total_vram >= 0,
    ;
}

/// A probe is told to leave so much of each GPU free that neither the cap nor
/// the memory that is set aside for others is touched, and less than one
/// mebibyte more.
pub proof fn law_a_probe_leaves_cap_and_reserve(
    g: GpuInfo,
    original: Seq<GpuInfo>,
    caps: Caps,
    used: u64,
    k: int,
)
    requires
        0 <= k < original.len(),
        original[k].id@ == g.id@,
        forall|i: int|
            0 <= i < original.len() && ((#[trigger] original[i]).id@ == g.id@ || (
            original[i].pci_bus_id is Some && g.pci_bus_id is Some && original[i].pci_bus_id->0@
                == g.pci_bus_id->0@)) ==> original[i].used_vram == used,
        used <= g.used_vram,
        g.total_vram * 100 <= u64::MAX,
        g.total_vram + g.used_vram + 1048576 <= u64::MAX,
    ensures
        ({
            let left = probe_margin_mib(g, original, caps) * 1048576;
            let kept = g.total_vram * (100 - fill_cap(g, caps)) / 100 + (g.used_vram - used);
            kept <= left < kept + 1048576
        }),
{
    lemma_original_used(g, original, used);
    let c = 100 - fill_cap(g, caps);
    assert(0 <= g.total_vram * c <= g.total_vram * 100) by (nonlinear_arith)
        requires
            0 <= c <= 100,
            g.total_vram >= 0,
    ;
}

proof fn lemma_original_used(g: GpuInfo, original: Seq<GpuInfo>, used: u64)
    requires
        exists|k: int| 0 <= k < original.len() && (#[trigger] original[k]).id@ == g.id@,
        forall|i: int|
            0 <= i < original.len() && ((#[trigger] original[i]).id@ == g.id@ || (
            original[i].pci_bus_id is Some && g.pci_bus_id is Some && original[i].pci_bus_id->0@
                == g.pci_bus_id->0@)) ==> original[i].used_vram == used,
    ensures
        crate::orchestrator::placement::original_used(g, original) == used,
    decreases original.len(),
{
    let k = choose|k: int| 0 <= k < original.len() && (#[trigger] original[k]).id@ == g.id@;
    assert(original[0].used_vram == original[0].used_vram);
    if !crate::orchestrator::placement::is_same_gpu(original[0], g) {
        let rest = original.drop_first();
        assert(rest[k - 1] == original[k]);
        assert forall|i: int|
            0 <= i < rest.len() && ((#[trigger] rest[i]).id@ == g.id@ || (
            rest[i].pci_bus_id is Some && g.pci_bus_id is Some && rest[i].pci_bus_id->0@
                == g.pci_bus_id->0@)) implies rest[i].used_vram == used by {
            assert(rest[i] == original[i + 1]);
        }
        lemma_original_used(g, rest, used);
    }
}

// ----- what the answers amount to -----

/// How many probes stand in the groups before group `g`.
pub open spec fn probes_before(groups: Seq<Vec<FitProbe>>, g: int) -> int
    decreases g,
{
    if g <= 0 {
        0
    } else {
        probes_before(groups, g - 1) + groups[g - 1]@.len()
    }
}

/// Whether a size lies wholly on GPUs: it sends no tensor to the CPU, and all
/// layers are on GPUs where their number is known.
pub open spec fn is_all_on_gpus(s: LlamaFitSizing, n_layers: u32) -> bool {
    &&& !s.uses_cpu_override()
    &&& n_layers > 0 && s.fitted.n_gpu_layers is Some ==> (s.fitted.n_gpu_layers->0 < 0
        || s.fitted.n_gpu_layers->0 >= n_layers)
}

/// Whether the probe at position `k` of group `g` is the one that a placement
/// goes by.
pub open spec fn is_winner(
    groups: Seq<Vec<FitProbe>>,
    results: Seq<ProbeResult>,
    n_layers: u32,
    g: int,
    k: int,
    sizing: LlamaFitSizing,
    full: bool,
) -> bool {
    let h = probes_before(groups, g);
    &&& 0 <= g < groups.len()
    &&& 0 <= k < groups[g]@.len()
    &&& h + k < results.len()
    &&& results[h + k] == ProbeResult::Sized(sizing)
    &&& full == is_all_on_gpus(sizing, n_layers)
    // Every backend before gave no size at all.
    &&& forall|i: int| 0 <= i < h ==> #[trigger] results[i] is Failed
    // No probe of fewer GPUs on this backend was wholly on GPUs.
    &&& forall|i: int|
        h <= i < h + k && #[trigger] results[i] is Sized ==> !is_all_on_gpus(
            results[i]->Sized_0,
            n_layers,
        )
    // A placement that leaves something to the CPU waits for the whole group,
    // and is the one with most GPUs, and of those with most GPU memory.
    &&& !full ==> {
        &&& h + groups[g]@.len() <= results.len()
        &&& forall|i: int|
            0 <= i < groups[g]@.len() && #[trigger] results[h + i] is Sized ==> {
                &&& !is_all_on_gpus(results[h + i]->Sized_0, n_layers)
                &&& groups[g]@[i].gpus_used < groups[g]@[k].gpus_used || (
                groups[g]@[i].gpus_used == groups[g]@[k].gpus_used
                    && results[h + i]->Sized_0.device_vram <= sizing.device_vram)
            }
    }
}

proof fn lemma_best_spill_is_best(
    group: Seq<FitProbe>,
    results: Seq<ProbeResult>,
    h: int,
    k: int,
)
    requires
        0 <= k <= group.len(),
        0 <= h,
        h + k <= results.len(),
    ensures
        match best_spill(group, results, h, k) {
            Some(j) => {
                &&& 0 <= j < k
                &&& results[h + j] is Sized
                &&& forall|i: int|
                    0 <= i < k && #[trigger] results[h + i] is Sized ==> {
                        group[i].gpus_used < group[j].gpus_used || (group[i].gpus_used
                            == group[j].gpus_used && results[h + i]->Sized_0.device_vram
                            <= results[h + j]->Sized_0.device_vram)
                    }
            },
            None => forall|i: int| 0 <= i < k ==> #[trigger] results[h + i] is Failed,
        },
    decreases k,
{
    if k > 0 {
        lemma_best_spill_is_best(group, results, h, k - 1);
    }
}

proof fn lemma_winner(
    groups: Seq<Vec<FitProbe>>,
    results: Seq<ProbeResult>,
    n_layers: u32,
    g: int,
) -> (r: (int, int))
    requires
        0 <= g <= groups.len(),
        probes_before(groups, g) <= results.len(),
        0 <= probes_before(groups, g),
        forall|i: int| 0 <= i < probes_before(groups, g) ==> #[trigger] results[i] is Failed,
    ensures
        match step_from(groups, results, n_layers, g, probes_before(groups, g)) {
            SearchStep::Place { probe, sizing, full } => {
                &&& is_winner(groups, results, n_layers, r.0, r.1, sizing, full)
                &&& probe == groups[r.0]@[r.1]
            },
            SearchStep::Failed(e) => {
                &&& probes_before(groups, groups.len() as int) <= results.len()
                &&& forall|i: int|
                    0 <= i < probes_before(groups, groups.len() as int) ==> #[trigger] results[i] is Failed
                &&& probes_before(groups, groups.len() as int) > 0
                &&& results[probes_before(groups, groups.len() as int) - 1]
                    == ProbeResult::Failed(e)
            },
            SearchStep::NoRoom => probes_before(groups, groups.len() as int) == 0,
            SearchStep::Probe(p) => {
                &&& 0 <= r.0 < groups.len()
                &&& probes_before(groups, r.0) <= results.len()
                &&& results.len() < probes_before(groups, r.0) + groups[r.0]@.len()
                &&& p == groups[r.0]@[results.len() - probes_before(groups, r.0)]
                &&& forall|i: int|
                    0 <= i < probes_before(groups, r.0) ==> #[trigger] results[i] is Failed
                &&& forall|i: int|
                    probes_before(groups, r.0) <= i < results.len() && #[trigger] results[i] is Sized
                        ==> !is_all_on_gpus(results[i]->Sized_0, n_layers)
            },
        },
    decreases groups.len() - g,
{
    let h = probes_before(groups, g);
    if g >= groups.len() {
        if h > 0 {
            assert(results[h - 1] is Failed);
        }
        (0, 0)
    } else {
        let group = groups[g]@;
        let answered = if results.len() - h < group.len() {
            results.len() - h
        } else {
            group.len() as int
        };
        lemma_first_full(results, h, h + answered, n_layers);
        match first_full(results, h, h + answered, n_layers) {
            Some(i) => {
                lemma_first_is_first(results, h, h + answered, n_layers);
                (g, i - h)
            },
            None => {
                if answered < group.len() {
                    (g, 0)
                } else {
                    lemma_best_spill_is_best(group, results, h, group.len() as int);
                    match best_spill(group, results, h, group.len() as int) {
                        Some(j) => {
                            assert forall|i: int|
                                0 <= i < group.len() && #[trigger] results[h + i] is Sized implies !is_all_on_gpus(
                                results[h + i]->Sized_0,
                                n_layers,
                            ) by {
                                assert(!answered_full(results[h + i], n_layers));
                            }
                            (g, j)
                        },
                        None => {
                            assert forall|i: int| 0 <= i < h + group.len() implies #[trigger] results[i] is Failed by {
                                if i >= h {
                                    assert(results[h + (i - h)] is Failed);
                                }
                            }
                            lemma_winner(groups, results, n_layers, g + 1)
                        },
                    }
                }
            },
        }
    }
}

proof fn lemma_first_is_first(results: Seq<ProbeResult>, from: int, to: int, n_layers: u32)
    requires
        0 <= from <= to,
    ensures
        first_full(results, from, to, n_layers) matches Some(k) ==> forall|i: int|
            from <= i < k ==> !answered_full(#[trigger] results[i], n_layers),
    decreases to - from,
{
    if from < to && !answered_full(results[from], n_layers) {
        lemma_first_is_first(results, from + 1, to, n_layers);
    }
}

/// What the answers amount to. The backends are gone through in their order,
/// and one that gave any size settles the placement: the first answer wholly on
/// GPUs wins, and where there is none, the widest of the answers. The search
/// fails only where every probe failed, and finds no room only where there is
/// nothing to probe. As long as an answer is missing, the next probe is asked.
pub proof fn law_the_first_backend_that_answers_decides(
    groups: Seq<Vec<FitProbe>>,
    results: Seq<ProbeResult>,
    n_layers: u32,
) -> (r: (int, int))
    ensures
        match step_from(groups, results, n_layers, 0, 0) {
            SearchStep::Place { probe, sizing, full } => {
                &&& is_winner(groups, results, n_layers, r.0, r.1, sizing, full)
                &&& probe == groups[r.0]@[r.1]
            },
            SearchStep::Failed(e) => {
                &&& probes_before(groups, groups.len() as int) <= results.len()
                &&& forall|i: int|
                    0 <= i < probes_before(groups, groups.len() as int) ==> #[trigger] results[i] is Failed
                &&& probes_before(groups, groups.len() as int) > 0
                &&& results[probes_before(groups, groups.len() as int) - 1]
                    == ProbeResult::Failed(e)
            },
            SearchStep::NoRoom => probes_before(groups, groups.len() as int) == 0,
            SearchStep::Probe(p) => {
                &&& 0 <= r.0 < groups.len()
                &&& probes_before(groups, r.0) <= results.len()
                &&& results.len() < probes_before(groups, r.0) + groups[r.0]@.len()
                &&& p == groups[r.0]@[results.len() - probes_before(groups, r.0)]
                &&& forall|i: int|
                    0 <= i < probes_before(groups, r.0) ==> #[trigger] results[i] is Failed
                &&& forall|i: int|
                    probes_before(groups, r.0) <= i < results.len() && #[trigger] results[i] is Sized
                        ==> !is_all_on_gpus(results[i]->Sized_0, n_layers)
            },
        },
{
    lemma_winner(groups, results, n_layers, 0)
}

/// A model that is placed runs on the devices of the probe and counts with the
/// memory that the probe measured. A server that fits itself is told the
/// margins and nothing of the fitted layout; any other is told the layout and
/// no margins. Nothing else of the model changes.
pub proof fn law_a_placed_model_runs_as_it_was_probed(
    m: ModelConfig,
    device: String,
    fit_target: String,
    sizing: LlamaFitSizing,
    server_owned: bool,
)
    ensures
        ({
            let r = selected(m, device, fit_target, sizing, server_owned);
            &&& r.device == Some(device)
            &&& r.estimated_vram == sizing.device_vram
            &&& sizing.fitted.context is Some ==> r.context == sizing.fitted.context->0
            &&& sizing.fitted.context is None ==> r.context == m.context
            &&& server_owned ==> {
                &&& r.fit_target == Some(fit_target)
                &&& r.n_gpu_layers is None
                &&& r.tensor_split is None
                &&& r.override_tensor is None
            }
            &&& !server_owned ==> {
                &&& r.fit_target is None
                &&& r.tensor_split == sizing.fitted.tensor_split
                &&& r.override_tensor == sizing.fitted.override_tensor
                &&& (sizing.fitted.n_gpu_layers matches Some(n) && n >= 0)
                    ==> r.n_gpu_layers == Some(sizing.fitted.n_gpu_layers->0 as u32)
                &&& !(sizing.fitted.n_gpu_layers matches Some(n) && n >= 0)
                    ==> r.n_gpu_layers is None
            }
            &&& r == (ModelConfig {
                device: r.device,
                estimated_vram: r.estimated_vram,
                context: r.context,
                fit_target: r.fit_target,
                n_gpu_layers: r.n_gpu_layers,
                tensor_split: r.tensor_split,
                override_tensor: r.override_tensor,
                ..m
            })
        }),
{
}

/// What a GGUF model is told of its placement: as long as nothing is decided it
/// stays as it was, and once it is placed, some answer of the probes is what it
/// runs by. Only a server that does not fit itself can be said to lie wholly on
/// GPUs.
pub proof fn law_a_gguf_model_is_placed_by_an_answer(
    m: ModelConfig,
    after: ModelConfig,
    targets: Seq<Backend>,
    gpus: Seq<GpuInfo>,
    reserved: int,
    caps: Caps,
    results: Seq<ProbeResult>,
    n_layers: u32,
    server_owned: bool,
    r: PlacementStep,
)
    requires
        m.weights_format == WeightsFormat::Gguf,
        is_placement(m, after, targets, gpus, reserved, caps, results, n_layers, server_owned, r),
    ensures
        match r {
            PlacementStep::Probe(_) => after == m,
            PlacementStep::Failed(_) => after == m && results.len() > 0,
            PlacementStep::Done(PlaceOutcome::Fits) => false,
            PlacementStep::Done(PlaceOutcome::DoesNotFit { .. }) => after == m,
            PlacementStep::Done(PlaceOutcome::Placed { fully_on_gpu, gpus_used, .. }) => {
                &&& after.device is Some
                &&& exists|i: int|
                    {
                        &&& 0 <= i < results.len()
                        &&& (#[trigger] results[i]) is Sized
                        &&& after.estimated_vram == results[i]->Sized_0.device_vram
                        &&& fully_on_gpu == (!server_owned && is_all_on_gpus(
                            results[i]->Sized_0,
                            n_layers,
                        ))
                    }
            },
        },
{
    let plan = choose|plan: ProbePlan|
        {
            &&& #[trigger] is_plan(plan, &m, targets, gpus, reserved, caps)
            &&& crate::orchestrator::search::follows_plan(
                plan,
                m,
                after,
                results,
                n_layers,
                server_owned,
                r,
            )
        };
    let w = law_the_first_backend_that_answers_decides(plan.groups@, results, n_layers);
    match step_from(plan.groups@, results, n_layers, 0, 0) {
        SearchStep::Place { probe, sizing, full } => {
            let i = probes_before(plan.groups@, w.0) + w.1;
            assert(results[i] is Sized);
            lemma_probes_before(plan.groups@, w.0);
        },
        _ => {},
    }
}

proof fn lemma_probes_before(groups: Seq<Vec<FitProbe>>, g: int)
    ensures
        probes_before(groups, g) >= 0,
    decreases g,
{
    if g > 0 {
        lemma_probes_before(groups, g - 1);
    }
}

/// A model that no probe sizes has room exactly where nothing is known of its
/// need or the GPUs that it may use offer as much as it needs; and what is told
/// to be free is what they offer.
pub proof fn law_the_estimate_decides_without_a_probe(
    m: ModelConfig,
    after: ModelConfig,
    targets: Seq<Backend>,
    gpus: Seq<GpuInfo>,
    reserved: int,
    caps: Caps,
    r: PlaceOutcome,
)
    requires
        crate::orchestrator::search::placed_by_estimate(
            m,
            after,
            targets,
            gpus,
            reserved,
            caps,
            r,
        ),
        m.weights_format != WeightsFormat::Gguf || m.device is Some,
    ensures
        after == m,
        ({
            let seen = crate::orchestrator::devices::visible_gpus(
                &m,
                after_reserve(gpus, reserved),
            );
            let offered = allocatable_sum(seen, caps);
            &&& r is Fits || r is DoesNotFit
            &&& m.estimated_vram == 0 ==> r is Fits
            &&& offered >= m.estimated_vram ==> r is Fits
            &&& m.estimated_vram > 0 && offered < m.estimated_vram
                ==> r == (PlaceOutcome::DoesNotFit { free: offered as u64 })
        }),
{
    let seen = crate::orchestrator::devices::visible_gpus(&m, after_reserve(gpus, reserved));
    crate::orchestrator::allocation::lemma_sum_nonnegative(seen, caps);
}

/// What is told to be free where nothing can be placed is the most that any
/// one backend offers.
pub proof fn law_best_free_is_the_best_backend(
    adjusted: Seq<GpuInfo>,
    targets: Seq<Backend>,
    caps: Caps,
)
    ensures
        forall|t: int|
            0 <= t < targets.len() ==> capped_sum(
                allocatable_sum(backend_pool(adjusted, #[trigger] targets[t]), caps),
            ) <= crate::orchestrator::search::best_free(adjusted, targets, caps),
        crate::orchestrator::search::best_free(adjusted, targets, caps) == 0 || exists|t: int|
            0 <= t < targets.len() && crate::orchestrator::search::best_free(
                adjusted,
                targets,
                caps,
            ) == capped_sum(allocatable_sum(backend_pool(adjusted, #[trigger] targets[t]), caps)),
    decreases targets.len(),
{
    if targets.len() > 0 {
        let front = targets.drop_last();
        law_best_free_is_the_best_backend(adjusted, front, caps);
        let most = crate::orchestrator::search::best_free(adjusted, front, caps);
        assert forall|t: int| 0 <= t < targets.len() implies capped_sum(
            allocatable_sum(backend_pool(adjusted, #[trigger] targets[t]), caps),
        ) <= crate::orchestrator::search::best_free(adjusted, targets, caps) by {
            if t < front.len() {
                assert(front[t] == targets[t]);
            }
        }
        if most != 0 {
            let t = choose|t: int|
                0 <= t < front.len() && most == capped_sum(
                    allocatable_sum(backend_pool(adjusted, #[trigger] front[t]), caps),
                );
            assert(targets[t] == front[t]);
        }
        assert(targets[targets.len() - 1] == targets.last());
    }
}

} // verus!
