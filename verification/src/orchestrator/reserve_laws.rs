//! What holds of memory that is promised, of the margins that are left, and of
//! a placement by estimate.
use vstd::prelude::*;
use vstd::string::*;

use crate::config::backend::Backend;
use crate::config::model::{ModelConfig, WeightsFormat};
use crate::config::preset::BinaryPreset;
use crate::order::{law_sorted_by, sorted_by};
use crate::orchestrator::allocation::{
    allocatable_sum, capped_sum, chosen_gpus, device_names, eligible_gpus, lower_index, margin_mib,
    margins, more_allocatable, Caps,
};
use crate::orchestrator::placement::{
    after_reserve, drained, freer, lemma_order_is_positions, least, positions, probe_margin_mib,
    probe_margins, targets_of, with_used,
};
use crate::orchestrator::placement_laws::device_name;
use crate::orchestrator::search::{
    backend_pool, backend_probes, first_open_target, placed_by_estimate, probe_of, probes_of,
    PlaceOutcome,
};
use crate::orchestrator::state_laws::lemma_filter_member;
use crate::text::{decimal, join};
use crate::vram::tracker::GpuInfo;

verus! {

broadcast use vstd::string::group_string_axioms;

// ----- promised memory -----

proof fn lemma_drained_in_turn(gpus: Seq<GpuInfo>, at: Seq<usize>, reserved: int, a: int, b: int)
    requires
        reserved >= 0,
        at.no_duplicates(),
        forall|j: int| 0 <= j < at.len() ==> (#[trigger] at[j]) < gpus.len(),
    ensures
        drained(gpus, at, reserved).len() == gpus.len(),
        reserved == 0 ==> drained(gpus, at, reserved) == gpus,
        forall|i: int|
            0 <= i < gpus.len() && !at.contains(i as usize) && i <= usize::MAX
                ==> drained(gpus, at, reserved)[i] == #[trigger] gpus[i],
        0 <= a < b < at.len() && drained(gpus, at, reserved)[at[b] as int].used_vram
            > gpus[at[b] as int].used_vram ==> drained(gpus, at, reserved)[at[a] as int].free()
            == 0,
    decreases at.len(),
{
    if at.len() > 0 {
        let i = at[0] as int;
        let take = least(gpus[i].free(), reserved);
        let next = gpus.update(i, with_used(gpus[i], take));
        let rest = at.drop_first();
        assert forall|x: int, y: int| 0 <= x < y < rest.len() implies rest[x] != rest[y] by {
            assert(at[x + 1] != at[y + 1]);
        }
        assert forall|j: int| 0 <= j < rest.len() implies (#[trigger] rest[j]) < next.len() by {
            assert(at[j + 1] < gpus.len());
        }
        lemma_drained_in_turn(next, rest, reserved - take, a - 1, b - 1);
        let after = drained(gpus, at, reserved);
        assert(after == drained(next, rest, reserved - take));
        if reserved == 0 {
            assert(with_used(gpus[i], 0) == gpus[i]);
            assert(next =~= gpus);
        }
        assert(!rest.contains(at[0])) by {
            if rest.contains(at[0]) {
                let k = choose|k: int| 0 <= k < rest.len() && rest[k] == at[0];
                assert(at[k + 1] == at[0]);
            }
        }
        assert forall|x: int|
            0 <= x < gpus.len() && !at.contains(x as usize) && x <= usize::MAX implies after[x]
            == #[trigger] gpus[x] by {
            if rest.contains(x as usize) {
                let k = choose|k: int| 0 <= k < rest.len() && rest[k] == x as usize;
                assert(at[k + 1] == x as usize);
            }
            assert(at.contains(at[0]));
            assert(next[x] == gpus[x]);
        }
        if 0 <= a < b < at.len() && after[at[b] as int].used_vram > gpus[at[b] as int].used_vram {
            assert(at[b] == rest[b - 1]);
            assert(at[b] != at[0]);
            assert(next[at[b] as int] == gpus[at[b] as int]);
            if a == 0 {
                assert(after[i] == next[i]);
                if take < gpus[i].free() {
                    assert(reserved - take == 0);
                    assert(after == next);
                }
            } else {
                assert(at[a] == rest[a - 1]);
            }
        }
    }
}

/// Promised memory is taken from the GPUs with most free memory: a GPU loses
/// none to a promise while one with more free memory has any left.
pub proof fn law_promises_are_taken_from_the_freest(
    gpus: Seq<GpuInfo>,
    reserved: int,
    i: int,
    j: int,
)
    requires
        reserved >= 0,
        gpus.len() <= usize::MAX,
        0 <= i < gpus.len(),
        0 <= j < gpus.len(),
        gpus[i].free() > gpus[j].free(),
        after_reserve(gpus, reserved)[j].used_vram > gpus[j].used_vram,
    ensures
        after_reserve(gpus, reserved)[i].free() == 0,
{
    broadcast use vstd::seq_lib::group_to_multiset_ensures;

    let p = positions(gpus.len());
    let leq = freer(gpus);
    let at = sorted_by(p, leq);
    lemma_order_is_positions(gpus);
    law_sorted_by(p, leq);
    assert(p[i] == i as usize && p[j] == j as usize);
    assert(p.contains(i as usize) && p.contains(j as usize));
    assert(p.to_multiset().count(i as usize) > 0 && p.to_multiset().count(j as usize) > 0);
    assert(at.contains(i as usize) && at.contains(j as usize));
    let a = choose|a: int| 0 <= a < at.len() && at[a] == i as usize;
    let b = choose|b: int| 0 <= b < at.len() && at[b] == j as usize;
    if b < a {
        assert(leq(at[b], at[a]));
    }
    assert(a < b);
    lemma_drained_in_turn(gpus, at, reserved, a, b);
}

// ----- margins -----

proof fn lemma_all_named(gpus: Seq<GpuInfo>, b: Backend)
    requires
        forall|i: int| 0 <= i < gpus.len() ==> device_name(#[trigger] gpus[i], b) is Some,
    ensures
        device_names(gpus, b).len() == gpus.len(),
        forall|i: int|
            0 <= i < gpus.len() ==> Some(#[trigger] device_names(gpus, b)[i]) == device_name(
                gpus[i],
                b,
            ),
    decreases gpus.len(),
{
    if gpus.len() > 0 {
        let front = gpus.drop_last();
        assert forall|i: int| 0 <= i < front.len() implies device_name(
            #[trigger] front[i],
            b,
        ) is Some by {
            assert(front[i] == gpus[i]);
        }
        lemma_all_named(front, b);
        assert(device_name(gpus[gpus.len() - 1], b) is Some);
        assert(gpus.last().device_for(b) == device_name(gpus.last(), b));
        assert forall|i: int| 0 <= i < gpus.len() implies Some(#[trigger] device_names(gpus, b)[i])
            == device_name(gpus[i], b) by {
            if i < front.len() {
                assert(device_names(gpus, b)[i] == device_names(front, b)[i]);
                assert(front[i] == gpus[i]);
            }
        }
    }
}

proof fn lemma_probe_at(
    best: Seq<GpuInfo>,
    n: int,
    b: Backend,
    original: Seq<GpuInfo>,
    caps: Caps,
    k: int,
) -> (m: int)
    requires
        0 <= n <= best.len(),
        0 <= k < probes_of(best, n, b, original, caps).len(),
    ensures
        1 <= m <= n,
        probes_of(best, n, b, original, caps)[k] == probe_of(best, m, b, original, caps),
    decreases n,
{
    let front = probes_of(best, n - 1, b, original, caps);
    if k < front.len() {
        let m = lemma_probe_at(best, n - 1, b, original, caps, k);
        assert(probes_of(best, n, b, original, caps)[k] == front[k]);
        m
    } else {
        n
    }
}

/// The margins of a probe stand in the order of its devices, each for its own
/// device, and the devices stand in the order of their numbers.
pub proof fn law_margins_belong_to_their_devices(
    adjusted: Seq<GpuInfo>,
    b: Backend,
    original: Seq<GpuInfo>,
    caps: Caps,
    k: int,
) -> (r: (Seq<GpuInfo>, Seq<Seq<char>>, Seq<Seq<char>>))
    requires
        0 <= k < backend_probes(adjusted, b, original, caps).len(),
        forall|i: int|
            0 <= i < adjusted.len() ==> device_name(#[trigger] adjusted[i], b) is Some,
    ensures
        ({
            let probe = backend_probes(adjusted, b, original, caps)[k];
            let (chosen, names, left) = r;
            &&& probe.device == join(names, seq![','])
            &&& probe.fit_target == join(left, seq![','])
            &&& probe.gpus_used == chosen.len()
            &&& probe.free == capped_sum(allocatable_sum(chosen, caps))
            &&& names.len() == chosen.len() && left.len() == chosen.len()
            &&& forall|i: int|
                0 <= i < chosen.len() ==> {
                    &&& adjusted.contains(#[trigger] chosen[i])
                    &&& Some(names[i]) == device_name(chosen[i], b)
                    &&& left[i] == decimal(probe_margin_mib(chosen[i], original, caps) as nat)
                }
            &&& forall|i: int, j: int|
                0 <= i < j < chosen.len() ==> (#[trigger] chosen[i]).index_for(b)->0 <= (
                #[trigger] chosen[j]).index_for(b)->0
        }),
{
    broadcast use vstd::seq_lib::group_to_multiset_ensures;

    let pool = backend_pool(adjusted, b);
    let best = sorted_by(pool, more_allocatable(caps));
    law_sorted_by(pool, more_allocatable(caps));
    let n = lemma_probe_at(best, best.len() as int, b, original, caps, k);
    let some = best.take(n);
    let chosen = sorted_by(some, lower_index(b));
    law_sorted_by(some, lower_index(b));
    assert forall|i: int| 0 <= i < chosen.len() implies adjusted.contains(#[trigger] chosen[i])
        && device_name(chosen[i], b) is Some by {
        let x = chosen[i];
        assert(chosen.contains(x));
        assert(chosen.to_multiset().count(x) > 0);
        assert(some.contains(x));
        let j = choose|j: int| 0 <= j < some.len() && some[j] == x;
        assert(best[j] == x);
        assert(best.contains(x));
        assert(best.to_multiset().count(x) > 0);
        assert(pool.contains(x));
        crate::orchestrator::placement_laws::law_pool_is_every_tagged_gpu(adjusted, b, x);
        let m = choose|m: int| 0 <= m < adjusted.len() && adjusted[m] == x;
        assert(device_name(adjusted[m], b) is Some);
    }
    lemma_all_named(chosen, b);
    assert forall|i: int, j: int| 0 <= i < j < chosen.len() implies (
    #[trigger] chosen[i]).index_for(b)->0 <= (#[trigger] chosen[j]).index_for(b)->0 by {
        assert(lower_index(b)(chosen[i], chosen[j]));
        assert(device_name(chosen[i], b) is Some && device_name(chosen[j], b) is Some);
    }
    (chosen, device_names(chosen, b), probe_margins(chosen, original, caps))
}

/// A placement by estimate leaves the margin of the cap free, up to a mebibyte.
pub proof fn law_an_estimate_leaves_the_margin(g: GpuInfo, caps: Caps)
    requires
        g.total_vram * 100 <= u64::MAX,
    ensures
        ({
            let set = if g.display_attached {
                caps.display
            } else {
                caps.gpu
            };
            let cap = if set < 1 {
                1
            } else if set > 100 {
                100
            } else {
                set
            };
            let left = g.total_vram * (100 - cap) / 100;
            &&& margin_mib(g, caps) * 1048576 <= left
            &&& left < (margin_mib(g, caps) + 1) * 1048576
        }),
{
    let cap = crate::vram::tracker::clamp_pct(g.cap(caps.gpu, caps.display));
    let left = g.total_vram * (100 - cap);
    assert(left <= g.total_vram * 100) by (nonlinear_arith)
        requires
            left == g.total_vram * (100 - cap),
            1 <= cap <= 100,
            g.total_vram >= 0,
    ;
}

// ----- backends and estimates -----

/// A model runs on the backends of its preset, and on Vulkan where it has no
/// preset, where the preset is not known, and where it tells nothing.
pub proof fn law_a_model_runs_on_the_backends_of_its_preset(
    m: &ModelConfig,
    presets: Map<Seq<char>, BinaryPreset>,
)
    ensures
        m.binary_preset is None ==> targets_of(m, presets) == seq![Backend::Vulkan],
        m.binary_preset is Some && !presets.dom().contains((m.binary_preset->0)@) ==> targets_of(
            m,
            presets,
        ) == seq![Backend::Vulkan],
        m.binary_preset is Some && presets.dom().contains((m.binary_preset->0)@) ==> {
            let p = presets[(m.binary_preset->0)@];
            &&& p.targets@.len() > 0 ==> targets_of(m, presets) == p.targets@
            &&& p.targets_or_guess().len() > 0 ==> targets_of(m, presets) == p.targets_or_guess()
            &&& p.targets_or_guess().len() == 0 ==> targets_of(m, presets) == seq![Backend::Vulkan]
        },
{
}

proof fn lemma_first_open(adjusted: Seq<GpuInfo>, targets: Seq<Backend>, from: int)
    requires
        0 <= from <= targets.len(),
    ensures
        match first_open_target(adjusted, targets, from) {
            Some(i) => {
                &&& from <= i < targets.len()
                &&& eligible_gpus(backend_pool(adjusted, targets[i]), targets[i]).len() > 0
                &&& forall|j: int|
                    from <= j < i ==> eligible_gpus(
                        backend_pool(adjusted, #[trigger] targets[j]),
                        targets[j],
                    ).len() == 0
            },
            None => forall|j: int|
                from <= j < targets.len() ==> eligible_gpus(
                    backend_pool(adjusted, #[trigger] targets[j]),
                    targets[j],
                ).len() == 0,
        },
    decreases targets.len() - from,
{
    if from < targets.len() {
        lemma_first_open(adjusted, targets, from + 1);
    }
}

/// A GGUF model without devices that is placed by estimate goes to the first of
/// its backends that drives a GPU with free memory, and is refused only where
/// there is none.
pub proof fn law_the_first_open_backend_is_taken(
    m: ModelConfig,
    after: ModelConfig,
    targets: Seq<Backend>,
    gpus: Seq<GpuInfo>,
    reserved: int,
    caps: Caps,
    r: PlaceOutcome,
    t: int,
    g: GpuInfo,
)
    requires
        m.weights_format == WeightsFormat::Gguf,
        m.device is None,
        placed_by_estimate(m, after, targets, gpus, reserved, caps, r),
        0 <= t < targets.len(),
        after_reserve(gpus, reserved).contains(g),
        !g.integrated,
        g.tags.has(targets[t]),
        device_name(g, targets[t]) is Some,
        g.used_vram < g.total_vram,
    ensures
        r matches PlaceOutcome::Placed { backend, gpus_used, .. } && exists|i: int|
            0 <= i <= t && #[trigger] targets[i] == backend,
        after.device is Some,
        after.fit_target is Some,
        after.tensor_split is None && after.n_gpu_layers is None && after.override_tensor is None
            && after.n_cpu_moe is None,
        after.model_path == m.model_path && after.context == m.context && after.estimated_vram
            == m.estimated_vram,
{
    let adjusted = after_reserve(gpus, reserved);
    let b = targets[t];
    lemma_first_open(adjusted, targets, 0);
    let pool = backend_pool(adjusted, b);
    crate::orchestrator::placement_laws::law_pool_is_every_tagged_gpu(adjusted, b, g);
    lemma_filter_member(
        pool,
        |x: GpuInfo| crate::orchestrator::allocation::is_eligible(x, b),
        g,
    );
    assert(eligible_gpus(pool, b).contains(g));
    assert(eligible_gpus(backend_pool(adjusted, targets[t]), targets[t]).len() > 0);
}

/// The devices of a placement by estimate and their margins are those of the
/// same GPUs, in the order of their numbers.
pub proof fn law_estimated_margins_belong_to_their_devices(
    pool: Seq<GpuInfo>,
    b: Backend,
    needed: int,
    caps: Caps,
    i: int,
    j: int,
)
    requires
        0 <= i < j < chosen_gpus(pool, b, needed, caps).len(),
    ensures
        ({
            let chosen = chosen_gpus(pool, b, needed, caps);
            &&& device_names(chosen, b).len() == chosen.len()
            &&& margins(chosen, caps).len() == chosen.len()
            &&& Some(device_names(chosen, b)[i]) == device_name(chosen[i], b)
            &&& margins(chosen, caps)[i] == decimal(margin_mib(chosen[i], caps) as nat)
            &&& pool.contains(chosen[i])
            &&& chosen[i].index_for(b) is Some && chosen[j].index_for(b) is Some
            &&& chosen[i].index_for(b)->0 <= chosen[j].index_for(b)->0
        }),
{
    broadcast use vstd::seq_lib::group_to_multiset_ensures;

    let eligible = eligible_gpus(pool, b);
    let best = sorted_by(eligible, more_allocatable(caps));
    law_sorted_by(eligible, more_allocatable(caps));
    let chosen = chosen_gpus(pool, b, needed, caps);
    let some = if needed > 0 && allocatable_sum(best, caps) >= needed {
        best.take(crate::orchestrator::allocation::cover_len(best, needed, caps, 1))
    } else {
        eligible
    };
    if needed > 0 && allocatable_sum(best, caps) >= needed {
        assert(best.len() > 0);
        lemma_cover(best, needed, caps, 1);
    }
    law_sorted_by(some, lower_index(b));
    assert forall|x: int| 0 <= x < chosen.len() implies pool.contains(#[trigger] chosen[x])
        && device_name(chosen[x], b) is Some by {
        let y = chosen[x];
        assert(chosen.contains(y));
        assert(chosen.to_multiset().count(y) > 0);
        assert(some.contains(y));
        let z = choose|z: int| 0 <= z < some.len() && some[z] == y;
        if needed > 0 && allocatable_sum(best, caps) >= needed {
            assert(best[z] == y);
            assert(best.contains(y));
            assert(best.to_multiset().count(y) > 0);
        }
        assert(eligible.contains(y));
        lemma_filter_member(
            pool,
            |g: GpuInfo| crate::orchestrator::allocation::is_eligible(g, b),
            y,
        );
    }
    lemma_all_named(chosen, b);
    assert(lower_index(b)(chosen[i], chosen[j]));
    assert(pool.contains(chosen[i]) && pool.contains(chosen[j]));
}

proof fn lemma_cover(best: Seq<GpuInfo>, needed: int, caps: Caps, k: int)
    requires
        needed > 0,
        allocatable_sum(best, caps) >= needed,
        0 <= k <= best.len(),
    ensures
        0 <= crate::orchestrator::allocation::cover_len(best, needed, caps, k) <= best.len(),
    decreases best.len() - k,
{
    if k < best.len() && allocatable_sum(best.take(k), caps) < needed {
        lemma_cover(best, needed, caps, k + 1);
    }
}

} // verus!
