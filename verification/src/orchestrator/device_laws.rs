//! What holds of the devices that a model names, of the memory that a probe
//! reports, and of the models that give way.
use vstd::prelude::*;
use vstd::string::*;

use crate::config::model::ModelConfig;
use crate::order::{law_sorted_by, ordered, sorted_by};
use crate::orchestrator::devices::{
    devices_in, first_llama_name, first_match, list_rank, lower_text_rank, meant_gpus, means_gpu,
    normalized, on_cuda, resolved, visible_gpus, vulkan_index_of, without_pci,
    without_repeats,
};
use crate::orchestrator::engine::Orchestrator;
use crate::orchestrator::eviction::{
    candidates, law_highest_scores_are_stopped_first, names_hold, stopped_first, to_stop, Candidate,
};
use crate::orchestrator::state_laws::lemma_filter_member;
use crate::orchestrator::upkeep::one_or_more;
use crate::process::manager::InstanceInfo;
use crate::text::{has_infix, join, lower, split_on, trim};
use crate::vram::llama_fit::{names_cpu, with_sizing, LlamaFitSizing};
use crate::vram::tracker::GpuInfo;

verus! {

broadcast use vstd::string::group_string_axioms;

// ----- names of devices -----

/// A GPU goes by its Vulkan name, its CUDA name and its PCI address, the latter
/// also with `pci:` before it, in any case of letters; and by no other name.
pub proof fn law_names_of_a_gpu(g: GpuInfo, d: Seq<char>)
    ensures
        (g.vulkan_device matches Some(n) && lower(n@) == lower(d)) ==> means_gpu(g, d),
        (g.cuda_device matches Some(n) && lower(n@) == lower(d)) ==> means_gpu(g, d),
        (g.pci_bus_id matches Some(n) && (lower(n@) == lower(d) || lower("pci:"@ + n@) == lower(
            d,
        ))) ==> means_gpu(g, d),
        g.vulkan_device is None && g.cuda_device is None && g.pci_bus_id is None ==> !means_gpu(
            g,
            d,
        ),
        means_gpu(g, d) ==> {
            ||| g.vulkan_device is Some && lower((g.vulkan_device->0)@) == lower(d)
            ||| g.cuda_device is Some && lower((g.cuda_device->0)@) == lower(d)
            ||| g.pci_bus_id is Some && (lower((g.pci_bus_id->0)@) == lower(d) || lower(
                "pci:"@ + (g.pci_bus_id->0)@,
            ) == lower(d))
        },
{
}

/// A device name means a GPU where any goes by it: the first that does.
pub proof fn law_a_name_means_the_first_gpu(gpus: Seq<GpuInfo>, d: Seq<char>, i: int)
    requires
        0 <= i < gpus.len(),
        means_gpu(gpus[i], d),
        forall|j: int| 0 <= j < i ==> !means_gpu(#[trigger] gpus[j], d),
    ensures
        first_match(gpus, d) == Some(gpus[i]),
        vulkan_index_of(gpus, d) == gpus[i].vulkan_index,
    decreases gpus.len(),
{
    if i > 0 {
        let rest = gpus.drop_first();
        assert(rest[i - 1] == gpus[i]);
        assert(!means_gpu(gpus[0], d));
        assert forall|j: int| 0 <= j < i - 1 implies !means_gpu(#[trigger] rest[j], d) by {
            assert(rest[j] == gpus[j + 1]);
        }
        law_a_name_means_the_first_gpu(rest, d, i - 1);
    }
}

/// llama.cpp knows a GPU by its Vulkan name, and by its CUDA name where it has
/// no Vulkan name.
pub proof fn law_vulkan_names_come_first(gpus: Seq<GpuInfo>, d: Seq<char>, i: int)
    requires
        0 <= i < gpus.len(),
        means_gpu(gpus[i], d),
        gpus[i].vulkan_device is Some || gpus[i].cuda_device is Some,
        forall|j: int| 0 <= j < i ==> !means_gpu(#[trigger] gpus[j], d),
    ensures
        gpus[i].vulkan_device matches Some(v) ==> first_llama_name(gpus, d) == Some(v@),
        gpus[i].vulkan_device is None ==> first_llama_name(gpus, d) == Some(
            (gpus[i].cuda_device->0)@,
        ),
    decreases gpus.len(),
{
    if i > 0 {
        let rest = gpus.drop_first();
        assert(rest[i - 1] == gpus[i]);
        assert(!means_gpu(gpus[0], d));
        assert forall|j: int| 0 <= j < i - 1 implies !means_gpu(#[trigger] rest[j], d) by {
            assert(rest[j] == gpus[j + 1]);
        }
        law_vulkan_names_come_first(rest, d, i - 1);
    }
}

/// A device list names what stands between its commas, without the spaces round
/// it, and nothing else; the word `none` names nothing.
pub proof fn law_a_list_names_what_stands_between_commas(s: Seq<char>, x: Seq<char>)
    ensures
        lower(trim(s)) == lower("none"@) ==> devices_in(s).len() == 0,
        lower(trim(s)) != lower("none"@) ==> (devices_in(s).contains(x) <==> x.len() > 0 && exists|
            i: int,
        |
            0 <= i < split_on(s, ',').len() && trim(#[trigger] split_on(s, ',')[i]) == x),
{
    if lower(trim(s)) != lower("none"@) {
        let parts = split_on(s, ',');
        let t = parts.map_values(|p: Seq<char>| trim(p));
        lemma_filter_member(t, |p: Seq<char>| p.len() > 0, x);
        assert(devices_in(s) == t.filter(|p: Seq<char>| p.len() > 0));
        if t.contains(x) {
            let i = choose|i: int| 0 <= i < t.len() && t[i] == x;
            assert(trim(parts[i]) == x);
        }
        if exists|i: int| 0 <= i < parts.len() && trim(#[trigger] parts[i]) == x {
            let i = choose|i: int| 0 <= i < parts.len() && trim(#[trigger] parts[i]) == x;
            assert(t[i] == x);
        }
    }
}

proof fn lemma_without_repeats(s: Seq<Seq<char>>, leq: spec_fn(Seq<char>, Seq<char>) -> bool)
    requires
        ordered(s, leq),
    ensures
        forall|x: Seq<char>| #[trigger]
            without_repeats(s).contains(x) ==> s.contains(x),
        forall|x: Seq<char>| #[trigger]
            s.contains(x) ==> exists|k: int|
                0 <= k < without_repeats(s).len() && lower(#[trigger] without_repeats(s)[k])
                    == lower(x),
        ordered(without_repeats(s), leq),
        forall|k: int|
            0 < k < without_repeats(s).len() ==> lower(#[trigger] without_repeats(s)[k]) != lower(
                without_repeats(s)[k - 1],
            ),
    decreases s.len(),
{
    if s.len() > 0 {
        let t = s.drop_last();
        let front = without_repeats(t);
        let all = without_repeats(s);
        assert forall|i: int, j: int| 0 <= i < j < t.len() implies #[trigger] leq(t[i], t[j]) by {
            assert(leq(s[i], s[j]));
        }
        lemma_without_repeats(t, leq);
        assert forall|x: Seq<char>| #[trigger] all.contains(x) implies s.contains(x) by {
            let k = choose|k: int| 0 <= k < all.len() && all[k] == x;
            if k < front.len() {
                assert(front[k] == x);
                assert(front.contains(x));
                let j = choose|j: int| 0 <= j < t.len() && t[j] == x;
                assert(s[j] == x);
            } else {
                assert(s[s.len() - 1] == x);
            }
        }
        assert forall|x: Seq<char>| #[trigger] s.contains(x) implies exists|k: int|
            0 <= k < all.len() && lower(#[trigger] all[k]) == lower(x) by {
            let j = choose|j: int| 0 <= j < s.len() && s[j] == x;
            if j < t.len() {
                assert(t[j] == x);
                assert(t.contains(x));
                let k = choose|k: int|
                    0 <= k < front.len() && lower(#[trigger] front[k]) == lower(x);
                assert(all[k] == front[k]);
            } else {
                assert(lower(all[all.len() - 1]) == lower(x));
            }
        }
        assert forall|i: int, j: int| 0 <= i < j < all.len() implies #[trigger] leq(
            all[i],
            all[j],
        ) by {
            if j < front.len() {
                assert(leq(front[i], front[j]));
            } else {
                assert(front.contains(front[i]));
                let k = choose|k: int| 0 <= k < t.len() && t[k] == front[i];
                assert(leq(s[k], s[s.len() - 1]));
            }
        }
        assert forall|k: int| 0 < k < all.len() implies lower(#[trigger] all[k]) != lower(
            all[k - 1],
        ) by {
            if k < front.len() {
                assert(front[k] == all[k]);
            }
        }
    }
}

/// A configured list reaches llama.cpp whole: every device that it names stands
/// in it, under the name by which llama.cpp knows it or, where no GPU is meant,
/// as it was written; nothing else does. Lower Vulkan numbers come first, and no
/// name follows itself.
pub proof fn law_a_device_list_reaches_the_server(d: Seq<char>, gpus: Seq<GpuInfo>, i: int)
    requires
        lower(trim(d)) != lower("none"@),
        0 <= i < devices_in(d).len(),
    ensures
        exists|list: Seq<Seq<char>>|
            {
                &&& normalized(Some(d), gpus) == Some(#[trigger] join(list, seq![',']))
                &&& exists|k: int|
                    0 <= k < list.len() && lower(#[trigger] list[k]) == lower(
                        match first_llama_name(gpus, without_pci(devices_in(d)[i])) {
                            Some(n) => n,
                            None => devices_in(d)[i],
                        },
                    )
                &&& forall|k: int|
                    0 <= k < list.len() ==> resolved(devices_in(d), gpus).contains(
                        #[trigger] list[k],
                    )
                &&& forall|a: int, b: int|
                    0 <= a < b < list.len() ==> #[trigger] list_rank(gpus, list[a])
                        <= #[trigger] list_rank(gpus, list[b])
                &&& forall|k: int|
                    0 < k < list.len() ==> lower(#[trigger] list[k]) != lower(list[k - 1])
            },
{
    broadcast use vstd::seq_lib::group_to_multiset_ensures;

    let all = resolved(devices_in(d), gpus);
    let leq = lower_text_rank(gpus);
    law_sorted_by(all, leq);
    let s = sorted_by(all, leq);
    lemma_without_repeats(s, leq);
    let list = without_repeats(s);
    assert(normalized(Some(d), gpus) == Some(join(list, seq![','])));
    let x = all[i];
    assert(all.contains(x));
    assert(all.to_multiset().count(x) > 0);
    assert(s.to_multiset().count(x) > 0);
    assert(s.contains(x));
    assert forall|k: int| 0 <= k < list.len() implies all.contains(#[trigger] list[k]) by {
        assert(list.contains(list[k]));
        assert(s.contains(list[k]));
        assert(s.to_multiset().count(list[k]) > 0);
        assert(all.to_multiset().count(list[k]) > 0);
    }
    assert forall|a: int, b: int| 0 <= a < b < list.len() implies #[trigger] list_rank(
        gpus,
        list[a],
    ) <= #[trigger] list_rank(gpus, list[b]) by {
        assert(leq(list[a], list[b]));
    }
}

/// A device stands in a list by its Vulkan number, behind all others where it
/// has none.
pub proof fn law_devices_are_ranked_by_number(gpus: Seq<GpuInfo>, d: Seq<char>)
    ensures
        vulkan_index_of(gpus, d) matches Some(i) ==> list_rank(gpus, d) == i,
        vulkan_index_of(gpus, d) is None ==> list_rank(gpus, d) == usize::MAX,
        normalized(None, gpus) is None,
        lower(trim(d)) == lower("none"@) ==> normalized(Some(d), gpus) == Some("none"@),
{
}

// ----- visible GPUs -----

/// Without a device list a model sees every GPU with memory of its own that its
/// backend can drive, and no other.
pub proof fn law_a_model_sees_the_gpus_of_its_backend(
    m: &ModelConfig,
    gpus: Seq<GpuInfo>,
    g: GpuInfo,
)
    requires
        m.device is None,
    ensures
        visible_gpus(m, gpus).contains(g) <==> gpus.contains(g) && !g.integrated && (if on_cuda(m) {
            g.cuda_device is Some
        } else {
            g.vulkan_index is Some
        }),
        on_cuda(m) <==> (has_infix(lower(m.binary@), "cuda"@) || (m.binary_preset is Some
            && has_infix(lower((m.binary_preset->0)@), "cuda"@))),
{
    lemma_filter_member(
        gpus,
        |x: GpuInfo| crate::orchestrator::devices::in_auto_pool(m, x),
        g,
    );
}

/// With a device list a model sees the GPU that each name means, whatever else
/// holds of the GPU.
pub proof fn law_a_model_sees_the_gpus_that_it_names(
    devices: Seq<Seq<char>>,
    gpus: Seq<GpuInfo>,
    i: int,
)
    requires
        0 <= i < devices.len(),
    ensures
        first_match(gpus, devices[i]) matches Some(g) ==> meant_gpus(devices, gpus).contains(g),
        forall|m: &ModelConfig|
            #![trigger visible_gpus(m, gpus)]
            m.device is Some && devices_in((m.device->0)@) == devices ==> visible_gpus(m, gpus)
                == meant_gpus(devices, gpus),
    decreases devices.len(),
{
    if let Some(g) = first_match(gpus, devices[i]) {
        let front = meant_gpus(devices.drop_last(), gpus);
        let all = meant_gpus(devices, gpus);
        if i < devices.len() - 1 {
            law_a_model_sees_the_gpus_that_it_names(devices.drop_last(), gpus, i);
            assert(devices.drop_last()[i] == devices[i]);
            let k = choose|k: int| 0 <= k < front.len() && front[k] == g;
            assert(all[k] == g);
        } else {
            assert(all.last() == g);
        }
    }
}

// ----- what a probe reports -----

/// A model lies on GPUs wholly where no override sends a tensor to the CPU and
/// no layer of those that are known stays behind.
pub proof fn law_a_layer_left_behind_is_not_on_a_gpu(s: LlamaFitSizing, n_layers: u32)
    ensures
        (s.fitted.override_tensor matches Some(o) && names_cpu(o@)) ==> !s.fully_on_gpu(n_layers),
        (s.fitted.n_gpu_layers matches Some(n) && 0 <= n < n_layers) ==> !s.fully_on_gpu(n_layers),
        (s.fitted.override_tensor is None || !names_cpu((s.fitted.override_tensor->0)@)) && (
        n_layers == 0 || s.fitted.n_gpu_layers is None || s.fitted.n_gpu_layers->0 < 0
            || s.fitted.n_gpu_layers->0 >= n_layers) ==> s.fully_on_gpu(n_layers),
{
}

/// An override list sends tensors to the CPU where the last part of one of its
/// entries is the word for it, in any case of letters.
pub proof fn law_overrides_name_the_cpu(value: Seq<char>, i: int)
    requires
        0 <= i < split_on(value, ',').len(),
        split_on(split_on(value, ',')[i], '=').len() >= 2,
        lower(trim(split_on(split_on(value, ',')[i], '=').last())) == lower("cpu"@),
    ensures
        names_cpu(value),
{
    assert(crate::vram::llama_fit::entry_names_cpu(split_on(value, ',')[i]));
}

/// What a probe settled on is what the model runs with; what it left open stays
/// as it was or is left to the server.
pub proof fn law_a_probe_is_taken_over(m: ModelConfig, s: LlamaFitSizing)
    ensures
        ({
            let r = with_sizing(m, s);
            &&& s.fitted.context matches Some(c) ==> r.context == c
            &&& s.fitted.context is None ==> r.context == m.context
            &&& r.estimated_vram == s.device_vram
            &&& s.fitted.n_gpu_layers is Some && s.fitted.n_gpu_layers->0 >= 0 ==> r.n_gpu_layers is Some
                && r.n_gpu_layers->0 == s.fitted.n_gpu_layers->0
            &&& s.fitted.n_gpu_layers is None || s.fitted.n_gpu_layers->0 < 0
                ==> r.n_gpu_layers is None
            &&& r.tensor_split == s.fitted.tensor_split
            &&& r.override_tensor == s.fitted.override_tensor
            &&& r.fit_target is None
            &&& r == (ModelConfig {
                context: r.context,
                estimated_vram: r.estimated_vram,
                n_gpu_layers: r.n_gpu_layers,
                tensor_split: r.tensor_split,
                override_tensor: r.override_tensor,
                fit_target: r.fit_target,
                ..m
            })
        }),
{
}

// ----- giving way -----

/// Every model that runs, is idle and holds memory that is known may give way,
/// with that memory and its score.
pub proof fn law_every_idle_model_may_give_way(
    models: Seq<ModelConfig>,
    scores: Seq<u64>,
    idle: Seq<String>,
    n: int,
    i: int,
)
    requires
        0 <= i < n <= models.len(),
        models[i].state is Running,
        models[i].estimated_vram > 0,
        exists|k: int| 0 <= k < idle.len() && (#[trigger] idle[k])@ == models[i].id@,
    ensures
        candidates(models, scores, idle, n).contains(
            Candidate {
                id: models[i].id,
                estimated_vram: models[i].estimated_vram,
                score: scores[i],
            },
        ),
    decreases n,
{
    assert(names_hold(idle, models[i].id@));
    let x = Candidate {
        id: models[i].id,
        estimated_vram: models[i].estimated_vram,
        score: scores[i],
    };
    let front = candidates(models, scores, idle, n - 1);
    let all = candidates(models, scores, idle, n);
    if i < n - 1 {
        law_every_idle_model_may_give_way(models, scores, idle, n - 1, i);
        let k = choose|k: int| 0 <= k < front.len() && front[k] == x;
        assert(all[k] == x);
    } else {
        assert(all.last() == x);
    }
}

/// A model with a higher score gives way before one with a lower score, and a
/// model that is spared scores no higher than one that gives way.
pub proof fn law_higher_scores_give_way_first(
    models: Seq<ModelConfig>,
    scores: Seq<u64>,
    free: int,
    needed: int,
    idle: Seq<String>,
    a: int,
    b: int,
    spared: Candidate,
)
    requires
        0 <= a < b < to_stop(models, scores, free, needed, idle).len(),
    ensures
        ({
            let v = to_stop(models, scores, free, needed, idle);
            &&& v[a].score >= v[b].score
            &&& candidates(models, scores, idle, models.len() as int).contains(spared)
                && !v.contains(spared) ==> spared.score <= v[b].score
        }),
{
    broadcast use vstd::seq_lib::group_to_multiset_ensures;

    law_highest_scores_are_stopped_first(models, scores, free, needed, idle);
    let v = to_stop(models, scores, free, needed, idle);
    let all = candidates(models, scores, idle, models.len() as int);
    let leq = stopped_first();
    let s = sorted_by(all, leq);
    law_sorted_by(all, leq);
    assert(v[a] == s[a] && v[b] == s[b]);
    assert(leq(s[a], s[b]));
    if all.contains(spared) && !v.contains(spared) {
        assert(all.to_multiset().count(spared) > 0);
        assert(s.to_multiset().count(spared) > 0);
        assert(s.contains(spared));
        let k = choose|k: int| 0 <= k < s.len() && s[k] == spared;
        if k < v.len() {
            assert(v[k] == spared);
        }
        assert(leq(s[b], s[k]));
    }
}

// ----- upkeep -----

/// Every process of an instance that uses a GPU is recycled after a reset, and
/// no other.
pub proof fn law_a_reset_concerns_all_gpu_processes(o: &Orchestrator, pid: i32)
    ensures
        o.gpu_pids().contains(pid) <==> exists|i: int|
            0 <= i < o.process_manager.instances@.len() && (
            #[trigger] o.process_manager.instances@[i]).pid == pid
                && o.process_manager.instances@[i].uses_gpu,
{
    let s = o.process_manager.instances@;
    let p = |i: InstanceInfo| i.uses_gpu;
    let f = s.filter(p);
    let q = |i: InstanceInfo| i.pid;
    assert(o.gpu_pids() == f.map_values(q));
    if o.gpu_pids().contains(pid) {
        let k = choose|k: int| 0 <= k < o.gpu_pids().len() && o.gpu_pids()[k] == pid;
        lemma_filter_member(s, p, f[k]);
        assert(f.contains(f[k]));
        let i = choose|i: int| 0 <= i < s.len() && s[i] == f[k];
        assert(s[i].pid == pid && s[i].uses_gpu);
    }
    if exists|i: int| 0 <= i < s.len() && (#[trigger] s[i]).pid == pid && s[i].uses_gpu {
        let i = choose|i: int| 0 <= i < s.len() && (#[trigger] s[i]).pid == pid && s[i].uses_gpu;
        lemma_filter_member(s, p, s[i]);
        assert(s.contains(s[i]));
        let k = choose|k: int| 0 <= k < f.len() && f[k] == s[i];
        assert(o.gpu_pids()[k] == pid);
    }
}

/// No wait is shorter than a second and no process is recycled before it was
/// silent once; what is set beyond that holds as it is set.
pub proof fn law_waits_are_a_second_at_least(n: int)
    ensures
        one_or_more(n) >= 1,
        n >= 1 ==> one_or_more(n) == n,
{
}

} // verus!
