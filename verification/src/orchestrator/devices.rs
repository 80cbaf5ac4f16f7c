//! Device names and the GPUs that they stand for.
use vstd::prelude::*;
use vstd::string::*;

use crate::config::model::ModelConfig;
use crate::order::{sort_stable, sorted_by};
use crate::text::{
    after_prefix, contains_text, has_infix, join, join_texts, lower, option_text,
    same_ignoring_case, same_text_ignoring_case, split_on, split_text, strip_prefix_text, texts,
    to_lower, trim, trim_text,
};
use crate::vram::tracker::GpuInfo;

verus! {

broadcast use vstd::string::group_string_axioms;

// ----- matching -----

/// Whether an optional name is the given one, up to case.
pub open spec fn names(a: Option<String>, d: Seq<char>) -> bool {
    a is Some && same_ignoring_case(a->0@, d)
}

/// Whether a device name means the GPU: its Vulkan or CUDA name, or its PCI
/// address with or without `pci:` before it.
pub open spec fn means_gpu(g: GpuInfo, d: Seq<char>) -> bool {
    ||| names(g.vulkan_device, d)
    ||| names(g.cuda_device, d)
    ||| g.pci_bus_id is Some && (same_ignoring_case(g.pci_bus_id->0@, d) || same_ignoring_case(
        "pci:"@ + g.pci_bus_id->0@,
        d,
    ))
}

/// Whether an optional name is the given one, up to case.
fn name_is(a: &Option<String>, d: &str) -> (r: bool)
    ensures
        r == names(*a, d@),
{
    match a {
        Some(n) => same_text_ignoring_case(n.as_str(), d),
        None => false,
    }
}

/// Whether a device name means the GPU.
pub fn gpu_matches_device(g: &GpuInfo, device: &str) -> (r: bool)
    ensures
        r == means_gpu(*g, device@),
{
    if name_is(&g.vulkan_device, device) || name_is(&g.cuda_device, device) {
        return true;
    }
    match &g.pci_bus_id {
        Some(pci) => {
            let mut long = "pci:".to_owned();
            long.append(pci.as_str());
            same_text_ignoring_case(pci.as_str(), device) || same_text_ignoring_case(
                long.as_str(),
                device,
            )
        },
        None => false,
    }
}

/// The first GPU that a device name means.
pub open spec fn first_match(gpus: Seq<GpuInfo>, d: Seq<char>) -> Option<GpuInfo>
    decreases gpus.len(),
{
    if gpus.len() == 0 {
        None
    } else if means_gpu(gpus[0], d) {
        Some(gpus[0])
    } else {
        first_match(gpus.drop_first(), d)
    }
}

/// The first GPU that a device name means.
fn find_gpu<'a>(gpus: &'a [GpuInfo], device: &str) -> (r: Option<&'a GpuInfo>)
    ensures
        match r {
            Some(g) => first_match(gpus@, device@) == Some(*g),
            None => first_match(gpus@, device@) is None,
        },
{
    let mut i: usize = 0;
    assert(gpus@.subrange(0, gpus@.len() as int) =~= gpus@);
    while i < gpus.len()
        invariant
            i <= gpus@.len(),
            first_match(gpus@, device@) == first_match(
                gpus@.subrange(i as int, gpus@.len() as int),
                device@,
            ),
        decreases gpus@.len() - i,
    {
        let ghost rest = gpus@.subrange(i as int, gpus@.len() as int);
        assert(rest[0] == gpus@[i as int]);
        assert(rest.drop_first() =~= gpus@.subrange(i + 1, gpus@.len() as int));
        if gpu_matches_device(&gpus[i], device) {
            return Some(&gpus[i]);
        }
        i += 1;
    }
    None
}

/// The name by which llama.cpp knows a GPU.
pub open spec fn llama_name(g: GpuInfo) -> Option<Seq<char>> {
    match g.vulkan_device {
        Some(v) => Some(v@),
        None => option_text(g.cuda_device),
    }
}

/// The name of the first GPU that is meant and has a name.
pub open spec fn first_llama_name(gpus: Seq<GpuInfo>, d: Seq<char>) -> Option<Seq<char>>
    decreases gpus.len(),
{
    if gpus.len() == 0 {
        None
    } else if means_gpu(gpus[0], d) && llama_name(gpus[0]) is Some {
        llama_name(gpus[0])
    } else {
        first_llama_name(gpus.drop_first(), d)
    }
}

/// A device name without `pci:` before it.
pub open spec fn without_pci(d: Seq<char>) -> Seq<char> {
    match after_prefix(d, "pci:"@) {
        Some(r) => r,
        None => d,
    }
}

/// The name by which llama.cpp knows the device.
pub fn resolve_llama_device(device: &str, gpus: &[GpuInfo]) -> (r: Option<String>)
    ensures
        option_text(r) == first_llama_name(gpus@, without_pci(device@)),
{
    let pci = match strip_prefix_text(device, "pci:") {
        Some(p) => p,
        None => device.to_owned(),
    };
    let mut i: usize = 0;
    assert(gpus@.subrange(0, gpus@.len() as int) =~= gpus@);
    while i < gpus.len()
        invariant
            i <= gpus@.len(),
            pci@ == without_pci(device@),
            first_llama_name(gpus@, pci@) == first_llama_name(
                gpus@.subrange(i as int, gpus@.len() as int),
                pci@,
            ),
        decreases gpus@.len() - i,
    {
        let ghost rest = gpus@.subrange(i as int, gpus@.len() as int);
        assert(rest[0] == gpus@[i as int]);
        assert(rest.drop_first() =~= gpus@.subrange(i + 1, gpus@.len() as int));
        if gpu_matches_device(&gpus[i], pci.as_str()) {
            match &gpus[i].vulkan_device {
                Some(v) => {
                    return Some(v.clone());
                },
                None => match &gpus[i].cuda_device {
                    Some(c) => {
                        return Some(c.clone());
                    },
                    None => {},
                },
            }
        }
        i += 1;
    }
    None
}

/// The Vulkan number of the device.
pub open spec fn vulkan_index_of(gpus: Seq<GpuInfo>, d: Seq<char>) -> Option<usize> {
    match first_match(gpus, d) {
        Some(g) => g.vulkan_index,
        None => None,
    }
}

/// The Vulkan number of the device.
pub fn device_vulkan_index(device: &str, gpus: &[GpuInfo]) -> (r: Option<usize>)
    ensures
        r == vulkan_index_of(gpus@, device@),
{
    match find_gpu(gpus, device) {
        Some(g) => g.vulkan_index,
        None => None,
    }
}

// ----- device lists -----

/// The trimmed pieces that are not empty.
pub open spec fn nonblank(parts: Seq<Seq<char>>) -> Seq<Seq<char>> {
    parts.map_values(|p: Seq<char>| trim(p)).filter(|p: Seq<char>| p.len() > 0)
}

/// The devices that a list names. The word `none` names no device.
pub open spec fn devices_in(s: Seq<char>) -> Seq<Seq<char>> {
    if same_ignoring_case(trim(s), "none"@) {
        Seq::empty()
    } else {
        nonblank(split_on(s, ','))
    }
}

/// The devices that a list names. The word `none` names no device.
pub fn split_device_list(device: &str) -> (r: Vec<String>)
    ensures
        texts(r@) == devices_in(device@),
{
    let mut r: Vec<String> = Vec::new();
    assert(texts(r@) =~= Seq::empty());
    let word = trim_text(device);
    if same_text_ignoring_case(word.as_str(), "none") {
        return r;
    }
    let parts = split_text(device, ',');
    let ghost all = texts(parts@);
    let ghost p = |p: Seq<char>| p.len() > 0;
    let ghost t = |p: Seq<char>| trim(p);
    let mut i: usize = 0;
    proof {
        reveal(Seq::filter);
        assert(all.take(0).map_values(t).filter(p) =~= Seq::empty());
    }
    while i < parts.len()
        invariant
            i <= parts@.len(),
            all == texts(parts@),
            p == (|p: Seq<char>| p.len() > 0),
            t == (|p: Seq<char>| trim(p)),
            texts(r@) == all.take(i as int).map_values(t).filter(p),
        decreases parts@.len() - i,
    {
        let part = trim_text(parts[i].as_str());
        let ghost pv = part@;
        let ghost before = r@;
        proof {
            reveal(Seq::filter);
            assert(all.take(i + 1).map_values(t).drop_last() =~= all.take(i as int).map_values(t));
            assert(all.take(i + 1).map_values(t).last() == pv);
        }
        if part.as_str().is_empty() {
        } else {
            r.push(part);
            assert(texts(r@) =~= texts(before).push(pv));
        }
        i += 1;
    }
    assert(all.take(i as int) =~= all);
    r
}

/// The llama.cpp names of the devices; unknown ones stay as they are.
pub open spec fn resolved(devices: Seq<Seq<char>>, gpus: Seq<GpuInfo>) -> Seq<Seq<char>> {
    devices.map_values(
        |d: Seq<char>|
            match first_llama_name(gpus, without_pci(d)) {
                Some(n) => n,
                None => d,
            },
    )
}

/// Where a device stands in the order of a list.
pub open spec fn list_rank(gpus: Seq<GpuInfo>, d: Seq<char>) -> int {
    match vulkan_index_of(gpus, d) {
        Some(i) => i as int,
        None => usize::MAX as int,
    }
}

/// Lower Vulkan numbers come first, devices without one last.
pub open spec fn lower_rank(gpus: Seq<GpuInfo>) -> spec_fn(String, String) -> bool {
    |a: String, b: String| list_rank(gpus, a@) <= list_rank(gpus, b@)
}

/// The order of `lower_rank` on texts.
pub open spec fn lower_text_rank(gpus: Seq<GpuInfo>) -> spec_fn(Seq<char>, Seq<char>) -> bool {
    |a: Seq<char>, b: Seq<char>| list_rank(gpus, a) <= list_rank(gpus, b)
}

/// The list without items that repeat their neighbour up to case.
pub open spec fn without_repeats(s: Seq<Seq<char>>) -> Seq<Seq<char>>
    decreases s.len(),
{
    if s.len() == 0 {
        s
    } else {
        let front = without_repeats(s.drop_last());
        if front.len() > 0 && same_ignoring_case(s.last(), front.last()) {
            front
        } else {
            front.push(s.last())
        }
    }
}

/// The device list that llama.cpp is given for a configured one.
pub open spec fn normalized(device: Option<Seq<char>>, gpus: Seq<GpuInfo>) -> Option<Seq<char>> {
    match device {
        None => None,
        Some(d) => if same_ignoring_case(trim(d), "none"@) {
            Some("none"@)
        } else if devices_in(d).len() == 0 {
            None
        } else {
            Some(
                join(
                    without_repeats(
                        sorted_by(resolved(devices_in(d), gpus), lower_text_rank(gpus)),
                    ),
                    seq![','],
                ),
            )
        },
    }
}

fn rank_of_name(device: &str, gpus: &[GpuInfo]) -> (r: usize)
    ensures
        r == list_rank(gpus@, device@),
{
    match device_vulkan_index(device, gpus) {
        Some(i) => i,
        None => usize::MAX,
    }
}

proof fn lemma_insert_texts(s: Seq<String>, x: String, gpus: Seq<GpuInfo>)
    ensures
        texts(crate::order::insert_ordered(s, x, lower_rank(gpus)))
            == crate::order::insert_ordered(texts(s), x@, lower_text_rank(gpus)),
    decreases s.len(),
{
    if s.len() == 0 || lower_rank(gpus)(s.last(), x) {
        assert(texts(s.push(x)) =~= texts(s).push(x@));
    } else {
        lemma_insert_texts(s.drop_last(), x, gpus);
        assert(texts(s).drop_last() =~= texts(s.drop_last()));
        let t = crate::order::insert_ordered(s.drop_last(), x, lower_rank(gpus));
        assert(texts(t.push(s.last())) =~= texts(t).push(s.last()@));
    }
}

proof fn lemma_sorted_texts(s: Seq<String>, gpus: Seq<GpuInfo>)
    ensures
        texts(sorted_by(s, lower_rank(gpus))) == sorted_by(texts(s), lower_text_rank(gpus)),
    decreases s.len(),
{
    if s.len() == 0 {
        assert(texts(s) =~= Seq::empty());
    } else {
        lemma_sorted_texts(s.drop_last(), gpus);
        assert(texts(s).drop_last() =~= texts(s.drop_last()));
        lemma_insert_texts(sorted_by(s.drop_last(), lower_rank(gpus)), s.last(), gpus);
    }
}

/// Rewrites the configured device list into llama.cpp's own names, in Vulkan
/// order and without repetitions.
pub fn normalize_model_device_for_llama(model: &mut ModelConfig, gpus: &[GpuInfo])
    ensures
        option_text(final(model).device) == normalized(option_text(old(model).device), gpus@),
        *final(model) == (ModelConfig { device: final(model).device, ..*old(model) }),
{
    let device = match &model.device {
        Some(d) => d.clone(),
        None => {
            return;
        },
    };
    let word = trim_text(device.as_str());
    if same_text_ignoring_case(word.as_str(), "none") {
        model.device = Some("none".to_owned());
        return;
    }
    let list = split_device_list(device.as_str());
    let ghost lv = texts(list@);
    assert(lv.len() == list@.len());
    if list.len() == 0 {
        model.device = None;
        return;
    }
    let mut mapped: Vec<String> = Vec::new();
    let mut i: usize = 0;
    assert(texts(mapped@) =~= resolved(lv.take(0), gpus@));
    while i < list.len()
        invariant
            i <= list@.len(),
            lv == texts(list@),
            texts(mapped@) == resolved(lv.take(i as int), gpus@),
        decreases list@.len() - i,
    {
        let name = match resolve_llama_device(list[i].as_str(), gpus) {
            Some(n) => n,
            None => list[i].clone(),
        };
        let ghost nv = name@;
        let ghost before = mapped@;
        mapped.push(name);
        assert(texts(mapped@) =~= texts(before).push(nv));
        assert(resolved(lv.take(i + 1), gpus@) =~= resolved(lv.take(i as int), gpus@).push(nv));
        i += 1;
    }
    assert(lv.take(i as int) =~= lv);
    let ghost mv = mapped@;
    let le = |a: &String, b: &String| -> (c: bool)
        ensures
            c == lower_rank(gpus@)(*a, *b),
        {
            let x = rank_of_name(a.as_str(), gpus);
            let y = rank_of_name(b.as_str(), gpus);
            x <= y
        };
    let sorted = sort_stable(mapped, le, Ghost(lower_rank(gpus@)));
    proof {
        lemma_sorted_texts(mv, gpus@);
    }
    let ghost sv = texts(sorted@);
    let mut kept: Vec<String> = Vec::new();
    let mut i: usize = 0;
    assert(texts(kept@) =~= without_repeats(sv.take(0)));
    while i < sorted.len()
        invariant
            i <= sorted@.len(),
            sv == texts(sorted@),
            texts(kept@) == without_repeats(sv.take(i as int)),
        decreases sorted@.len() - i,
    {
        assert(sv.take(i + 1).drop_last() =~= sv.take(i as int));
        assert(sv.take(i + 1).last() == sorted@[i as int]@);
        let ghost before = kept@;
        assert(texts(kept@).len() == kept@.len());
        let repeats = if kept.len() > 0 {
            assert(texts(kept@).last() == kept@[kept@.len() - 1]@);
            same_text_ignoring_case(sorted[i].as_str(), kept[kept.len() - 1].as_str())
        } else {
            false
        };
        if !repeats {
            kept.push(sorted[i].clone());
            assert(texts(kept@) =~= texts(before).push(sorted@[i as int]@));
        }
        i += 1;
    }
    assert(sv.take(i as int) =~= sv);
    proof {
        reveal_strlit(",");
        assert(","@ =~= seq![',']);
    }
    model.device = Some(join_texts(&kept, ","));
}

// ----- visible GPUs -----

/// Whether a model runs on CUDA, as its preset or its binary suggests.
pub open spec fn on_cuda(m: &ModelConfig) -> bool {
    ||| m.binary_preset is Some && has_infix(lower(m.binary_preset->0@), "cuda"@)
    ||| has_infix(lower(m.binary@), "cuda"@)
}

/// Whether a GPU belongs to the pool for automatic placement.
pub open spec fn in_auto_pool(m: &ModelConfig, g: GpuInfo) -> bool {
    !g.integrated && if on_cuda(m) {
        g.cuda_device is Some
    } else {
        g.vulkan_index is Some
    }
}

/// The GPUs that the devices mean, in the order of the list.
pub open spec fn meant_gpus(devices: Seq<Seq<char>>, gpus: Seq<GpuInfo>) -> Seq<GpuInfo>
    decreases devices.len(),
{
    if devices.len() == 0 {
        Seq::empty()
    } else {
        match first_match(gpus, devices.last()) {
            Some(g) => meant_gpus(devices.drop_last(), gpus).push(g),
            None => meant_gpus(devices.drop_last(), gpus),
        }
    }
}

/// The GPUs on which a model may run: those of its device list, or without one
/// the pool for automatic placement.
pub open spec fn visible_gpus(m: &ModelConfig, gpus: Seq<GpuInfo>) -> Seq<GpuInfo> {
    match m.device {
        Some(d) => meant_gpus(devices_in(d@), gpus),
        None => gpus.filter(|g: GpuInfo| in_auto_pool(m, g)),
    }
}

/// Whether a model runs on CUDA, as its preset or its binary suggests.
pub fn model_uses_cuda_backend(m: &ModelConfig) -> (r: bool)
    ensures
        r == on_cuda(m),
{
    let by_preset = match &m.binary_preset {
        Some(p) => {
            let l = to_lower(p.as_str());
            contains_text(l.as_str(), "cuda")
        },
        None => false,
    };
    if by_preset {
        return true;
    }
    let l = to_lower(m.binary.as_str());
    contains_text(l.as_str(), "cuda")
}

/// The GPUs on which a model may run.
pub fn model_visible_gpus(m: &ModelConfig, gpus: &[GpuInfo]) -> (r: Vec<GpuInfo>)
    ensures
        r@ == visible_gpus(m, gpus@),
{
    let mut r: Vec<GpuInfo> = Vec::new();
    match &m.device {
        Some(d) => {
            let devices = split_device_list(d.as_str());
            let ghost dv = texts(devices@);
            let mut i: usize = 0;
            while i < devices.len()
                invariant
                    i <= devices@.len(),
                    dv == texts(devices@),
                    r@ == meant_gpus(dv.take(i as int), gpus@),
                decreases devices@.len() - i,
            {
                assert(dv.take(i + 1).drop_last() =~= dv.take(i as int));
                assert(dv.take(i + 1).last() == devices@[i as int]@);
                match find_gpu(gpus, devices[i].as_str()) {
                    Some(g) => {
                        r.push(g.clone());
                    },
                    None => {},
                }
                i += 1;
            }
            assert(dv.take(i as int) =~= dv);
            r
        },
        None => {
            let cuda = model_uses_cuda_backend(m);
            let ghost p = |g: GpuInfo| in_auto_pool(m, g);
            let mut i: usize = 0;
            while i < gpus.len()
                invariant
                    i <= gpus@.len(),
                    cuda == on_cuda(m),
                    p == (|g: GpuInfo| in_auto_pool(m, g)),
                    r@ == gpus@.take(i as int).filter(p),
                decreases gpus@.len() - i,
            {
                proof {
                    reveal(Seq::filter);
                    assert(gpus@.take(i + 1).drop_last() =~= gpus@.take(i as int));
                }
                let g = &gpus[i];
                let usable = if cuda {
                    g.cuda_device.is_some()
                } else {
                    g.vulkan_index.is_some()
                };
                if !g.integrated && usable {
                    r.push(g.clone());
                }
                i += 1;
            }
            assert(gpus@.take(i as int) =~= gpus@);
            r
        },
    }
}

} // verus!
