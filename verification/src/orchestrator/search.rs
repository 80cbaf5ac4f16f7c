//! The search for a placement. The library says which probe comes next and
//! what a run of answers amounts to; the caller runs the probes.
use vstd::prelude::*;
use vstd::string::*;

use crate::config::backend::Backend;
use crate::config::model::{ModelConfig, WeightsFormat};
use crate::orchestrator::allocation::{
    allocatable_sum, capped_sum, chosen_gpus, device_list, device_names, eligible_gpus,
    lower_index, margins, more_allocatable, plan_fit_placement, sort_by_allocatable,
    sort_by_index, total_allocatable, Caps,
};
use crate::orchestrator::devices::{model_visible_gpus, visible_gpus};
use crate::orchestrator::placement::{
    after_reserve, probe_margins, probe_target_list, subtract_reserved_from_gpus,
};
use crate::order::sorted_by;
use crate::text::{join, option_text};
use crate::vram::llama_fit::{
    apply_sizing_to_model, fitted_fully_on_gpu, with_sizing, LlamaFitSizing,
};
use crate::vram::tracker::{clone_gpus, GpuInfo};

verus! {

broadcast use vstd::string::group_string_axioms;

/// What came of an attempt to place a model.
#[derive(Debug)]
pub enum PlaceOutcome {
    /// The model has its device and fitted arguments. `free` is what the
    /// backend could still allocate.
    Placed { backend: Backend, gpus_used: usize, free: u64, fully_on_gpu: bool },
    /// A model that is not fitted has room.
    Fits,
    /// There is no room.
    DoesNotFit { free: u64 },
}

/// A set of devices to try.
#[derive(Debug)]
pub struct FitProbe {
    pub backend: Backend,
    pub device: String,
    pub fit_target: String,
    pub free: u64,
    pub gpus_used: usize,
}

/// The mathematical content of a `FitProbe`.
pub struct FitProbeView {
    pub backend: Backend,
    pub device: Seq<char>,
    pub fit_target: Seq<char>,
    pub free: int,
    pub gpus_used: nat,
}

impl View for FitProbe {
    type V = FitProbeView;

    open spec fn view(&self) -> FitProbeView {
        FitProbeView {
            backend: self.backend,
            device: self.device@,
            fit_target: self.fit_target@,
            free: self.free as int,
            gpus_used: self.gpus_used as nat,
        }
    }
}

impl Clone for FitProbe {
    fn clone(&self) -> (r: Self)
        ensures
            r == *self,
    {
        FitProbe {
            backend: self.backend,
            device: self.device.clone(),
            fit_target: self.fit_target.clone(),
            free: self.free,
            gpus_used: self.gpus_used,
        }
    }
}

/// A placement that leaves part of the model to the CPU.
#[derive(Debug)]
pub struct FitCandidate {
    pub backend: Backend,
    pub device: String,
    pub free: u64,
    pub gpus_used: usize,
    pub sizing: LlamaFitSizing,
}

/// Whether a candidate is preferred: more GPUs, then more GPU memory.
pub open spec fn spills_less(a_gpus: usize, a_vram: u64, b_gpus: usize, b_vram: u64) -> bool {
    a_gpus > b_gpus || (a_gpus == b_gpus && a_vram > b_vram)
}

/// Keeps the preferred one of two candidates; the earlier where neither is.
pub fn keep_best_spill_candidate(best: &mut Option<FitCandidate>, candidate: FitCandidate)
    ensures
        *final(best) == (match *old(best) {
            Some(c) => if spills_less(
                candidate.gpus_used,
                candidate.sizing.device_vram,
                c.gpus_used,
                c.sizing.device_vram,
            ) {
                Some(candidate)
            } else {
                Some(c)
            },
            None => Some(candidate),
        }),
{
    let replace = match &*best {
        Some(c) => candidate.gpus_used > c.gpus_used || (candidate.gpus_used == c.gpus_used
            && candidate.sizing.device_vram > c.sizing.device_vram),
        None => true,
    };
    if replace {
        *best = Some(candidate);
    }
}

/// Whether a further instance may be placed like this: only without spilling
/// to the CPU.
pub fn scale_out_accepts_placement(fully_on_gpu: bool) -> (r: bool)
    ensures
        r == fully_on_gpu,
{
    fully_on_gpu
}

// ----- which probes there are -----

/// The GPUs that a backend can drive and that are no integrated ones.
pub open spec fn backend_pool(gpus: Seq<GpuInfo>, b: Backend) -> Seq<GpuInfo> {
    gpus.filter(|g: GpuInfo| !g.integrated && g.tags.has(b))
}

/// The probe of the first `n` of the GPUs.
pub open spec fn probe_of(
    best: Seq<GpuInfo>,
    n: int,
    b: Backend,
    original: Seq<GpuInfo>,
    caps: Caps,
) -> FitProbeView {
    let chosen = sorted_by(best.take(n), lower_index(b));
    FitProbeView {
        backend: b,
        device: join(device_names(chosen, b), seq![',']),
        fit_target: join(probe_margins(chosen, original, caps), seq![',']),
        free: capped_sum(allocatable_sum(chosen, caps)),
        gpus_used: chosen.len(),
    }
}

/// The probes of one backend: one GPU, two, and so on up to `n`, without
/// those that name no device.
pub open spec fn probes_of(
    best: Seq<GpuInfo>,
    n: int,
    b: Backend,
    original: Seq<GpuInfo>,
    caps: Caps,
) -> Seq<FitProbeView>
    decreases n,
{
    if n <= 0 {
        Seq::empty()
    } else {
        let front = probes_of(best, n - 1, b, original, caps);
        let p = probe_of(best, n, b, original, caps);
        if p.device.len() == 0 {
            front
        } else {
            front.push(p)
        }
    }
}

/// The probes of one backend.
pub open spec fn backend_probes(
    adjusted: Seq<GpuInfo>,
    b: Backend,
    original: Seq<GpuInfo>,
    caps: Caps,
) -> Seq<FitProbeView> {
    let best = sorted_by(backend_pool(adjusted, b), more_allocatable(caps));
    probes_of(best, best.len() as int, b, original, caps)
}

/// The greater of two numbers.
pub open spec fn greatest(a: int, b: int) -> int {
    if a >= b {
        a
    } else {
        b
    }
}

/// The most that any of the backends could allocate.
pub open spec fn best_free(adjusted: Seq<GpuInfo>, targets: Seq<Backend>, caps: Caps) -> int
    decreases targets.len(),
{
    if targets.len() == 0 {
        0
    } else {
        greatest(
            best_free(adjusted, targets.drop_last(), caps),
            capped_sum(allocatable_sum(backend_pool(adjusted, targets.last()), caps)),
        )
    }
}

/// The probes for a model, one group for each backend in the order of
/// preference.
#[derive(Debug)]
pub struct ProbePlan {
    pub groups: Vec<Vec<FitProbe>>,
    pub best_free: u64,
}

/// The probes as values.
pub open spec fn group_views(groups: Seq<Vec<FitProbe>>) -> Seq<Seq<FitProbeView>> {
    groups.map_values(|g: Vec<FitProbe>| probe_views(g@))
}

pub open spec fn probe_views(s: Seq<FitProbe>) -> Seq<FitProbeView> {
    s.map_values(|p: FitProbe| p@)
}

/// The one probe of a model whose devices are configured.
pub open spec fn pinned_probe(
    device: Seq<char>,
    eligible: Seq<GpuInfo>,
    targets: Seq<Backend>,
    original: Seq<GpuInfo>,
    caps: Caps,
) -> FitProbeView {
    FitProbeView {
        backend: if targets.len() > 0 {
            targets[0]
        } else {
            Backend::Vulkan
        },
        device,
        fit_target: join(probe_margins(eligible, original, caps), seq![',']),
        free: capped_sum(allocatable_sum(eligible, caps)),
        gpus_used: eligible.len(),
    }
}

/// The GPUs of the backend that are no integrated ones.
fn collect_pool(gpus: &[GpuInfo], b: Backend) -> (r: Vec<GpuInfo>)
    ensures
        r@ == backend_pool(gpus@, b),
{
    let ghost p = |g: GpuInfo| !g.integrated && g.tags.has(b);
    let mut r: Vec<GpuInfo> = Vec::new();
    let mut i: usize = 0;
    while i < gpus.len()
        invariant
            i <= gpus@.len(),
            p == (|g: GpuInfo| !g.integrated && g.tags.has(b)),
            r@ == gpus@.take(i as int).filter(p),
        decreases gpus@.len() - i,
    {
        proof {
            reveal(Seq::filter);
            assert(gpus@.take(i + 1).drop_last() =~= gpus@.take(i as int));
        }
        if !gpus[i].integrated && gpus[i].supports(b) {
            r.push(gpus[i].clone());
        }
        i += 1;
    }
    assert(gpus@.take(i as int) =~= gpus@);
    r
}

/// The first `n` GPUs.
fn first_gpus(gpus: &Vec<GpuInfo>, n: usize) -> (r: Vec<GpuInfo>)
    requires
        n <= gpus@.len(),
    ensures
        r@ == gpus@.take(n as int),
{
    let mut r = clone_gpus(gpus);
    r.truncate(n);
    assert(r@ =~= gpus@.take(n as int));
    r
}

fn build_probe(
    best: &Vec<GpuInfo>,
    n: usize,
    b: Backend,
    original: &[GpuInfo],
    gpu_cap_pct: u8,
    display_cap_pct: u8,
) -> (r: FitProbe)
    requires
        n <= best@.len(),
    ensures
        r@ == probe_of(
            best@,
            n as int,
            b,
            original@,
            Caps { gpu: gpu_cap_pct as int, display: display_cap_pct as int },
        ),
{
    let chosen = sort_by_index(first_gpus(best, n), b);
    FitProbe {
        backend: b,
        device: device_list(&chosen, b),
        fit_target: probe_target_list(&chosen, original, gpu_cap_pct, display_cap_pct),
        free: total_allocatable(&chosen, gpu_cap_pct, display_cap_pct),
        gpus_used: chosen.len(),
    }
}

fn build_group(
    pool: Vec<GpuInfo>,
    b: Backend,
    original: &[GpuInfo],
    gpu_cap_pct: u8,
    display_cap_pct: u8,
) -> (r: Vec<FitProbe>)
    ensures
        ({
            let caps = Caps { gpu: gpu_cap_pct as int, display: display_cap_pct as int };
            let best = sorted_by(pool@, more_allocatable(caps));
            probe_views(r@) == probes_of(best, best.len() as int, b, original@, caps)
        }),
{
    let ghost caps = Caps { gpu: gpu_cap_pct as int, display: display_cap_pct as int };
    let best = sort_by_allocatable(pool, gpu_cap_pct, display_cap_pct);
    let mut r: Vec<FitProbe> = Vec::new();
    let total = best.len();
    let mut n: usize = 0;
    assert(probe_views(r@) =~= probes_of(best@, 0, b, original@, caps));
    while n < total
        invariant
            n <= total,
            total == best@.len(),
            caps == (Caps { gpu: gpu_cap_pct as int, display: display_cap_pct as int }),
            probe_views(r@) == probes_of(best@, n as int, b, original@, caps),
        decreases total - n,
    {
        let p = build_probe(&best, n + 1, b, original, gpu_cap_pct, display_cap_pct);
        let ghost pv = p@;
        let ghost before = r@;
        if p.device.as_str().is_empty() {
        } else {
            r.push(p);
            assert(probe_views(r@) =~= probe_views(before).push(pv));
        }
        n += 1;
    }
    r
}

/// Whether a plan holds the probes for a GGUF model. A model with configured
/// devices gets the one probe of those, or none where they mean no GPU.
pub open spec fn is_plan(
    plan: ProbePlan,
    model: &ModelConfig,
    targets: Seq<Backend>,
    gpus: Seq<GpuInfo>,
    reserved: int,
    caps: Caps,
) -> bool {
    let adjusted = after_reserve(gpus, reserved);
    let groups = group_views(plan.groups@);
    match model.device {
        Some(d) => {
            let eligible = visible_gpus(model, adjusted);
            if eligible.len() == 0 {
                groups.len() == 0 && plan.best_free == 0
            } else {
                let p = pinned_probe(d@, eligible, targets, gpus, caps);
                groups == seq![seq![p]] && plan.best_free == p.free
            }
        },
        None => {
            &&& groups == targets.map_values(|b: Backend| backend_probes(adjusted, b, gpus, caps))
            &&& plan.best_free == best_free(adjusted, targets, caps)
        },
    }
}

/// The probes for a GGUF model. A model with configured devices gets the one
/// probe of those, or none where they mean no GPU.
pub fn plan_probes(
    model: &ModelConfig,
    targets: &[Backend],
    gpus: &[GpuInfo],
    reserved: u64,
    gpu_cap_pct: u8,
    display_cap_pct: u8,
) -> (r: ProbePlan)
    ensures
        is_plan(
            r,
            model,
            targets@,
            gpus@,
            reserved as int,
            Caps { gpu: gpu_cap_pct as int, display: display_cap_pct as int },
        ),
{
    let ghost caps = Caps { gpu: gpu_cap_pct as int, display: display_cap_pct as int };
    let adjusted = subtract_reserved_from_gpus(clone_gpus(gpus), reserved);
    let mut groups: Vec<Vec<FitProbe>> = Vec::new();
    match &model.device {
        Some(d) => {
            let eligible = model_visible_gpus(model, &adjusted);
            if eligible.len() == 0 {
                return ProbePlan { groups, best_free: 0 };
            }
            let free = total_allocatable(&eligible, gpu_cap_pct, display_cap_pct);
            let p = FitProbe {
                backend: if targets.len() > 0 {
                    targets[0]
                } else {
                    Backend::Vulkan
                },
                device: d.clone(),
                fit_target: probe_target_list(&eligible, gpus, gpu_cap_pct, display_cap_pct),
                free,
                gpus_used: eligible.len(),
            };
            let ghost pv = p@;
            let mut group: Vec<FitProbe> = Vec::new();
            group.push(p);
            let ghost gv = group@;
            groups.push(group);
            assert(probe_views(gv) =~= seq![pv]);
            assert(group_views(groups@) =~= seq![seq![pv]]);
            ProbePlan { groups, best_free: free }
        },
        None => {
            let ghost f = |b: Backend| backend_probes(adjusted@, b, gpus@, caps);
            let mut most: u64 = 0;
            let mut i: usize = 0;
            assert(group_views(groups@) =~= targets@.take(0).map_values(f));
            while i < targets.len()
                invariant
                    i <= targets@.len(),
                    caps == (Caps { gpu: gpu_cap_pct as int, display: display_cap_pct as int }),
                    f == (|b: Backend| backend_probes(adjusted@, b, gpus@, caps)),
                    group_views(groups@) == targets@.take(i as int).map_values(f),
                    most == best_free(adjusted@, targets@.take(i as int), caps),
                decreases targets@.len() - i,
            {
                assert(targets@.take(i + 1).drop_last() =~= targets@.take(i as int));
                let pool = collect_pool(&adjusted, targets[i]);
                let free = total_allocatable(&pool, gpu_cap_pct, display_cap_pct);
                if free > most {
                    most = free;
                }
                let group = build_group(pool, targets[i], gpus, gpu_cap_pct, display_cap_pct);
                let ghost gv = probe_views(group@);
                let ghost before = groups@;
                groups.push(group);
                assert(group_views(groups@) =~= group_views(before).push(gv));
                assert(targets@.take(i + 1).map_values(f) =~= targets@.take(i as int).map_values(
                    f,
                ).push(f(targets@[i as int])));
                i += 1;
            }
            assert(targets@.take(i as int) =~= targets@);
            ProbePlan { groups, best_free: most }
        },
    }
}

// ----- what the answers amount to -----

/// The answer to one probe.
#[derive(Debug)]
pub enum ProbeResult {
    Sized(LlamaFitSizing),
    Failed(String),
}

/// What to do after the answers so far.
#[derive(Debug)]
pub enum SearchStep {
    /// Run this probe and add its answer.
    Probe(FitProbe),
    /// Place the model like this. `full` says that nothing is left to the CPU.
    Place { probe: FitProbe, sizing: LlamaFitSizing, full: bool },
    /// Every probe failed; the text is of the last failure.
    Failed(String),
    /// There was nothing to probe.
    NoRoom,
}

/// Whether a probe was answered with a placement fully on GPUs.
pub open spec fn answered_full(r: ProbeResult, n_layers: u32) -> bool {
    r matches ProbeResult::Sized(s) && s.fully_on_gpu(n_layers)
}

/// The first of the answers from `from` up to `to` that is fully on GPUs.
pub open spec fn first_full(
    results: Seq<ProbeResult>,
    from: int,
    to: int,
    n_layers: u32,
) -> Option<int>
    decreases to - from,
{
    if from >= to {
        None
    } else if answered_full(results[from], n_layers) {
        Some(from)
    } else {
        first_full(results, from + 1, to, n_layers)
    }
}

/// The preferred one among the first `k` probes of a group that were answered
/// with a size. The answers begin at position `h`.
pub open spec fn best_spill(
    group: Seq<FitProbe>,
    results: Seq<ProbeResult>,
    h: int,
    k: int,
) -> Option<int>
    decreases k,
{
    if k <= 0 {
        None
    } else {
        let front = best_spill(group, results, h, k - 1);
        match results[h + k - 1] {
            ProbeResult::Sized(s) => match front {
                Some(j) => if spills_less(
                    group[k - 1].gpus_used,
                    s.device_vram,
                    group[j].gpus_used,
                    results[h + j]->Sized_0.device_vram,
                ) {
                    Some(k - 1)
                } else {
                    front
                },
                None => Some(k - 1),
            },
            ProbeResult::Failed(_) => front,
        }
    }
}

/// The last failure among the first `n` answers.
pub open spec fn last_failure(results: Seq<ProbeResult>, n: int) -> Option<String>
    decreases n,
{
    if n <= 0 {
        None
    } else {
        match results[n - 1] {
            ProbeResult::Failed(e) => Some(e),
            ProbeResult::Sized(_) => last_failure(results, n - 1),
        }
    }
}

/// What to do from group `g` on, whose answers begin at position `h`.
///
/// Within a group the first placement fully on GPUs wins at once. Where a
/// group has no such placement, its preferred partial one is taken. A group
/// without any placement gives way to the next.
pub open spec fn step_from(
    groups: Seq<Vec<FitProbe>>,
    results: Seq<ProbeResult>,
    n_layers: u32,
    g: int,
    h: int,
) -> SearchStep
    decreases groups.len() - g,
{
    if g >= groups.len() {
        match last_failure(results, h) {
            Some(e) => SearchStep::Failed(e),
            None => SearchStep::NoRoom,
        }
    } else {
        let group = groups[g]@;
        let answered = if results.len() - h < group.len() {
            results.len() - h
        } else {
            group.len() as int
        };
        match first_full(results, h, h + answered, n_layers) {
            Some(i) => SearchStep::Place {
                probe: group[i - h],
                sizing: results[i]->Sized_0,
                full: true,
            },
            None => if answered < group.len() {
                SearchStep::Probe(group[answered])
            } else {
                match best_spill(group, results, h, group.len() as int) {
                    Some(j) => SearchStep::Place {
                        probe: group[j],
                        sizing: results[h + j]->Sized_0,
                        full: false,
                    },
                    None => step_from(groups, results, n_layers, g + 1, h + group.len()),
                }
            },
        }
    }
}

pub proof fn lemma_first_full(results: Seq<ProbeResult>, from: int, to: int, n_layers: u32)
    requires
        0 <= from,
    ensures
        match first_full(results, from, to, n_layers) {
            Some(i) => from <= i < to && answered_full(results[i], n_layers),
            None => forall|i: int|
                from <= i < to ==> !answered_full(#[trigger] results[i], n_layers),
        },
    decreases to - from,
{
    if from < to && !answered_full(results[from], n_layers) {
        lemma_first_full(results, from + 1, to, n_layers);
    }
}

pub proof fn lemma_best_spill(group: Seq<FitProbe>, results: Seq<ProbeResult>, h: int, k: int)
    requires
        0 <= k <= group.len(),
    ensures
        match best_spill(group, results, h, k) {
            Some(j) => 0 <= j < k && results[h + j] is Sized,
            None => true,
        },
    decreases k,
{
    if k > 0 {
        lemma_best_spill(group, results, h, k - 1);
    }
}

fn find_full(results: &Vec<ProbeResult>, from: usize, to: usize, n_layers: u32) -> (r: Option<
    usize,
>)
    requires
        from <= to <= results@.len(),
    ensures
        match r {
            Some(i) => first_full(results@, from as int, to as int, n_layers) == Some(i as int),
            None => first_full(results@, from as int, to as int, n_layers) is None,
        },
{
    let mut i: usize = from;
    while i < to
        invariant
            from <= i <= to <= results@.len(),
            first_full(results@, from as int, to as int, n_layers) == first_full(
                results@,
                i as int,
                to as int,
                n_layers,
            ),
        decreases to - i,
    {
        match &results[i] {
            ProbeResult::Sized(s) => {
                if fitted_fully_on_gpu(s, n_layers) {
                    return Some(i);
                }
            },
            ProbeResult::Failed(_) => {},
        }
        i += 1;
    }
    None
}

fn find_spill(group: &Vec<FitProbe>, results: &Vec<ProbeResult>, h: usize) -> (r: Option<usize>)
    requires
        h + group@.len() <= results@.len(),
    ensures
        match r {
            Some(j) => best_spill(group@, results@, h as int, group@.len() as int) == Some(
                j as int,
            ),
            None => best_spill(group@, results@, h as int, group@.len() as int) is None,
        },
{
    let total = results.len();
    let mut best: Option<usize> = None;
    let mut best_vram: u64 = 0;
    let mut k: usize = 0;
    while k < group.len()
        invariant
            k <= group@.len(),
            total == results@.len(),
            h + group@.len() <= total,
            match best {
                Some(j) => {
                    &&& best_spill(group@, results@, h as int, k as int) == Some(j as int)
                    &&& j < k
                    &&& results@[h + j] is Sized
                    &&& best_vram == results@[h + j]->Sized_0.device_vram
                },
                None => best_spill(group@, results@, h as int, k as int) is None,
            },
        decreases group@.len() - k,
    {
        match &results[h + k] {
            ProbeResult::Sized(s) => {
                let better = match best {
                    Some(j) => group[k].gpus_used > group[j].gpus_used || (group[k].gpus_used
                        == group[j].gpus_used && s.device_vram > best_vram),
                    None => true,
                };
                if better {
                    best = Some(k);
                    best_vram = s.device_vram;
                }
            },
            ProbeResult::Failed(_) => {},
        }
        k += 1;
    }
    best
}

fn find_failure(results: &Vec<ProbeResult>, n: usize) -> (r: Option<String>)
    requires
        n <= results@.len(),
    ensures
        r == last_failure(results@, n as int),
{
    let mut i: usize = n;
    while i > 0
        invariant
            i <= n <= results@.len(),
            last_failure(results@, n as int) == last_failure(results@, i as int),
        decreases i,
    {
        match &results[i - 1] {
            ProbeResult::Failed(e) => {
                return Some(e.clone());
            },
            ProbeResult::Sized(_) => {},
        }
        i -= 1;
    }
    None
}

/// What to do after the answers so far.
pub fn next_step(plan: &ProbePlan, results: &Vec<ProbeResult>, n_layers: u32) -> (r: SearchStep)
    ensures
        r == step_from(plan.groups@, results@, n_layers, 0, 0),
{
    let mut g: usize = 0;
    let mut h: usize = 0;
    while g < plan.groups.len()
        invariant
            g <= plan.groups@.len(),
            h <= results@.len(),
            step_from(plan.groups@, results@, n_layers, 0, 0) == step_from(
                plan.groups@,
                results@,
                n_layers,
                g as int,
                h as int,
            ),
        decreases plan.groups@.len() - g,
    {
        let group = &plan.groups[g];
        let left = results.len() - h;
        let answered = if left < group.len() {
            left
        } else {
            group.len()
        };
        proof {
            lemma_first_full(results@, h as int, h + answered, n_layers);
        }
        match find_full(results, h, h + answered, n_layers) {
            Some(i) => match &results[i] {
                ProbeResult::Sized(s) => {
                    return SearchStep::Place {
                        probe: group[i - h].clone(),
                        sizing: s.clone(),
                        full: true,
                    };
                },
                ProbeResult::Failed(_) => {
                    assert(false);
                },
            },
            None => {},
        }
        if answered < group.len() {
            return SearchStep::Probe(group[answered].clone());
        }
        proof {
            lemma_best_spill(group@, results@, h as int, group@.len() as int);
        }
        match find_spill(group, results, h) {
            Some(j) => match &results[h + j] {
                ProbeResult::Sized(s) => {
                    return SearchStep::Place {
                        probe: group[j].clone(),
                        sizing: s.clone(),
                        full: false,
                    };
                },
                ProbeResult::Failed(_) => {
                    assert(false);
                },
            },
            None => {},
        }
        h = h + answered;
        g += 1;
    }
    match find_failure(results, h) {
        Some(e) => SearchStep::Failed(e),
        None => SearchStep::NoRoom,
    }
}

/// All probes of a plan in the order in which they are asked.
pub open spec fn all_probes(groups: Seq<Vec<FitProbe>>, g: int) -> Seq<FitProbe>
    decreases groups.len() - g,
{
    if g >= groups.len() || g < 0 {
        Seq::empty()
    } else {
        groups[g]@ + all_probes(groups, g + 1)
    }
}

proof fn lemma_asked(
    groups: Seq<Vec<FitProbe>>,
    results: Seq<ProbeResult>,
    n_layers: u32,
    g: int,
    h: int,
)
    requires
        0 <= g,
        0 <= h <= results.len(),
    ensures
        step_from(groups, results, n_layers, g, h) matches SearchStep::Probe(p) ==> {
            &&& results.len() - h < all_probes(groups, g).len()
            &&& p == all_probes(groups, g)[results.len() - h]
        },
        results.len() - h >= all_probes(groups, g).len() ==> !(step_from(
            groups,
            results,
            n_layers,
            g,
            h,
        ) is Probe),
    decreases groups.len() - g,
{
    if g < groups.len() {
        let group = groups[g]@;
        if results.len() - h >= group.len() {
            lemma_asked(groups, results, n_layers, g + 1, h + group.len());
        }
    }
}

/// The search asks the probes one after the other, each at most once, so it
/// ends after as many answers as there are probes.
pub proof fn law_search_asks_in_order(
    groups: Seq<Vec<FitProbe>>,
    results: Seq<ProbeResult>,
    n_layers: u32,
)
    ensures
        step_from(groups, results, n_layers, 0, 0) matches SearchStep::Probe(p) ==> {
            &&& results.len() < all_probes(groups, 0).len()
            &&& p == all_probes(groups, 0)[results.len() as int]
        },
        results.len() >= all_probes(groups, 0).len() ==> !(step_from(
            groups,
            results,
            n_layers,
            0,
            0,
        ) is Probe),
{
    lemma_asked(groups, results, n_layers, 0, 0);
}

// ----- what a placement does to the model -----

/// The model on the chosen devices. A server that fits itself gets the margins
/// and no fitted arguments; any other gets the fitted arguments.
pub open spec fn selected(
    m: ModelConfig,
    device: String,
    fit_target: String,
    sizing: LlamaFitSizing,
    server_owned: bool,
) -> ModelConfig {
    let m = ModelConfig { device: Some(device), ..m };
    if server_owned {
        ModelConfig {
            context: match sizing.fitted.context {
                Some(c) => c,
                None => m.context,
            },
            estimated_vram: sizing.device_vram,
            n_gpu_layers: None,
            tensor_split: None,
            override_tensor: None,
            fit_target: Some(fit_target),
            ..m
        }
    } else {
        with_sizing(m, sizing)
    }
}

/// Puts the model on the chosen devices.
pub fn apply_fit_selection(
    model: &mut ModelConfig,
    device: &String,
    fit_target: &String,
    sizing: &LlamaFitSizing,
    server_owned: bool,
)
    ensures
        *final(model) == selected(*old(model), *device, *fit_target, *sizing, server_owned),
{
    model.device = Some(device.clone());
    if server_owned {
        match sizing.fitted.context {
            Some(c) => {
                model.context = c;
            },
            None => {},
        }
        model.estimated_vram = sizing.device_vram;
        model.n_gpu_layers = None;
        model.tensor_split = None;
        model.override_tensor = None;
        model.fit_target = Some(fit_target.clone());
    } else {
        apply_sizing_to_model(model, sizing);
    }
}

/// Puts the model where the search placed it.
pub fn place(
    model: &mut ModelConfig,
    probe: &FitProbe,
    sizing: &LlamaFitSizing,
    full: bool,
    server_owned: bool,
) -> (r: PlaceOutcome)
    ensures
        *final(model) == selected(
            *old(model),
            probe.device,
            probe.fit_target,
            *sizing,
            server_owned,
        ),
        r == (PlaceOutcome::Placed {
            backend: probe.backend,
            gpus_used: probe.gpus_used,
            free: probe.free,
            fully_on_gpu: full && !server_owned,
        }),
{
    apply_fit_selection(model, &probe.device, &probe.fit_target, sizing, server_owned);
    PlaceOutcome::Placed {
        backend: probe.backend,
        gpus_used: probe.gpus_used,
        free: probe.free,
        fully_on_gpu: full && !server_owned,
    }
}

/// What to do to place a model.
#[derive(Debug)]
pub enum PlacementStep {
    /// Run this probe and add its answer.
    Probe(FitProbe),
    /// The attempt is over.
    Done(PlaceOutcome),
    /// No probe succeeded; the text is of the last failure.
    Failed(String),
}

/// Whether `r` and the model after it are what the answers to the probes of a
/// plan amount to.
pub open spec fn follows_plan(
    plan: ProbePlan,
    before: ModelConfig,
    after: ModelConfig,
    results: Seq<ProbeResult>,
    n_layers: u32,
    server_owned: bool,
    r: PlacementStep,
) -> bool {
    match step_from(plan.groups@, results, n_layers, 0, 0) {
        SearchStep::Probe(p) => r == PlacementStep::Probe(p) && after == before,
        SearchStep::Place { probe, sizing, full } => {
            &&& after == selected(before, probe.device, probe.fit_target, sizing, server_owned)
            &&& r == PlacementStep::Done(
                PlaceOutcome::Placed {
                    backend: probe.backend,
                    gpus_used: probe.gpus_used,
                    free: probe.free,
                    fully_on_gpu: full && !server_owned,
                },
            )
        },
        SearchStep::Failed(e) => r == PlacementStep::Failed(e) && after == before,
        SearchStep::NoRoom => {
            &&& r == PlacementStep::Done(PlaceOutcome::DoesNotFit { free: plan.best_free })
            &&& after == before
        },
    }
}

/// Places a GGUF model from the answers of the fit probe so far.
pub fn place_gguf_with_llama_fit(
    model: &mut ModelConfig,
    targets: &[Backend],
    gpus: &[GpuInfo],
    reserved: u64,
    gpu_cap_pct: u8,
    display_cap_pct: u8,
    results: &Vec<ProbeResult>,
    n_layers: u32,
    server_owned: bool,
) -> (r: PlacementStep)
    ensures
        exists|plan: ProbePlan|
            {
                &&& #[trigger] is_plan(
                    plan,
                    old(model),
                    targets@,
                    gpus@,
                    reserved as int,
                    Caps { gpu: gpu_cap_pct as int, display: display_cap_pct as int },
                )
                &&& follows_plan(
                    plan,
                    *old(model),
                    *final(model),
                    results@,
                    n_layers,
                    server_owned,
                    r,
                )
            },
{
    let plan = plan_probes(model, targets, gpus, reserved, gpu_cap_pct, display_cap_pct);
    let ghost before = *model;
    let r = match next_step(&plan, results, n_layers) {
        SearchStep::Probe(p) => PlacementStep::Probe(p),
        SearchStep::Place { probe, sizing, full } => PlacementStep::Done(
            place(model, &probe, &sizing, full, server_owned),
        ),
        SearchStep::Failed(e) => PlacementStep::Failed(e),
        SearchStep::NoRoom => PlacementStep::Done(
            PlaceOutcome::DoesNotFit { free: plan.best_free },
        ),
    };
    assert(follows_plan(plan, before, *model, results@, n_layers, server_owned, r));
    r
}

// ----- placement without a probe -----

/// Whether the configuration already says where the model runs.
pub open spec fn is_settled(m: &ModelConfig) -> bool {
    m.weights_format != WeightsFormat::Gguf || m.device is Some
}

/// The first target on which some GPU has free memory.
pub open spec fn first_open_target(
    adjusted: Seq<GpuInfo>,
    targets: Seq<Backend>,
    i: int,
) -> Option<int>
    decreases targets.len() - i,
{
    if i < 0 || i >= targets.len() {
        None
    } else if eligible_gpus(backend_pool(adjusted, targets[i]), targets[i]).len() > 0 {
        Some(i)
    } else {
        first_open_target(adjusted, targets, i + 1)
    }
}

/// Whether `r` and the model after it are what becomes of a model that is
/// placed from its estimate alone.
pub open spec fn placed_by_estimate(
    m: ModelConfig,
    after: ModelConfig,
    targets: Seq<Backend>,
    gpus: Seq<GpuInfo>,
    reserved: int,
    caps: Caps,
    r: PlaceOutcome,
) -> bool {
    let adjusted = after_reserve(gpus, reserved);
    if is_settled(&m) {
        let free = capped_sum(allocatable_sum(visible_gpus(&m, adjusted), caps));
        &&& after == m
        &&& if m.estimated_vram == 0 || free >= m.estimated_vram {
            r == PlaceOutcome::Fits
        } else {
            r == (PlaceOutcome::DoesNotFit { free: free as u64 })
        }
    } else {
        match first_open_target(adjusted, targets, 0) {
            Some(i) => {
                let b = targets[i];
                let pool = backend_pool(adjusted, b);
                let free = capped_sum(allocatable_sum(pool, caps));
                let chosen = chosen_gpus(pool, b, m.estimated_vram as int, caps);
                &&& option_text(after.device) == Some(
                    join(device_names(chosen, b), seq![',']),
                )
                &&& option_text(after.fit_target) == Some(
                    join(margins(chosen, caps), seq![',']),
                )
                &&& after == (ModelConfig {
                    device: after.device,
                    fit_target: after.fit_target,
                    tensor_split: None,
                    n_gpu_layers: None,
                    n_cpu_moe: None,
                    override_tensor: None,
                    ..m
                })
                &&& r matches PlaceOutcome::Placed {
                    backend,
                    gpus_used,
                    free: f,
                    fully_on_gpu,
                }
                &&& backend == b
                &&& gpus_used == chosen.len()
                &&& f == free
                &&& fully_on_gpu == (free >= m.estimated_vram)
            },
            None => {
                &&& after == m
                &&& r == (PlaceOutcome::DoesNotFit {
                    free: best_free(adjusted, targets, caps) as u64,
                })
            },
        }
    }
}

/// Decides where a model runs from its estimate alone. A model whose place is
/// settled is only checked for room; any other is put on the first target with
/// free memory and left to fit itself there.
pub fn try_place(
    model: &mut ModelConfig,
    targets: &[Backend],
    gpus: &[GpuInfo],
    reserved: u64,
    gpu_cap_pct: u8,
    display_cap_pct: u8,
) -> (r: PlaceOutcome)
    ensures
        placed_by_estimate(
            *old(model),
            *final(model),
            targets@,
            gpus@,
            reserved as int,
            Caps { gpu: gpu_cap_pct as int, display: display_cap_pct as int },
            r,
        ),
{
    let ghost caps = Caps { gpu: gpu_cap_pct as int, display: display_cap_pct as int };
    let adjusted = subtract_reserved_from_gpus(clone_gpus(gpus), reserved);
    let gguf = match model.weights_format {
        WeightsFormat::Gguf => true,
        WeightsFormat::Safetensors => false,
    };
    if !gguf || model.device.is_some() {
        let eligible = model_visible_gpus(model, &adjusted);
        let free = total_allocatable(&eligible, gpu_cap_pct, display_cap_pct);
        return if model.estimated_vram == 0 || free >= model.estimated_vram {
            PlaceOutcome::Fits
        } else {
            PlaceOutcome::DoesNotFit { free }
        };
    }
    let mut most: u64 = 0;
    let mut i: usize = 0;
    while i < targets.len()
        invariant
            i <= targets@.len(),
            caps == (Caps { gpu: gpu_cap_pct as int, display: display_cap_pct as int }),
            *model == *old(model),
            first_open_target(adjusted@, targets@, 0) == first_open_target(
                adjusted@,
                targets@,
                i as int,
            ),
            most == best_free(adjusted@, targets@.take(i as int), caps),
            adjusted@ == after_reserve(gpus@, reserved as int),
            !is_settled(model),
        decreases targets@.len() - i,
    {
        assert(targets@.take(i + 1).drop_last() =~= targets@.take(i as int));
        let b = targets[i];
        let pool = collect_pool(&adjusted, b);
        let free = total_allocatable(&pool, gpu_cap_pct, display_cap_pct);
        if free > most {
            most = free;
        }
        match plan_fit_placement(
            b,
            &pool,
            model.estimated_vram,
            gpu_cap_pct,
            display_cap_pct,
        ) {
            Some(p) => {
                model.device = Some(p.device);
                model.fit_target = Some(p.fit_target);
                model.tensor_split = None;
                model.n_gpu_layers = None;
                model.n_cpu_moe = None;
                model.override_tensor = None;
                return PlaceOutcome::Placed {
                    backend: b,
                    gpus_used: p.gpus_used,
                    free,
                    fully_on_gpu: free >= model.estimated_vram,
                };
            },
            None => {},
        }
        i += 1;
    }
    assert(targets@.take(i as int) =~= targets@);
    PlaceOutcome::DoesNotFit { free: most }
}

/// Whether `r` and the model after it are what becomes of a model that is
/// placed: a GGUF model from the answers of the fit probe so far, any other
/// from its estimate.
pub open spec fn is_placement(
    m: ModelConfig,
    after: ModelConfig,
    targets: Seq<Backend>,
    gpus: Seq<GpuInfo>,
    reserved: int,
    caps: Caps,
    results: Seq<ProbeResult>,
    n_layers: u32,
    server_owned: bool,
    r: PlacementStep,
) -> bool {
    if m.weights_format == WeightsFormat::Gguf {
        exists|plan: ProbePlan|
            {
                &&& #[trigger] is_plan(plan, &m, targets, gpus, reserved, caps)
                &&& follows_plan(plan, m, after, results, n_layers, server_owned, r)
            }
    } else {
        r matches PlacementStep::Done(o) && placed_by_estimate(
            m,
            after,
            targets,
            gpus,
            reserved,
            caps,
            o,
        )
    }
}

/// Places a model: a GGUF model from the answers of the fit probe so far, any
/// other from its estimate.
pub fn place_model(
    model: &mut ModelConfig,
    targets: &[Backend],
    gpus: &[GpuInfo],
    reserved: u64,
    gpu_cap_pct: u8,
    display_cap_pct: u8,
    results: &Vec<ProbeResult>,
    n_layers: u32,
    server_owned: bool,
) -> (r: PlacementStep)
    ensures
        is_placement(
            *old(model),
            *final(model),
            targets@,
            gpus@,
            reserved as int,
            Caps { gpu: gpu_cap_pct as int, display: display_cap_pct as int },
            results@,
            n_layers,
            server_owned,
            r,
        ),
{
    match model.weights_format {
        WeightsFormat::Gguf => place_gguf_with_llama_fit(
            model,
            targets,
            gpus,
            reserved,
            gpu_cap_pct,
            display_cap_pct,
            results,
            n_layers,
            server_owned,
        ),
        WeightsFormat::Safetensors => PlacementStep::Done(
            try_place(model, targets, gpus, reserved, gpu_cap_pct, display_cap_pct),
        ),
    }
}

} // verus!
