//! Placement that llama.cpp fits itself: which GPUs, and how much of each to
//! leave free.
use vstd::prelude::*;
use vstd::string::*;

use crate::config::backend::Backend;
use crate::order::{law_sorted_by, ordered, ranks, sort_stable, sorted_by};
use crate::text::{decimal, decimal_text, join, join_texts, texts};
use crate::vram::tracker::{clamp_pct, clamped_pct, GpuInfo};

verus! {

broadcast use vstd::string::group_string_axioms;

/// A placement on one backend: the device list, and the margins that belong to
/// it position by position.
#[derive(Debug)]
pub struct FitPlacement {
    pub backend: Backend,
    /// Such as `Vulkan0,Vulkan1`.
    pub device: String,
    /// MiB to leave free on each device.
    pub fit_target: String,
    pub gpus_used: usize,
}

/// The caps of an ordinary GPU and of one with a monitor, in percent.
pub struct Caps {
    pub gpu: int,
    pub display: int,
}

/// Whether a GPU can take part in a placement on the backend.
pub open spec fn is_eligible(g: GpuInfo, b: Backend) -> bool {
    !g.integrated && g.index_for(b) is Some && g.free() > 0
}

/// The GPUs that can take part, in the order given.
pub open spec fn eligible_gpus(gpus: Seq<GpuInfo>, b: Backend) -> Seq<GpuInfo> {
    gpus.filter(|g: GpuInfo| is_eligible(g, b))
}

/// More allocatable memory comes first.
pub open spec fn more_allocatable(caps: Caps) -> spec_fn(GpuInfo, GpuInfo) -> bool {
    |x: GpuInfo, y: GpuInfo|
        x.allocatable(caps.gpu, caps.display) >= y.allocatable(caps.gpu, caps.display)
}

/// The number of the device, with devices that have none at the end.
pub open spec fn device_rank(g: GpuInfo, b: Backend) -> int {
    match g.index_for(b) {
        Some(i) => i as int,
        None => usize::MAX as int,
    }
}

/// Lower device numbers come first.
pub open spec fn lower_index(b: Backend) -> spec_fn(GpuInfo, GpuInfo) -> bool {
    |x: GpuInfo, y: GpuInfo| device_rank(x, b) <= device_rank(y, b)
}

/// The allocatable memory of all GPUs together.
pub open spec fn allocatable_sum(gpus: Seq<GpuInfo>, caps: Caps) -> int
    decreases gpus.len(),
{
    if gpus.len() == 0 {
        0
    } else {
        allocatable_sum(gpus.drop_last(), caps) + gpus.last().allocatable(caps.gpu, caps.display)
    }
}

/// The least number of GPUs, counted from the front, that covers the need.
pub open spec fn cover_len(gpus: Seq<GpuInfo>, needed: int, caps: Caps, k: int) -> int
    decreases gpus.len() - k,
{
    if k >= gpus.len() || allocatable_sum(gpus.take(k), caps) >= needed {
        k
    } else {
        cover_len(gpus, needed, caps, k + 1)
    }
}

/// The GPUs of a placement, in device order. Where the need is known and can
/// be covered, they are the fewest that cover it; else all that can take part.
pub open spec fn chosen_gpus(
    gpus: Seq<GpuInfo>,
    b: Backend,
    needed: int,
    caps: Caps,
) -> Seq<GpuInfo> {
    let eligible = eligible_gpus(gpus, b);
    let best = sorted_by(eligible, more_allocatable(caps));
    let chosen = if needed > 0 && allocatable_sum(best, caps) >= needed {
        best.take(cover_len(best, needed, caps, 1))
    } else {
        eligible
    };
    sorted_by(chosen, lower_index(b))
}

/// The names of the devices.
pub open spec fn device_names(gpus: Seq<GpuInfo>, b: Backend) -> Seq<Seq<char>>
    decreases gpus.len(),
{
    if gpus.len() == 0 {
        Seq::empty()
    } else {
        match gpus.last().device_for(b) {
            Some(d) => device_names(gpus.drop_last(), b).push(d),
            None => device_names(gpus.drop_last(), b),
        }
    }
}

/// Product held at the greatest value where it would exceed it.
pub open spec fn saturating_product(a: int, b: int) -> int {
    if a * b <= u64::MAX {
        a * b
    } else {
        u64::MAX as int
    }
}

/// MiB to leave free so that the GPU ends at its cap.
pub open spec fn margin_mib(g: GpuInfo, caps: Caps) -> int {
    saturating_product(
        g.total_vram as int,
        100 - clamp_pct(g.cap(caps.gpu, caps.display)),
    ) / 100 / 1048576
}

/// The margins of the GPUs, as texts.
pub open spec fn margins(gpus: Seq<GpuInfo>, caps: Caps) -> Seq<Seq<char>> {
    gpus.map_values(|g: GpuInfo| decimal(margin_mib(g, caps) as nat))
}

/// MiB to leave free so that the GPU ends at its cap.
pub fn fit_target_mib(g: &GpuInfo, gpu_cap_pct: u8, display_cap_pct: u8) -> (r: u64)
    ensures
        r == margin_mib(*g, Caps { gpu: gpu_cap_pct as int, display: display_cap_pct as int }),
{
    let cap = clamped_pct(g.vram_cap_pct(gpu_cap_pct as u64, display_cap_pct as u64));
    let bytes = saturating_times(g.total_vram, 100 - cap) / 100;
    bytes / 1048576
}

/// Product held at the greatest value where it would exceed it.
pub fn saturating_times(a: u64, b: u64) -> (r: u64)
    ensures
        r == saturating_product(a as int, b as int),
{
    match a.checked_mul(b) {
        Some(p) => p,
        None => u64::MAX,
    }
}

/// The GPUs that can take part, in the order given.
fn collect_eligible(gpus: &[GpuInfo], b: Backend) -> (r: Vec<GpuInfo>)
    ensures
        r@ == eligible_gpus(gpus@, b),
{
    let ghost p = |g: GpuInfo| is_eligible(g, b);
    let mut r: Vec<GpuInfo> = Vec::new();
    let mut i: usize = 0;
    while i < gpus.len()
        invariant
            i <= gpus@.len(),
            p == (|g: GpuInfo| is_eligible(g, b)),
            r@ == gpus@.take(i as int).filter(p),
        decreases gpus@.len() - i,
    {
        proof {
            reveal(Seq::filter);
            assert(gpus@.take(i + 1).drop_last() =~= gpus@.take(i as int));
        }
        let g = &gpus[i];
        if !g.integrated && g.backend_index(b).is_some() && g.free_vram() > 0 {
            r.push(g.clone());
        }
        i += 1;
    }
    assert(gpus@.take(i as int) =~= gpus@);
    r
}

/// The GPUs with more allocatable memory first.
pub fn sort_by_allocatable(gpus: Vec<GpuInfo>, gpu_cap_pct: u8, display_cap_pct: u8) -> (r: Vec<
    GpuInfo,
>)
    ensures
        r@ == sorted_by(
            gpus@,
            more_allocatable(Caps { gpu: gpu_cap_pct as int, display: display_cap_pct as int }),
        ),
{
    let ghost caps = Caps { gpu: gpu_cap_pct as int, display: display_cap_pct as int };
    let le = |x: &GpuInfo, y: &GpuInfo| -> (c: bool)
        ensures
            c == more_allocatable(
                Caps { gpu: gpu_cap_pct as int, display: display_cap_pct as int },
            )(*x, *y),
        {
            let a = x.allocatable_vram(gpu_cap_pct as u64, display_cap_pct as u64);
            let b = y.allocatable_vram(gpu_cap_pct as u64, display_cap_pct as u64);
            a >= b
        };
    sort_stable(gpus, le, Ghost(more_allocatable(caps)))
}

/// The number of the device, with devices that have none at the end.
fn rank_of(g: &GpuInfo, b: Backend) -> (r: usize)
    ensures
        r == device_rank(*g, b),
{
    match g.backend_index(b) {
        Some(i) => i,
        None => usize::MAX,
    }
}

/// The GPUs in the backend's own order.
pub fn sort_by_index(gpus: Vec<GpuInfo>, b: Backend) -> (r: Vec<GpuInfo>)
    ensures
        r@ == sorted_by(gpus@, lower_index(b)),
{
    let le = |x: &GpuInfo, y: &GpuInfo| -> (c: bool)
        ensures
            c == lower_index(b)(*x, *y),
        {
            let i = rank_of(x, b);
            let j = rank_of(y, b);
            i <= j
        };
    sort_stable(gpus, le, Ghost(lower_index(b)))
}

/// The names of the devices, separated by commas.
pub fn device_list(gpus: &[GpuInfo], b: Backend) -> (r: String)
    ensures
        r@ == join(device_names(gpus@, b), seq![',']),
{
    let mut names: Vec<String> = Vec::new();
    let mut i: usize = 0;
    assert(texts(names@) =~= device_names(gpus@.take(0), b));
    while i < gpus.len()
        invariant
            i <= gpus@.len(),
            texts(names@) == device_names(gpus@.take(i as int), b),
        decreases gpus@.len() - i,
    {
        assert(gpus@.take(i + 1).drop_last() =~= gpus@.take(i as int));
        let d = gpus[i].backend_device_name(b);
        let ghost before = names@;
        match d {
            Some(name) => {
                names.push(name);
                assert(texts(names@) =~= texts(before).push(name@));
            },
            None => {},
        }
        i += 1;
    }
    assert(gpus@.take(i as int) =~= gpus@);
    proof {
        reveal_strlit(",");
        assert(","@ =~= seq![',']);
    }
    join_texts(&names, ",")
}

/// The sum of allocatable memory, held at the greatest value where it would
/// exceed it.
pub fn total_allocatable(gpus: &[GpuInfo], gpu_cap_pct: u8, display_cap_pct: u8) -> (r: u64)
    ensures
        r == capped_sum(
            allocatable_sum(
                gpus@,
                Caps { gpu: gpu_cap_pct as int, display: display_cap_pct as int },
            ),
        ),
{
    let ghost caps = Caps { gpu: gpu_cap_pct as int, display: display_cap_pct as int };
    let mut total: u64 = 0;
    let mut i: usize = 0;
    while i < gpus.len()
        invariant
            i <= gpus@.len(),
            caps == (Caps { gpu: gpu_cap_pct as int, display: display_cap_pct as int }),
            total == capped_sum(allocatable_sum(gpus@.take(i as int), caps)),
            allocatable_sum(gpus@.take(i as int), caps) >= 0,
        decreases gpus@.len() - i,
    {
        assert(gpus@.take(i + 1).drop_last() =~= gpus@.take(i as int));
        total = total.saturating_add(
            gpus[i].allocatable_vram(gpu_cap_pct as u64, display_cap_pct as u64),
        );
        i += 1;
    }
    assert(gpus@.take(i as int) =~= gpus@);
    total
}

/// A number of bytes held at the greatest value where it would exceed it.
pub open spec fn capped_sum(n: int) -> int {
    if n <= u64::MAX {
        n
    } else {
        u64::MAX as int
    }
}

pub proof fn lemma_sum_nonnegative(gpus: Seq<GpuInfo>, caps: Caps)
    ensures
        allocatable_sum(gpus, caps) >= 0,
    decreases gpus.len(),
{
    if gpus.len() > 0 {
        lemma_sum_nonnegative(gpus.drop_last(), caps);
    }
}

proof fn lemma_sum_grows(gpus: Seq<GpuInfo>, caps: Caps, k: int)
    requires
        0 <= k <= gpus.len(),
    ensures
        allocatable_sum(gpus.take(k), caps) <= allocatable_sum(gpus, caps),
    decreases gpus.len() - k,
{
    if k < gpus.len() {
        lemma_sum_grows(gpus, caps, k + 1);
        assert(gpus.take(k + 1).drop_last() =~= gpus.take(k));
    } else {
        assert(gpus.take(k) =~= gpus);
    }
}

proof fn lemma_cover_len(gpus: Seq<GpuInfo>, needed: int, caps: Caps, k: int)
    requires
        1 <= k <= gpus.len(),
        allocatable_sum(gpus, caps) >= needed,
    ensures
        k <= cover_len(gpus, needed, caps, k) <= gpus.len(),
        allocatable_sum(gpus.take(cover_len(gpus, needed, caps, k)), caps) >= needed,
        forall|j: int|
            k <= j < cover_len(gpus, needed, caps, k) ==> allocatable_sum(
                #[trigger] gpus.take(j),
                caps,
            ) < needed,
    decreases gpus.len() - k,
{
    if k >= gpus.len() {
        assert(gpus.take(k) =~= gpus);
    } else if allocatable_sum(gpus.take(k), caps) < needed {
        lemma_cover_len(gpus, needed, caps, k + 1);
    }
}

/// The shortest front part that covers the need, where all together do.
fn cover(gpus: &Vec<GpuInfo>, needed: u64, gpu_cap_pct: u8, display_cap_pct: u8) -> (r: Option<
    usize,
>)
    requires
        needed > 0,
    ensures
        ({
            let caps = Caps { gpu: gpu_cap_pct as int, display: display_cap_pct as int };
            match r {
                Some(k) => {
                    &&& allocatable_sum(gpus@, caps) >= needed
                    &&& k == cover_len(gpus@, needed as int, caps, 1)
                    &&& 1 <= k <= gpus@.len()
                },
                None => allocatable_sum(gpus@, caps) < needed,
            }
        }),
{
    let ghost caps = Caps { gpu: gpu_cap_pct as int, display: display_cap_pct as int };
    let mut total: u64 = 0;
    let mut i: usize = 0;
    while i < gpus.len()
        invariant
            i <= gpus@.len(),
            needed > 0,
            caps == (Caps { gpu: gpu_cap_pct as int, display: display_cap_pct as int }),
            total == allocatable_sum(gpus@.take(i as int), caps),
            total < needed,
            i >= 1 ==> cover_len(gpus@, needed as int, caps, 1) == cover_len(
                gpus@,
                needed as int,
                caps,
                i as int,
            ),
        decreases gpus@.len() - i,
    {
        assert(gpus@.take(i + 1).drop_last() =~= gpus@.take(i as int));
        let a = gpus[i].allocatable_vram(gpu_cap_pct as u64, display_cap_pct as u64);
        let next = total.saturating_add(a);
        if next >= needed {
            proof {
                lemma_sum_grows(gpus@, caps, i + 1);
                assert(allocatable_sum(gpus@.take(i + 1), caps) >= needed);
                assert(cover_len(gpus@, needed as int, caps, i + 1) == i + 1);
                if i >= 1 {
                    assert(cover_len(gpus@, needed as int, caps, i as int) == cover_len(
                        gpus@,
                        needed as int,
                        caps,
                        i + 1,
                    ));
                }
            }
            return Some(i + 1);
        }
        total = next;
        i += 1;
    }
    assert(gpus@.take(i as int) =~= gpus@);
    None
}

/// Plans a placement on a backend. There is none only where no GPU of the
/// backend has free memory.
pub fn plan_fit_placement(
    backend: Backend,
    candidates: &[GpuInfo],
    needed_vram: u64,
    gpu_cap_pct: u8,
    display_cap_pct: u8,
) -> (r: Option<FitPlacement>)
    ensures
        ({
            let caps = Caps { gpu: gpu_cap_pct as int, display: display_cap_pct as int };
            let chosen = chosen_gpus(candidates@, backend, needed_vram as int, caps);
            match r {
                Some(p) => {
                    &&& eligible_gpus(candidates@, backend).len() > 0
                    &&& p.backend == backend
                    &&& p.device@ == join(device_names(chosen, backend), seq![','])
                    &&& p.fit_target@ == join(margins(chosen, caps), seq![','])
                    &&& p.gpus_used == chosen.len()
                },
                None => eligible_gpus(candidates@, backend).len() == 0,
            }
        }),
{
    let ghost caps = Caps { gpu: gpu_cap_pct as int, display: display_cap_pct as int };
    let eligible = collect_eligible(candidates, backend);
    if eligible.len() == 0 {
        return None;
    }
    let ghost all = eligible@;
    let copies = crate::vram::tracker::clone_gpus(&eligible);
    let mut best = sort_by_allocatable(copies, gpu_cap_pct, display_cap_pct);
    let ghost sorted = best@;
    let mut chosen = eligible;
    if needed_vram > 0 {
        match cover(&best, needed_vram, gpu_cap_pct, display_cap_pct) {
            Some(k) => {
                best.truncate(k);
                assert(best@ =~= sorted.take(k as int));
                chosen = best;
            },
            None => {},
        }
    }
    let chosen = sort_by_index(chosen, backend);
    assert(chosen@ == chosen_gpus(candidates@, backend, needed_vram as int, caps));
    let device = device_list(&chosen, backend);
    let mut parts: Vec<String> = Vec::new();
    let mut i: usize = 0;
    assert(texts(parts@) =~= margins(chosen@.take(0), caps));
    while i < chosen.len()
        invariant
            i <= chosen@.len(),
            caps == (Caps { gpu: gpu_cap_pct as int, display: display_cap_pct as int }),
            texts(parts@) == margins(chosen@.take(i as int), caps),
        decreases chosen@.len() - i,
    {
        let m = fit_target_mib(&chosen[i], gpu_cap_pct, display_cap_pct);
        let t = decimal_text(m);
        let ghost before = parts@;
        let ghost tv = t@;
        parts.push(t);
        assert(texts(parts@) =~= texts(before).push(tv));
        assert(margins(chosen@.take(i + 1), caps) =~= margins(chosen@.take(i as int), caps).push(
            tv,
        ));
        i += 1;
    }
    assert(chosen@.take(i as int) =~= chosen@);
    proof {
        reveal_strlit(",");
        assert(","@ =~= seq![',']);
    }
    let fit_target = join_texts(&parts, ",");
    Some(FitPlacement { backend, device, fit_target, gpus_used: chosen.len() })
}

/// Whether `at` picks different positions of a list, in increasing order.
pub open spec fn picks(at: Seq<int>, len: nat) -> bool {
    &&& forall|i: int| 0 <= i < at.len() ==> 0 <= #[trigger] at[i] < len
    &&& forall|i: int, j: int| 0 <= i < j < at.len() ==> #[trigger] at[i] < #[trigger] at[j]
}

/// The items at the picked positions.
pub open spec fn picked(gpus: Seq<GpuInfo>, at: Seq<int>) -> Seq<GpuInfo> {
    at.map_values(|i: int| gpus[i])
}

proof fn lemma_pick_is_behind(at: Seq<int>, len: nat, i: int)
    requires
        picks(at, len),
        0 <= i < at.len(),
    ensures
        i <= at[i],
    decreases i,
{
    if i > 0 {
        lemma_pick_is_behind(at, len, i - 1);
        assert(at[i - 1] < at[i]);
    }
}

pub proof fn lemma_pick_sum(gpus: Seq<GpuInfo>, at: Seq<int>, caps: Caps)
    requires
        ordered(gpus, more_allocatable(caps)),
        picks(at, gpus.len()),
    ensures
        at.len() <= gpus.len(),
        allocatable_sum(picked(gpus, at), caps) <= allocatable_sum(
            gpus.take(at.len() as int),
            caps,
        ),
    decreases at.len(),
{
    if at.len() > 0 {
        let n = at.len() as int;
        let front = at.drop_last();
        assert forall|i: int| 0 <= i < front.len() implies 0 <= #[trigger] front[i]
            < gpus.len() by {
            assert(front[i] == at[i]);
        }
        assert forall|i: int, j: int| 0 <= i < j < front.len() implies #[trigger] front[i]
            < #[trigger] front[j] by {
            assert(at[i] < at[j]);
        }
        lemma_pick_sum(gpus, front, caps);
        lemma_pick_is_behind(at, gpus.len(), n - 1);
        assert(picked(gpus, at).drop_last() =~= picked(gpus, front));
        assert(picked(gpus, at).last() == gpus[at[n - 1]]);
        assert(gpus.take(n).drop_last() =~= gpus.take(n - 1));
        if n - 1 < at[n - 1] {
            assert(more_allocatable(caps)(gpus[n - 1], gpus[at[n - 1]]));
        }
    }
}

/// A placement takes the fewest GPUs: where the need is covered, no choice of
/// fewer GPUs covers it.
pub proof fn law_fewest_gpus(
    gpus: Seq<GpuInfo>,
    b: Backend,
    needed: int,
    caps: Caps,
    at: Seq<int>,
)
    requires
        needed > 0,
        allocatable_sum(sorted_by(eligible_gpus(gpus, b), more_allocatable(caps)), caps) >= needed,
        picks(at, eligible_gpus(gpus, b).len()),
        at.len() < chosen_gpus(gpus, b, needed, caps).len(),
    ensures
        allocatable_sum(
            picked(sorted_by(eligible_gpus(gpus, b), more_allocatable(caps)), at),
            caps,
        ) < needed,
{
    let eligible = eligible_gpus(gpus, b);
    let leq = more_allocatable(caps);
    assert(ranks(leq));
    law_sorted_by(eligible, leq);
    let best = sorted_by(eligible, leq);
    lemma_sum_nonnegative(best, caps);
    if best.len() == 0 {
        assert(allocatable_sum(best, caps) == 0);
        assert(false);
    }
    lemma_cover_len(best, needed, caps, 1);
    let k = cover_len(best, needed, caps, 1);
    assert(ranks(lower_index(b)));
    law_sorted_by(best.take(k), lower_index(b));
    assert(at.len() < k);
    lemma_pick_sum(best, at, caps);
    if at.len() == 0 {
        assert(picked(best, at).len() == 0);
    } else {
        assert(allocatable_sum(best.take(at.len() as int), caps) < needed);
    }
}

/// A placement whose need can be covered is covered.
pub proof fn law_chosen_gpus_cover(gpus: Seq<GpuInfo>, b: Backend, needed: int, caps: Caps)
    requires
        needed > 0,
        allocatable_sum(sorted_by(eligible_gpus(gpus, b), more_allocatable(caps)), caps) >= needed,
    ensures
        allocatable_sum(chosen_gpus(gpus, b, needed, caps), caps) >= needed,
{
    let eligible = eligible_gpus(gpus, b);
    let leq = more_allocatable(caps);
    assert(ranks(leq));
    law_sorted_by(eligible, leq);
    let best = sorted_by(eligible, leq);
    if best.len() == 0 {
        assert(allocatable_sum(best, caps) == 0);
        assert(false);
    }
    lemma_cover_len(best, needed, caps, 1);
    let k = cover_len(best, needed, caps, 1);
    assert(ranks(lower_index(b)));
    law_sorted_by(best.take(k), lower_index(b));
    lemma_sum_of_rearranged(best.take(k), chosen_gpus(gpus, b, needed, caps), caps);
}

pub proof fn lemma_sum_of_rearranged(a: Seq<GpuInfo>, c: Seq<GpuInfo>, caps: Caps)
    requires
        a.to_multiset() == c.to_multiset(),
    ensures
        allocatable_sum(a, caps) == allocatable_sum(c, caps),
    decreases a.len(),
{
    broadcast use vstd::seq_lib::group_seq_properties;

    a.to_multiset_ensures();
    c.to_multiset_ensures();
    assert(a.len() == c.len());
    if a.len() > 0 {
        let x = a.last();
        assert(a.contains(x));
        assert(a.to_multiset().count(x) > 0);
        assert(c.contains(x));
        let p = choose|p: int| 0 <= p < c.len() && c[p] == x;
        lemma_sum_without(c, p, caps);
        assert(a =~= a.drop_last().push(x));
        assert(a.drop_last().to_multiset() =~= a.to_multiset().remove(x)) by {
            a.drop_last().to_multiset_ensures();
        }
        assert(c.remove(p).to_multiset() =~= c.to_multiset().remove(x));
        lemma_sum_of_rearranged(a.drop_last(), c.remove(p), caps);
    }
}

proof fn lemma_sum_without(c: Seq<GpuInfo>, p: int, caps: Caps)
    requires
        0 <= p < c.len(),
    ensures
        allocatable_sum(c, caps) == allocatable_sum(c.remove(p), caps) + c[p].allocatable(
            caps.gpu,
            caps.display,
        ),
    decreases c.len(),
{
    if p == c.len() - 1 {
        assert(c.remove(p) =~= c.drop_last());
    } else {
        lemma_sum_without(c.drop_last(), p, caps);
        assert(c.remove(p).drop_last() =~= c.drop_last().remove(p));
    }
}

} // verus!
