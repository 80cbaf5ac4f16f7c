//! What holds of the figures that the dashboard shows.
use vstd::prelude::*;
use vstd::string::*;

use crate::binary::rounded;
use crate::config::backend::Backend;
use crate::order::text_leq;
use crate::system::stats::SystemStats;
use crate::text::decimal;
use crate::ui::templates::{
    fill, is_card, is_host, is_sum, row_order, small, total_sum, used_sum, GpuDisplay, GpuTotals,
    ModelDisplay, SystemDisplay,
};
use crate::units::{busy_band, busy_percent, gib_of, nearest, percent, Band};
use crate::vram::tracker::GpuInfo;

verus! {

broadcast use vstd::string::group_string_axioms;

/// Rounding goes to the nearest integer, and from the middle to the even one.
pub proof fn law_rounding_goes_to_the_nearest(num: nat, den: nat)
    requires
        den > 0,
    ensures
        2 * nearest(num, den) * den <= 2 * num + den,
        2 * num <= 2 * nearest(num, den) * den + den,
        2 * num == 2 * nearest(num, den) * den + den || 2 * nearest(num, den) * den == 2 * num + den
            ==> nearest(num, den) % 2 == 0,
{
    let q = num / den;
    let r = num % den;
    vstd::arithmetic::div_mod::lemma_fundamental_div_mod(num as int, den as int);
    let n = nearest(num, den);
    assert(num == q * den + r) by (nonlinear_arith)
        requires
            num == den * q + r,
    ;
    assert((q + 1) * den == q * den + den) by (nonlinear_arith);
    assert(2 * q * den == 2 * (q * den)) by (nonlinear_arith);
    assert(2 * (q + 1) * den == 2 * ((q + 1) * den)) by (nonlinear_arith);
    if n == q {
        assert(2 * n * den == 2 * (q * den));
    } else {
        assert(2 * n * den == 2 * ((q + 1) * den));
    }
}

/// A size is told in gibibytes with one decimal place, rounded to the nearest
/// tenth.
pub proof fn law_sizes_are_told_in_gibibytes(bytes: nat, t: nat)
    requires
        rounded(bytes, 9007199254740992) == bytes,
        t == nearest(bytes * 10, 1073741824),
    ensures
        gib_of(bytes) == decimal(t / 10) + seq!['.'] + decimal(t % 10),
{
    assert(decimal(t / 10).push('.') + decimal(t % 10) =~= decimal(t / 10) + seq!['.'] + decimal(
        t % 10,
    ));
}

/// More than ninety percent is red, more than seventy yellow, and anything else
/// green; so is a share of nothing.
pub proof fn law_shares_have_their_colour(part: nat, whole: nat)
    requires
        part <= 1000000000000,
        0 < whole < 1000000000000,
    ensures
        part * 100 > 90 * whole ==> fill(part, whole) == "red"@,
        70 * whole < part * 100 <= 90 * whole ==> fill(part, whole) == "yellow"@,
        part * 100 <= 70 * whole ==> fill(part, whole) == "green"@,
        fill(part, 0) == "green"@,
        busy_band(part, 0) == Band::Green,
        percent(part, 0) == 0,
        busy_percent(part, 0) == 0,
{
}

/// A card shows what its GPU holds: what is in use, what there is, what is free
/// and how much of it is in use.
pub proof fn law_a_card_shows_the_memory(d: GpuDisplay, g: GpuInfo, gpu_cap: int, display_cap: int)
    requires
        is_card(d, g, gpu_cap, display_cap),
    ensures
        d.id == g.id,
        d.used_gib_str@ == gib_of(g.used_vram as nat),
        d.total_gib_str@ == gib_of(g.total_vram as nat),
        g.used_vram <= g.total_vram ==> d.free_gib_str@ == gib_of((g.total_vram - g.used_vram) as nat),
        g.used_vram > g.total_vram ==> d.free_gib_str@ == gib_of(0),
        d.usage_pct_str@ == decimal(percent(g.used_vram as nat, g.total_vram as nat)),
        d.usage_class@ == fill(g.used_vram as nat, g.total_vram as nat),
        d.busy_pct_str@ == decimal(g.busy_pct as nat),
{
}

/// A card names the backends of its GPU in their order, and no other.
pub proof fn law_a_card_names_the_backends(d: GpuDisplay, g: GpuInfo, gpu_cap: int, display_cap: int)
    requires
        is_card(d, g, gpu_cap, display_cap),
    ensures
        g.tags.vulkan && !g.tags.cuda && !g.tags.rocm && !g.tags.sycl ==> d.tags_str@ == "vulkan"@,
        !g.tags.vulkan && g.tags.cuda && !g.tags.rocm && !g.tags.sycl ==> d.tags_str@ == "cuda"@,
        !g.tags.vulkan && !g.tags.cuda && g.tags.rocm && !g.tags.sycl ==> d.tags_str@ == "rocm"@,
        !g.tags.vulkan && !g.tags.cuda && !g.tags.rocm && g.tags.sycl ==> d.tags_str@ == "sycl"@,
        !g.tags.vulkan && !g.tags.cuda && !g.tags.rocm && !g.tags.sycl ==> d.tags_str@.len() == 0,
{
    reveal(Seq::filter);
    reveal_with_fuel(Seq::filter, 6);
    let p = |b: Backend| g.tags.has(b);
    let all = seq![Backend::Vulkan, Backend::Cuda, Backend::Rocm, Backend::Sycl];
    assert(all.drop_last() =~= seq![Backend::Vulkan, Backend::Cuda, Backend::Rocm]);
    assert(all.drop_last().drop_last() =~= seq![Backend::Vulkan, Backend::Cuda]);
    assert(all.drop_last().drop_last().drop_last() =~= seq![Backend::Vulkan]);
    assert(all.drop_last().drop_last().drop_last().drop_last() =~= Seq::<Backend>::empty());
    assert(g.tags.members() == all.filter(p));
}

/// Loaded models stand first, whatever the column; a column that is not known
/// orders by name, and where a column leaves rows alike, the name and then the
/// id decides.
pub proof fn law_names_order_what_is_alike(a: ModelDisplay, b: ModelDisplay, key: Seq<char>)
    ensures
        a.loaded_sort_key < b.loaded_sort_key ==> row_order(key, true)(a, b) && row_order(
            key,
            false,
        )(a, b) && !row_order(key, true)(b, a) && !row_order(key, false)(b, a),
        a.loaded_sort_key == b.loaded_sort_key && !seq![
            "state"@,
            "status"@,
            "context"@,
            "file-size"@,
            "vram"@,
            "activity"@,
            "actions"@,
        ].contains(key) && small(a.name@) != small(b.name@) ==> {
            &&& row_order(key, true)(a, b) == text_leq(small(a.name@), small(b.name@))
            &&& row_order(key, false)(a, b) != text_leq(small(a.name@), small(b.name@))
        },
        a.loaded_sort_key == b.loaded_sort_key && a.context_tokens == b.context_tokens ==> {
            &&& small(a.name@) != small(b.name@) ==> row_order("context"@, true)(a, b) == text_leq(
                small(a.name@),
                small(b.name@),
            )
            &&& small(a.name@) == small(b.name@) ==> row_order("context"@, true)(a, b) == text_leq(
                a.id@,
                b.id@,
            )
        },
{
    let known = seq![
        "state"@,
        "status"@,
        "context"@,
        "file-size"@,
        "vram"@,
        "activity"@,
        "actions"@,
    ];
    assert(known[0] == "state"@ && known[1] == "status"@ && known[2] == "context"@ && known[3]
        == "file-size"@ && known[4] == "vram"@ && known[5] == "activity"@ && known[6]
        == "actions"@);
    reveal_strlit("state");
    reveal_strlit("status");
    reveal_strlit("context");
    assert("context"@.len() != "state"@.len() && "context"@.len() != "status"@.len());
}

/// The totals are those of all GPUs together: what is free is what is not in
/// use.
pub proof fn law_totals_add_up(d: GpuTotals, gpus: Seq<GpuInfo>)
    requires
        is_sum(d, gpus),
    ensures
        d.count == gpus.len(),
        d.vram_used_gib_str@ == gib_of(used_sum(gpus)),
        d.vram_total_gib_str@ == gib_of(total_sum(gpus)),
        used_sum(gpus) <= total_sum(gpus) ==> d.vram_free_gib_str@ == gib_of(
            (total_sum(gpus) - used_sum(gpus)) as nat,
        ),
        d.vram_pct_str@ == decimal(percent(used_sum(gpus), total_sum(gpus))),
        d.vram_class@ == fill(used_sum(gpus), total_sum(gpus)),
{
}

/// The figures of the machine are those of its reports.
pub proof fn law_the_machine_is_shown_as_reported(d: SystemDisplay, s: SystemStats)
    requires
        is_host(d, s),
    ensures
        d.ram_used_gib_str@ == gib_of(s.ram_used as nat),
        d.ram_total_gib_str@ == gib_of(s.ram_total as nat),
        d.ram_pct_str@ == decimal(percent(s.ram_used as nat, s.ram_total as nat)),
        d.ram_class@ == fill(s.ram_used as nat, s.ram_total as nat),
        d.cpu_pct_str@ == decimal(busy_percent(s.cpu.busy as nat, s.cpu.total as nat)),
        d.cpu_class@ == busy_band(s.cpu.busy as nat, s.cpu.total as nat).name(),
        s.cpu_temp_milli is None ==> d.cpu_temp_c_str@ == "—"@ && d.cpu_temp_class@ == "muted"@,
        s.cpu_temp_milli matches Some(t) ==> {
            &&& t > 85000 ==> d.cpu_temp_class@ == "red"@
            &&& 70000 < t <= 85000 ==> d.cpu_temp_class@ == "yellow"@
            &&& t <= 70000 ==> d.cpu_temp_class@ == "green"@
        },
{
}

} // verus!
