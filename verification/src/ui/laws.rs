//! What holds of everything that the dashboard shows.
use vstd::prelude::*;
use vstd::string::*;

use crate::config::model::{ModelConfig, ModelState, WeightsFormat};
use crate::process::manager::ModelRuntime;
use crate::text::{decimal, has_infix, lower, trim};
use crate::ui::templates::{
    busy_sum, gpu_label, is_card, is_row, plain, row_filter, row_order, total_sum, used_sum,
    GpuDisplay, ModelDisplay, PerfTexts,
};
use crate::units::gib_of;
use crate::vram::tracker::GpuInfo;

verus! {

broadcast use vstd::string::group_string_axioms;

/// A row shows its model: the state in words and as a class, whether it is
/// loaded, what can be done with it, its sizes and its figures.
pub proof fn law_a_row_shows_its_model(
    d: ModelDisplay,
    m: ModelConfig,
    disk_size: u64,
    rt: ModelRuntime,
    perf: Option<PerfTexts>,
)
    requires
        is_row(d, m, disk_size, rt, perf),
    ensures
        m.state is Running ==> d.state_class@ == "running"@ && d.state_display@ == "Running"@
            && d.primary_action_sort@ == "stop"@ && d.is_loaded,
        m.state is Loading ==> d.state_class@ == "loading"@ && d.state_display@ == "Loading"@
            && d.primary_action_sort@ == "edit"@ && d.is_loaded,
        m.state is Idle ==> d.state_class@ == "idle"@ && d.state_display@ == "Idle"@
            && d.primary_action_sort@ == "load"@ && !d.is_loaded,
        m.state matches ModelState::Error(e) ==> d.state_class@ == "error"@ && d.state_display@
            == "Error: "@ + e@ && d.primary_action_sort@ == "load"@ && !d.is_loaded,
        d.is_loaded <==> d.loaded_sort_key == 0,
        m.weights_format == WeightsFormat::Gguf ==> d.required_vram_bytes == m.estimated_vram,
        m.weights_format == WeightsFormat::Safetensors ==> d.required_vram_bytes == 0
            && d.file_size_bytes == disk_size,
        m.weights_format == WeightsFormat::Gguf && m.gguf_meta is Some ==> d.file_size_bytes
            == m.gguf_meta->0.file_size,
        m.weights_format == WeightsFormat::Gguf && m.gguf_meta is None ==> d.file_size_bytes
            == disk_size,
        d.file_size_bytes == 0 ==> d.file_size_gib_str@ == "—"@,
        d.required_vram_bytes == 0 ==> d.required_vram_gib_str@ == "—"@,
        m.context < 1024 ==> d.context_str@ == decimal(m.context as nat),
        m.context >= 1024 ==> d.context_str@ == decimal((m.context / 1024) as nat) + "K"@,
        d.id == m.id && d.name == m.name,
        d.context_tokens == m.context,
        m.state is Running ==> d.state_sort_key == 0,
        m.state is Loading ==> d.state_sort_key == 1,
        m.state is Idle ==> d.state_sort_key == 2,
        m.state is Error ==> d.state_sort_key == 3,
        d.file_size_bytes > 0 ==> d.file_size_gib_str@ == gib_of(d.file_size_bytes as nat),
        d.required_vram_bytes > 0 ==> d.required_vram_gib_str@ == gib_of(
            d.required_vram_bytes as nat,
        ),
        d.running_instances == rt.instances,
        d.active_requests == rt.active,
        d.pending_instances == rt.pending,
        perf is Some && perf->0.samples > 0 ==> d.has_perf && d.decode_tps_str@ == perf->0.decode@
            && d.prefill_tps_str@ == perf->0.prefill@,
        perf is None || perf->0.samples == 0 ==> !d.has_perf && d.decode_tps_str@ == "—"@
            && d.prefill_tps_str@ == "—"@,
{
}

/// A row is shown for a query exactly where the query is blank or stands in the
/// id, the name or the state, whatever the case of the letters.
pub proof fn law_a_query_is_looked_for(m: ModelDisplay, query: Seq<char>)
    requires
        plain(m.id@),
        plain(m.name@),
        plain(m.state_class@),
        plain(trim(query)),
    ensures
        row_filter(query)(m) <==> (trim(query).len() == 0 || has_infix(
            lower(m.id@),
            lower(trim(query)),
        ) || has_infix(lower(m.name@), lower(trim(query))) || has_infix(
            lower(m.state_class@),
            lower(trim(query)),
        )),
{
}

proof fn lemma_keys()
    ensures
        "state"@.len() == 5,
        "status"@.len() == 6,
        "context"@.len() == 7,
        "file-size"@.len() == 9,
        "vram"@.len() == 4,
        "activity"@.len() == 8,
        "actions"@.len() == 7,
        "actions"@[0] == 'a',
        "context"@[0] == 'c',
{
    reveal_strlit("state");
    reveal_strlit("status");
    reveal_strlit("context");
    reveal_strlit("file-size");
    reveal_strlit("vram");
    reveal_strlit("activity");
    reveal_strlit("actions");
}

/// Within the loaded and within the other models, a column orders the rows by
/// its own figure, upward or downward as it is asked for.
pub proof fn law_a_column_orders_by_its_figure(a: ModelDisplay, b: ModelDisplay)
    requires
        a.loaded_sort_key == b.loaded_sort_key,
    ensures
        a.context_tokens < b.context_tokens ==> row_order("context"@, true)(a, b) && !row_order(
            "context"@,
            true,
        )(b, a) && row_order("context"@, false)(b, a) && !row_order("context"@, false)(a, b),
        a.state_sort_key < b.state_sort_key ==> row_order("state"@, true)(a, b) && !row_order(
            "state"@,
            true,
        )(b, a) && row_order("state"@, false)(b, a),
        0 < a.file_size_bytes < b.file_size_bytes ==> row_order("file-size"@, true)(a, b)
            && !row_order("file-size"@, true)(b, a) && row_order("file-size"@, false)(b, a),
        0 < a.required_vram_bytes < b.required_vram_bytes ==> row_order("vram"@, true)(a, b)
            && !row_order("vram"@, true)(b, a) && row_order("vram"@, false)(b, a),
        a.active_requests + a.pending_instances < b.active_requests + b.pending_instances
            ==> row_order("activity"@, true)(a, b) && !row_order("activity"@, true)(b, a)
            && row_order("activity"@, false)(b, a),
        a.required_vram_bytes == 0 && b.required_vram_bytes > 0 ==> !row_order("vram"@, true)(a, b)
            && !row_order("vram"@, false)(a, b),
{
    lemma_keys();
}

/// The busier of two running models stands before the other in the column of
/// the status, downward; and running stands above loading above idle above
/// failed.
pub proof fn law_the_status_ranks_by_work(a: ModelDisplay, b: ModelDisplay)
    requires
        a.active_requests < 1000 && b.active_requests < 1000,
        a.running_instances < 100 && b.running_instances < 100,
    ensures
        a.state_sort_key == b.state_sort_key && a.active_requests > b.active_requests
            ==> a.status_rank() > b.status_rank(),
        a.state_sort_key == b.state_sort_key && a.active_requests == b.active_requests
            && a.running_instances > b.running_instances ==> a.status_rank() > b.status_rank(),
        a.state_sort_key == 0 && 0 < b.state_sort_key <= 3 ==> a.status_rank() > b.status_rank(),
{
}

/// A card shows its GPU under the cap that applies to it, which is the lower
/// one where a monitor is attached.
pub proof fn law_a_card_shows_its_gpu(d: GpuDisplay, g: GpuInfo, gpu_cap: int, display_cap: int)
    requires
        is_card(d, g, gpu_cap, display_cap),
    ensures
        d.vram_cap_str@ == decimal((if g.display_attached {
            display_cap
        } else {
            gpu_cap
        }) as nat) + "%"@,
        d.display_attached == g.display_attached,
        g.vulkan_device is None ==> d.label@ == g.id@,
        g.vulkan_device is Some && g.pci_bus_id is None ==> d.label@ == g.vulkan_device->0@,
        g.vulkan_device is Some && g.pci_bus_id is Some ==> d.label@ == g.vulkan_device->0@ + " / "@
            + g.pci_bus_id->0@,
        g.pci_bus_id is None ==> d.pci_bus_id@.len() == 0,
        g.pci_bus_id matches Some(p) ==> d.pci_bus_id@ == p@,
        g.busy_pct > 90 ==> d.busy_class@ == "red"@,
        70 < g.busy_pct <= 90 ==> d.busy_class@ == "yellow"@,
        g.busy_pct <= 70 ==> d.busy_class@ == "green"@,
        g.temp_c is None ==> d.temp_c_str@ == "—"@ && d.temp_class@ == "muted"@,
        g.temp_c matches Some(t) ==> {
            &&& t > 85000 ==> d.temp_class@ == "red"@
            &&& 70000 < t <= 85000 ==> d.temp_class@ == "yellow"@
            &&& t <= 70000 ==> d.temp_class@ == "green"@
        },
{
    if g.vulkan_device is Some && g.pci_bus_id is Some {
        assert(gpu_label(g) == g.vulkan_device->0@ + " / "@ + g.pci_bus_id->0@);
    }
}

/// All GPUs together are counted one by one.
pub proof fn law_gpus_are_added_up(s: Seq<GpuInfo>, g: GpuInfo)
    ensures
        used_sum(s.push(g)) == used_sum(s) + g.used_vram,
        total_sum(s.push(g)) == total_sum(s) + g.total_vram,
        busy_sum(s.push(g)) == busy_sum(s) + g.busy_pct,
        used_sum(Seq::empty()) == 0 && total_sum(Seq::empty()) == 0 && busy_sum(Seq::empty()) == 0,
{
    assert(s.push(g).drop_last() =~= s);
}

} // verus!
