//! Rows and figures of the dashboard, ready to be shown.
use vstd::prelude::*;
use vstd::string::*;

use crate::api::state::{runtime_in, runtime_of};
use crate::config::backend::Backend;
use crate::config::model::{ModelConfig, ModelState, WeightsFormat};
use crate::order::{
    lemma_text_leq_antisymmetric, lemma_text_leq_total, lemma_text_leq_transitive, ordered, ranks,
    sort_stable, sorted_by, text_le, text_leq,
};
use crate::process::manager::{ModelRuntime, NamedRuntime};
use crate::system::stats::{SystemStats, MOST_TIME};
use crate::table::Table;
use crate::text::{
    contains_text, decimal, decimal_text, has_infix, is_digit, join, join_texts, lower,
    same_ignoring_case, same_text, same_text_ignoring_case, texts, trim, trim_text,
};
use crate::units::{
    band, band_of, band_of_load, band_of_share, busy_band, busy_percent, busy_text, degrees_text,
    gib_of, gib_text, large_decimal, nearest, percent, percent_text, round_nearest, share_band,
    whole_degrees,
};
use crate::vram::tracker::GpuInfo;

verus! {

broadcast use vstd::string::group_string_axioms;

// ----- temperatures -----

/// A temperature in whole degrees.
pub open spec fn degrees(milli: Option<i64>) -> Seq<char> {
    match milli {
        Some(t) => if t < 0 {
            "-"@ + decimal(whole_degrees((-t) as nat))
        } else {
            decimal(whole_degrees(t as nat))
        },
        None => "—"@,
    }
}

/// The colour of a temperature: red above 85 degrees, yellow above 70.
pub open spec fn heat(milli: Option<i64>) -> Seq<char> {
    match milli {
        Some(t) => if t > 85000 {
            "red"@
        } else if t > 70000 {
            "yellow"@
        } else {
            "green"@
        },
        None => "muted"@,
    }
}

fn temp_text(milli: Option<i64>) -> (r: String)
    ensures
        r@ == degrees(milli),
{
    match milli {
        Some(t) => {
            if t < 0 {
                "-".to_owned().concat(degrees_text((-(t as i128)) as u64).as_str())
            } else {
                degrees_text(t as u64)
            }
        },
        None => "—".to_owned(),
    }
}

fn temp_class(milli: Option<i64>) -> (r: String)
    ensures
        r@ == heat(milli),
{
    match milli {
        Some(t) => if t > 85000 {
            "red".to_owned()
        } else if t > 70000 {
            "yellow".to_owned()
        } else {
            "green".to_owned()
        },
        None => "muted".to_owned(),
    }
}

/// The colour of a share; nothing of nothing is green.
pub open spec fn fill(part: nat, whole: nat) -> Seq<char> {
    if whole == 0 {
        "green"@
    } else {
        share_band(part, whole).name()
    }
}

fn bar_class(part: u64, whole: u64) -> (r: String)
    ensures
        r@ == fill(part as nat, whole as nat),
{
    band_of_share(part, whole).text()
}

// ----- GPUs -----

/// A GPU, ready to be shown.
#[derive(Debug)]
pub struct GpuDisplay {
    pub id: String,
    pub label: String,
    pub pci_bus_id: String,
    pub tags_str: String,
    pub display_attached: bool,
    pub vram_cap_str: String,
    pub used_gib_str: String,
    pub total_gib_str: String,
    pub free_gib_str: String,
    pub usage_pct_str: String,
    pub usage_class: String,
    pub busy_pct_str: String,
    pub busy_class: String,
    pub temp_c_str: String,
    pub temp_class: String,
}

/// What a GPU is called: its Vulkan device with its bus address, or its id.
pub open spec fn gpu_label(gpu: GpuInfo) -> Seq<char> {
    match gpu.vulkan_device {
        Some(dev) => match gpu.pci_bus_id {
            Some(pci) => dev@ + " / "@ + pci@,
            None => dev@,
        },
        None => gpu.id@,
    }
}

/// The tags of some backends.
pub open spec fn tags(s: Seq<Backend>) -> Seq<Seq<char>> {
    s.map_values(|b: Backend| b.tag())
}

fn tag_texts(v: &Vec<Backend>) -> (r: Vec<String>)
    ensures
        texts(r@) == tags(v@),
{
    let mut r: Vec<String> = Vec::new();
    let mut i: usize = 0;
    while i < v.len()
        invariant
            i <= v@.len(),
            r@.len() == i,
            forall|j: int| 0 <= j < i ==> (#[trigger] r@[j])@ == v@[j].tag(),
        decreases v@.len() - i,
    {
        r.push(v[i].as_str().to_owned());
        i += 1;
    }
    assert(texts(r@) =~= tags(v@));
    r
}

/// Whether a card shows a GPU under the caps.
pub open spec fn is_card(d: GpuDisplay, gpu: GpuInfo, gpu_cap_pct: int, display_cap_pct: int) -> bool {
    &&& d.id == gpu.id
    &&& d.label@ == gpu_label(gpu)
    &&& d.pci_bus_id@ == (match gpu.pci_bus_id {
        Some(p) => p@,
        None => Seq::empty(),
    })
    &&& d.tags_str@ == join(tags(gpu.tags.members()), " · "@)
    &&& d.display_attached == gpu.display_attached
    &&& d.vram_cap_str@ == decimal(
        gpu.cap(gpu_cap_pct, display_cap_pct) as nat,
    ) + "%"@
    &&& d.used_gib_str@ == gib_of(gpu.used_vram as nat)
    &&& d.total_gib_str@ == gib_of(gpu.total_vram as nat)
    &&& d.free_gib_str@ == gib_of(gpu.free() as nat)
    &&& d.usage_pct_str@ == decimal(percent(gpu.used_vram as nat, gpu.total_vram as nat))
    &&& d.usage_class@ == fill(gpu.used_vram as nat, gpu.total_vram as nat)
    &&& d.busy_pct_str@ == decimal(gpu.busy_pct as nat)
    &&& d.busy_class@ == band(gpu.busy_pct as nat, 1).name()
    &&& d.temp_c_str@ == degrees(gpu.temp_c)
    &&& d.temp_class@ == heat(gpu.temp_c)
}

impl GpuDisplay {
    /// A GPU, ready to be shown.
    pub fn from_gpu(gpu: &GpuInfo, gpu_cap_pct: u64, display_cap_pct: u64) -> (r: GpuDisplay)
        ensures
            is_card(r, *gpu, gpu_cap_pct as int, display_cap_pct as int),
    {
        let label = match &gpu.vulkan_device {
            Some(dev) => match &gpu.pci_bus_id {
                Some(pci) => dev.clone().concat(" / ").concat(pci.as_str()),
                None => dev.clone(),
            },
            None => gpu.id.clone(),
        };
        let pci_bus_id = match &gpu.pci_bus_id {
            Some(p) => p.clone(),
            None => {
                let s = String::new();
                assert(s@ =~= Seq::empty());
                s
            },
        };
        let members = gpu.tags.list();
        let names = tag_texts(&members);
        let cap = gpu.vram_cap_pct(gpu_cap_pct, display_cap_pct);
        GpuDisplay {
            id: gpu.id.clone(),
            label,
            pci_bus_id,
            tags_str: join_texts(&names, " · "),
            display_attached: gpu.display_attached,
            vram_cap_str: decimal_text(cap).concat("%"),
            used_gib_str: gib_text(gpu.used_vram),
            total_gib_str: gib_text(gpu.total_vram),
            free_gib_str: gib_text(gpu.free_vram()),
            usage_pct_str: percent_text(gpu.used_vram, gpu.total_vram),
            usage_class: bar_class(gpu.used_vram, gpu.total_vram),
            busy_pct_str: decimal_text(gpu.busy_pct as u64),
            busy_class: band_of(gpu.busy_pct as u128, 1).text(),
            temp_c_str: temp_text(gpu.temp_c),
            temp_class: temp_class(gpu.temp_c),
        }
    }
}

/// All GPUs together, ready to be shown: their memory added up, and the mean
/// of their load.
#[derive(Debug)]
pub struct GpuTotals {
    pub count: usize,
    pub vram_used_gib_str: String,
    pub vram_total_gib_str: String,
    pub vram_free_gib_str: String,
    pub vram_pct_str: String,
    pub vram_class: String,
    pub busy_pct_str: String,
    pub busy_class: String,
}

/// The used memory of all GPUs.
pub open spec fn used_sum(s: Seq<GpuInfo>) -> nat
    decreases s.len(),
{
    if s.len() == 0 {
        0
    } else {
        used_sum(s.drop_last()) + s.last().used_vram as nat
    }
}

/// The memory of all GPUs.
pub open spec fn total_sum(s: Seq<GpuInfo>) -> nat
    decreases s.len(),
{
    if s.len() == 0 {
        0
    } else {
        total_sum(s.drop_last()) + s.last().total_vram as nat
    }
}

/// The loads of all GPUs added up.
pub open spec fn busy_sum(s: Seq<GpuInfo>) -> nat
    decreases s.len(),
{
    if s.len() == 0 {
        0
    } else {
        busy_sum(s.drop_last()) + s.last().busy_pct as nat
    }
}

proof fn lemma_sums_grow(s: Seq<GpuInfo>, i: int)
    requires
        0 <= i <= s.len(),
    ensures
        used_sum(s.take(i)) <= used_sum(s),
        total_sum(s.take(i)) <= total_sum(s),
    decreases s.len() - i,
{
    if i < s.len() {
        lemma_sums_grow(s, i + 1);
        assert(s.take(i + 1).drop_last() =~= s.take(i));
    } else {
        assert(s.take(i) =~= s);
    }
}

/// Whether the totals are those of the GPUs.
pub open spec fn is_sum(d: GpuTotals, gpus: Seq<GpuInfo>) -> bool {
    &&& d.count == gpus.len()
    &&& d.vram_used_gib_str@ == gib_of(used_sum(gpus))
    &&& d.vram_total_gib_str@ == gib_of(total_sum(gpus))
    &&& d.vram_free_gib_str@ == gib_of(
        if used_sum(gpus) <= total_sum(gpus) {
            (total_sum(gpus) - used_sum(gpus)) as nat
        } else {
            0
        },
    )
    &&& d.vram_pct_str@ == decimal(percent(used_sum(gpus), total_sum(gpus)))
    &&& d.vram_class@ == fill(used_sum(gpus), total_sum(gpus))
    &&& d.busy_pct_str@ == decimal(
        if gpus.len() == 0 {
            0
        } else {
            nearest(busy_sum(gpus), gpus.len())
        },
    )
    &&& d.busy_class@ == band(busy_sum(gpus), gpus.len()).name()
}

impl GpuTotals {
    /// All GPUs together, ready to be shown.
    pub fn from_gpus(gpus: &[GpuInfo]) -> (r: GpuTotals)
        requires
            used_sum(gpus@) <= u64::MAX,
            total_sum(gpus@) <= u64::MAX,
        ensures
            is_sum(r, gpus@),
    {
        let count = gpus.len();
        let mut used: u64 = 0;
        let mut total: u64 = 0;
        let mut busy: u128 = 0;
        let mut i: usize = 0;
        assert(gpus@.take(0) =~= Seq::empty());
        while i < count
            invariant
                i <= count == gpus@.len(),
                used_sum(gpus@) <= u64::MAX,
                total_sum(gpus@) <= u64::MAX,
                used == used_sum(gpus@.take(i as int)),
                total == total_sum(gpus@.take(i as int)),
                busy == busy_sum(gpus@.take(i as int)),
                busy <= i * 255,
            decreases count - i,
        {
            proof {
                lemma_sums_grow(gpus@, i + 1);
                assert(gpus@.take(i + 1).drop_last() =~= gpus@.take(i as int));
            }
            used = used + gpus[i].used_vram;
            total = total + gpus[i].total_vram;
            busy = busy + gpus[i].busy_pct as u128;
            i += 1;
        }
        assert(gpus@.take(i as int) =~= gpus@);
        let free = total.saturating_sub(used);
        let busy_pct_str = if count == 0 {
            decimal_text(0)
        } else {
            large_decimal(round_nearest(busy, count as u128))
        };
        let busy_class = band_of(busy, count as u128).text();
        GpuTotals {
            count,
            vram_used_gib_str: gib_text(used),
            vram_total_gib_str: gib_text(total),
            vram_free_gib_str: gib_text(free),
            vram_pct_str: percent_text(used, total),
            vram_class: bar_class(used, total),
            busy_pct_str,
            busy_class,
        }
    }
}

// ----- the machine -----

/// The state of the machine, ready to be shown.
#[derive(Debug)]
pub struct SystemDisplay {
    pub cpu_pct_str: String,
    pub cpu_class: String,
    pub ram_used_gib_str: String,
    pub ram_total_gib_str: String,
    pub ram_pct_str: String,
    pub ram_class: String,
    pub cpu_temp_c_str: String,
    pub cpu_temp_class: String,
}

/// Whether the figures are those of the machine.
pub open spec fn is_host(d: SystemDisplay, s: SystemStats) -> bool {
    &&& d.cpu_pct_str@ == decimal(busy_percent(s.cpu.busy as nat, s.cpu.total as nat))
    &&& d.cpu_class@ == busy_band(s.cpu.busy as nat, s.cpu.total as nat).name()
    &&& d.ram_used_gib_str@ == gib_of(s.ram_used as nat)
    &&& d.ram_total_gib_str@ == gib_of(s.ram_total as nat)
    &&& d.ram_pct_str@ == decimal(percent(s.ram_used as nat, s.ram_total as nat))
    &&& d.ram_class@ == fill(s.ram_used as nat, s.ram_total as nat)
    &&& d.cpu_temp_c_str@ == degrees(s.cpu_temp_milli)
    &&& d.cpu_temp_class@ == heat(s.cpu_temp_milli)
}

impl SystemDisplay {
    /// The state of the machine, ready to be shown.
    pub fn from_stats(s: SystemStats) -> (r: SystemDisplay)
        requires
            s.cpu.busy <= s.cpu.total <= MOST_TIME,
        ensures
            is_host(r, s),
    {
        SystemDisplay {
            cpu_pct_str: busy_text(s.cpu.busy, s.cpu.total),
            cpu_class: band_of_load(s.cpu.busy, s.cpu.total).text(),
            ram_used_gib_str: gib_text(s.ram_used),
            ram_total_gib_str: gib_text(s.ram_total),
            ram_pct_str: percent_text(s.ram_used, s.ram_total),
            ram_class: bar_class(s.ram_used, s.ram_total),
            cpu_temp_c_str: temp_text(s.cpu_temp_milli),
            cpu_temp_class: temp_class(s.cpu_temp_milli),
        }
    }
}

// ----- models -----

/// A model, ready to be shown.
#[derive(Debug)]
pub struct ModelDisplay {
    pub id: String,
    pub name: String,
    pub context_tokens: u32,
    pub context_str: String,
    pub file_size_bytes: u64,
    pub file_size_gib_str: String,
    pub required_vram_bytes: u64,
    pub required_vram_gib_str: String,
    pub state_display: String,
    pub state_class: String,
    pub state_sort_key: u8,
    pub is_loaded: bool,
    pub loaded_sort_key: u8,
    pub primary_action_sort: String,
    pub running_instances: usize,
    pub active_requests: usize,
    pub pending_instances: usize,
    pub decode_tps_str: String,
    pub prefill_tps_str: String,
    pub has_perf: bool,
}

impl Clone for ModelDisplay {
    fn clone(&self) -> (r: Self)
        ensures
            r == *self,
    {
        ModelDisplay {
            id: self.id.clone(),
            name: self.name.clone(),
            context_tokens: self.context_tokens,
            context_str: self.context_str.clone(),
            file_size_bytes: self.file_size_bytes,
            file_size_gib_str: self.file_size_gib_str.clone(),
            required_vram_bytes: self.required_vram_bytes,
            required_vram_gib_str: self.required_vram_gib_str.clone(),
            state_display: self.state_display.clone(),
            state_class: self.state_class.clone(),
            state_sort_key: self.state_sort_key,
            is_loaded: self.is_loaded,
            loaded_sort_key: self.loaded_sort_key,
            primary_action_sort: self.primary_action_sort.clone(),
            running_instances: self.running_instances,
            active_requests: self.active_requests,
            pending_instances: self.pending_instances,
            decode_tps_str: self.decode_tps_str.clone(),
            prefill_tps_str: self.prefill_tps_str.clone(),
            has_perf: self.has_perf,
        }
    }
}

/// Throughput figures, ready to be shown.
#[derive(Debug)]
pub struct PerfTexts {
    pub samples: u64,
    pub decode: String,
    pub prefill: String,
}

/// A context length: in units of 1024 tokens where it has that many.
pub open spec fn context_text(n: u32) -> Seq<char> {
    if n >= 1024 {
        decimal((n / 1024) as nat) + "K"@
    } else {
        decimal(n as nat)
    }
}

fn format_context(n: u32) -> (r: String)
    ensures
        r@ == context_text(n),
{
    if n >= 1024 {
        decimal_text((n / 1024) as u64).concat("K")
    } else {
        decimal_text(n as u64)
    }
}

/// A size in GiB; a dash for none.
pub open spec fn size_text(bytes: nat) -> Seq<char> {
    if bytes == 0 {
        "—"@
    } else {
        gib_of(bytes)
    }
}

fn gib_or_dash(bytes: u64) -> (r: String)
    ensures
        r@ == size_text(bytes as nat),
{
    if bytes == 0 {
        "—".to_owned()
    } else {
        gib_text(bytes)
    }
}

/// The size of a model's file and the memory it needs, where `disk_size` is
/// what was found on disk.
pub open spec fn sizes(m: ModelConfig, disk_size: u64) -> (u64, u64) {
    match m.weights_format {
        WeightsFormat::Gguf => (
            match m.gguf_meta {
                Some(meta) => meta.file_size,
                None => disk_size,
            },
            m.estimated_vram,
        ),
        WeightsFormat::Safetensors => (disk_size, 0),
    }
}

fn compute_sizes(m: &ModelConfig, disk_size: u64) -> (r: (u64, u64))
    ensures
        r == sizes(*m, disk_size),
{
    match m.weights_format {
        WeightsFormat::Gguf => (
            match &m.gguf_meta {
                Some(meta) => meta.file_size,
                None => disk_size,
            },
            m.estimated_vram,
        ),
        WeightsFormat::Safetensors => (disk_size, 0),
    }
}

/// The text and the class of a state.
pub open spec fn state_texts(s: ModelState) -> (Seq<char>, Seq<char>) {
    match s {
        ModelState::Idle => ("Idle"@, "idle"@),
        ModelState::Loading => ("Loading"@, "loading"@),
        ModelState::Running => ("Running"@, "running"@),
        ModelState::Error(msg) => ("Error: "@ + msg@, "error"@),
    }
}

/// The rank of a state: running, loading, idle, failed.
pub open spec fn state_rank(s: ModelState) -> u8 {
    match s {
        ModelState::Running => 0,
        ModelState::Loading => 1,
        ModelState::Idle => 2,
        ModelState::Error(_) => 3,
    }
}

/// What is offered for a model in a state.
pub open spec fn state_action(s: ModelState) -> Seq<char> {
    match s {
        ModelState::Running => "stop"@,
        ModelState::Idle => "load"@,
        ModelState::Error(_) => "load"@,
        ModelState::Loading => "edit"@,
    }
}

impl ModelDisplay {
    /// A model, ready to be shown, without anything of its runtime. The size
    /// on disk counts where the configuration does not tell one.
    pub fn from_model(m: &ModelConfig, disk_size: u64) -> (r: ModelDisplay)
        ensures
            r.id == m.id,
            r.name == m.name,
            r.context_tokens == m.context,
            r.context_str@ == context_text(m.context),
            r.file_size_bytes == sizes(*m, disk_size).0,
            r.file_size_gib_str@ == size_text(r.file_size_bytes as nat),
            r.required_vram_bytes == sizes(*m, disk_size).1,
            r.required_vram_gib_str@ == size_text(r.required_vram_bytes as nat),
            r.state_display@ == state_texts(m.state).0,
            r.state_class@ == state_texts(m.state).1,
            r.state_sort_key == state_rank(m.state),
            r.is_loaded == (state_rank(m.state) <= 1),
            r.loaded_sort_key == (if state_rank(m.state) <= 1 {
                0u8
            } else {
                1
            }),
            r.primary_action_sort@ == state_action(m.state),
            r.running_instances == 0,
            r.active_requests == 0,
            r.pending_instances == 0,
            r.decode_tps_str@ == "—"@,
            r.prefill_tps_str@ == "—"@,
            !r.has_perf,
    {
        let (state_display, state_class, state_sort_key, action) = match &m.state {
            ModelState::Idle => ("Idle".to_owned(), "idle".to_owned(), 2u8, "load".to_owned()),
            ModelState::Loading => (
                "Loading".to_owned(),
                "loading".to_owned(),
                1u8,
                "edit".to_owned(),
            ),
            ModelState::Running => (
                "Running".to_owned(),
                "running".to_owned(),
                0u8,
                "stop".to_owned(),
            ),
            ModelState::Error(msg) => (
                "Error: ".to_owned().concat(msg.as_str()),
                "error".to_owned(),
                3u8,
                "load".to_owned(),
            ),
        };
        let is_loaded = state_sort_key <= 1;
        let (file_size_bytes, required_vram_bytes) = compute_sizes(m, disk_size);
        ModelDisplay {
            id: m.id.clone(),
            name: m.name.clone(),
            context_tokens: m.context,
            context_str: format_context(m.context),
            file_size_bytes,
            file_size_gib_str: gib_or_dash(file_size_bytes),
            required_vram_bytes,
            required_vram_gib_str: gib_or_dash(required_vram_bytes),
            state_display,
            state_class,
            state_sort_key,
            is_loaded,
            loaded_sort_key: if is_loaded {
                0
            } else {
                1
            },
            primary_action_sort: action,
            running_instances: 0,
            active_requests: 0,
            pending_instances: 0,
            decode_tps_str: "—".to_owned(),
            prefill_tps_str: "—".to_owned(),
            has_perf: false,
        }
    }

    /// The model with its throughput, where any request was counted.
    pub fn with_perf(self, perf: Option<&PerfTexts>) -> (r: ModelDisplay)
        ensures
            match perf {
                Some(p) => if p.samples > 0 {
                    r == (ModelDisplay {
                        decode_tps_str: p.decode,
                        prefill_tps_str: p.prefill,
                        has_perf: true,
                        ..self
                    })
                } else {
                    r == self
                },
                None => r == self,
            },
    {
        match perf {
            Some(p) => {
                if p.samples > 0 {
                    ModelDisplay {
                        decode_tps_str: p.decode.clone(),
                        prefill_tps_str: p.prefill.clone(),
                        has_perf: true,
                        ..self
                    }
                } else {
                    self
                }
            },
            None => self,
        }
    }

    /// The model with the figures of its runtime.
    pub fn with_runtime(
        self,
        running_instances: usize,
        active_requests: usize,
        pending_instances: usize,
    ) -> (r: ModelDisplay)
        ensures
            r == (ModelDisplay { running_instances, active_requests, pending_instances, ..self }),
    {
        ModelDisplay { running_instances, active_requests, pending_instances, ..self }
    }

    /// Requests and instances to come, together.
    pub open spec fn activity(&self) -> int {
        self.active_requests + self.pending_instances
    }

    /// Requests and instances to come, together.
    pub fn total_activity(&self) -> (r: usize)
        requires
            self.activity() <= usize::MAX,
        ensures
            r == self.activity(),
    {
        self.active_requests + self.pending_instances
    }

    /// How busy a model is: running before loading before idle before failed,
    /// then by requests, then by instances.
    pub open spec fn status_rank(&self) -> int {
        (if self.state_sort_key == 0 {
            1000000int
        } else if self.state_sort_key == 1 {
            10000
        } else if self.state_sort_key == 2 {
            100
        } else {
            0
        }) + self.active_requests * 100 + self.running_instances
    }

    /// How busy a model is.
    pub fn status_sort_key(&self) -> (r: u64)
        requires
            self.status_rank() <= u64::MAX,
        ensures
            r == self.status_rank(),
    {
        let base: u64 = if self.state_sort_key == 0 {
            1000000
        } else if self.state_sort_key == 1 {
            10000
        } else if self.state_sort_key == 2 {
            100
        } else {
            0
        };
        base + self.active_requests as u64 * 100 + self.running_instances as u64
    }
}

/// Whether any request was counted.
pub open spec fn is_counted(perf: Option<PerfTexts>) -> bool {
    perf is Some && perf->0.samples > 0
}

/// Whether a row shows a model with that size on disk, that runtime and that
/// throughput.
pub open spec fn is_row(
    d: ModelDisplay,
    m: ModelConfig,
    disk_size: u64,
    rt: ModelRuntime,
    perf: Option<PerfTexts>,
) -> bool {
    &&& d.id == m.id
    &&& d.name == m.name
    &&& d.context_tokens == m.context
    &&& d.context_str@ == context_text(m.context)
    &&& d.file_size_bytes == sizes(m, disk_size).0
    &&& d.file_size_gib_str@ == size_text(d.file_size_bytes as nat)
    &&& d.required_vram_bytes == sizes(m, disk_size).1
    &&& d.required_vram_gib_str@ == size_text(d.required_vram_bytes as nat)
    &&& d.state_display@ == state_texts(m.state).0
    &&& d.state_class@ == state_texts(m.state).1
    &&& d.state_sort_key == state_rank(m.state)
    &&& d.is_loaded == (state_rank(m.state) <= 1)
    &&& d.loaded_sort_key == (if state_rank(m.state) <= 1 {
        0u8
    } else {
        1
    })
    &&& d.primary_action_sort@ == state_action(m.state)
    &&& d.running_instances == rt.instances
    &&& d.active_requests == rt.active
    &&& d.pending_instances == rt.pending
    &&& d.decode_tps_str@ == (if is_counted(perf) {
        perf->0.decode@
    } else {
        "—"@
    })
    &&& d.prefill_tps_str@ == (if is_counted(perf) {
        perf->0.prefill@
    } else {
        "—"@
    })
    &&& d.has_perf == is_counted(perf)
}

/// The rows of all models, where `disk_sizes` are their sizes on disk and
/// `perf` is their throughput, as far as it is known.
pub fn model_rows(
    models: &Vec<ModelConfig>,
    disk_sizes: &Vec<u64>,
    runtimes: &Table<NamedRuntime>,
    perf: &Vec<Option<PerfTexts>>,
) -> (r: Vec<ModelDisplay>)
    requires
        runtimes.wf(),
        disk_sizes@.len() == models@.len(),
        perf@.len() == models@.len(),
    ensures
        r@.len() == models@.len(),
        forall|i: int|
            0 <= i < models@.len() ==> is_row(
                #[trigger] r@[i],
                models@[i],
                disk_sizes@[i],
                runtime_in(runtimes@, models@[i].id@),
                perf@[i],
            ),
{
    let mut r: Vec<ModelDisplay> = Vec::new();
    let mut i: usize = 0;
    while i < models.len()
        invariant
            i <= models@.len() == disk_sizes@.len(),
            perf@.len() == models@.len(),
            runtimes.wf(),
            r@.len() == i,
            forall|j: int|
                0 <= j < i ==> is_row(
                    #[trigger] r@[j],
                    models@[j],
                    disk_sizes@[j],
                    runtime_in(runtimes@, models@[j].id@),
                    perf@[j],
                ),
        decreases models@.len() - i,
    {
        let rt = runtime_of(runtimes, models[i].id.as_str());
        let d = ModelDisplay::from_model(&models[i], disk_sizes[i]);
        let d = d.with_runtime(rt.instances, rt.active, rt.pending);
        r.push(d.with_perf(perf[i].as_ref()));
        i += 1;
    }
    r
}

// ----- the order of the rows -----

/// The column by which the rows are sorted, and the direction.
#[derive(Debug, Clone, Copy)]
pub struct ModelSort<'a> {
    pub key: &'a str,
    pub ascending: bool,
}

impl<'a> ModelSort<'a> {
    /// Sorting by a column. Every direction but `desc` is upward.
    pub fn new(key: &'a str, dir: &str) -> (r: ModelSort<'a>)
        ensures
            r.key@ == key@,
            r.ascending == !same_ignoring_case(dir@, "desc"@),
    {
        ModelSort { key, ascending: !same_text_ignoring_case(dir, "desc") }
    }

    /// The class of the head of the column.
    pub fn dir_class(&self) -> (r: &'static str)
        ensures
            r@ == (if self.ascending {
                "sort-asc"@
            } else {
                "sort-desc"@
            }),
    {
        if self.ascending {
            "sort-asc"
        } else {
            "sort-desc"
        }
    }

    /// What screen readers are told of the column.
    pub fn aria(&self) -> (r: &'static str)
        ensures
            r@ == (if self.ascending {
                "ascending"@
            } else {
                "descending"@
            }),
    {
        if self.ascending {
            "ascending"
        } else {
            "descending"
        }
    }
}

/// A text that is not ASCII in small letters, by the rules of Unicode.
pub uninterp spec fn lowercase(s: Seq<char>) -> Seq<char>;

/// Whether a text is ASCII.
pub open spec fn plain(s: Seq<char>) -> bool {
    forall|i: int| 0 <= i < s.len() ==> (#[trigger] s[i] as u32) < 128
}

/// A text in small letters. In ASCII text it is the capitals that change.
pub open spec fn small(s: Seq<char>) -> Seq<char> {
    if plain(s) {
        lower(s)
    } else {
        lowercase(s)
    }
}

/// Puts a text into small letters with `str::to_lowercase`. The claim is that
/// what comes out depends on the text alone, and that in ASCII text it is the
/// capitals that change.
#[verifier::external_body]
fn to_small_letters(s: &str) -> (r: String)
    ensures
        r@ == (if plain(s@) {
            lower(s@)
        } else {
            lowercase(s@)
        }),
{
    s.to_lowercase()
}

/// How one row stands to another.
#[derive(Debug, Clone, Copy, PartialEq, Eq, Structural)]
pub enum Place {
    Before,
    Same,
    After,
}

/// How one number stands to another.
pub open spec fn number_place(a: int, b: int, ascending: bool) -> Place {
    if a == b {
        Place::Same
    } else if (a < b) == ascending {
        Place::Before
    } else {
        Place::After
    }
}

/// How one size stands to another. No size stands after any, in both
/// directions.
pub open spec fn size_place(a: int, b: int, ascending: bool) -> Place {
    if a == 0 && b == 0 {
        Place::Same
    } else if a == 0 {
        Place::After
    } else if b == 0 {
        Place::Before
    } else {
        number_place(a, b, ascending)
    }
}

/// How one text stands to another.
pub open spec fn text_place(a: Seq<char>, b: Seq<char>, ascending: bool) -> Place {
    if a == b {
        Place::Same
    } else if text_leq(a, b) == ascending {
        Place::Before
    } else {
        Place::After
    }
}

/// How one row stands to another in a column, where `an` and `bn` are their
/// names in small letters.
pub open spec fn column_place(
    a: ModelDisplay,
    b: ModelDisplay,
    an: Seq<char>,
    bn: Seq<char>,
    key: Seq<char>,
    ascending: bool,
) -> Place {
    if key == "state"@ {
        number_place(a.state_sort_key as int, b.state_sort_key as int, ascending)
    } else if key == "status"@ {
        number_place(a.status_rank(), b.status_rank(), ascending)
    } else if key == "context"@ {
        number_place(a.context_tokens as int, b.context_tokens as int, ascending)
    } else if key == "file-size"@ {
        size_place(a.file_size_bytes as int, b.file_size_bytes as int, ascending)
    } else if key == "vram"@ {
        size_place(a.required_vram_bytes as int, b.required_vram_bytes as int, ascending)
    } else if key == "activity"@ {
        number_place(a.activity(), b.activity(), ascending)
    } else if key == "actions"@ {
        text_place(a.primary_action_sort@, b.primary_action_sort@, ascending)
    } else {
        text_place(an, bn, ascending)
    }
}

/// Whether a row does not stand after another, where `an` and `bn` are their
/// names in small letters: loaded models first, then by the column, then by
/// name, then by id.
pub open spec fn not_after(
    a: ModelDisplay,
    b: ModelDisplay,
    an: Seq<char>,
    bn: Seq<char>,
    key: Seq<char>,
    ascending: bool,
) -> bool {
    if a.loaded_sort_key != b.loaded_sort_key {
        a.loaded_sort_key < b.loaded_sort_key
    } else {
        match column_place(a, b, an, bn, key, ascending) {
            Place::Before => true,
            Place::After => false,
            Place::Same => if an != bn {
                text_leq(an, bn)
            } else {
                text_leq(a.id@, b.id@)
            },
        }
    }
}

/// The order of the rows.
pub open spec fn row_order(key: Seq<char>, ascending: bool) -> spec_fn(
    ModelDisplay,
    ModelDisplay,
) -> bool {
    |a: ModelDisplay, b: ModelDisplay|
        not_after(a, b, small(a.name@), small(b.name@), key, ascending)
}

fn place_numbers(a: u128, b: u128, ascending: bool) -> (r: Place)
    ensures
        r == number_place(a as int, b as int, ascending),
{
    if a == b {
        Place::Same
    } else if (a < b) == ascending {
        Place::Before
    } else {
        Place::After
    }
}

fn place_sizes(a: u64, b: u64, ascending: bool) -> (r: Place)
    ensures
        r == size_place(a as int, b as int, ascending),
{
    if a == 0 && b == 0 {
        Place::Same
    } else if a == 0 {
        Place::After
    } else if b == 0 {
        Place::Before
    } else {
        place_numbers(a as u128, b as u128, ascending)
    }
}

fn place_texts(a: &str, b: &str, ascending: bool) -> (r: Place)
    ensures
        r == text_place(a@, b@, ascending),
{
    if same_text(a, b) {
        Place::Same
    } else if text_le(a, b) == ascending {
        Place::Before
    } else {
        Place::After
    }
}

fn status_number(m: &ModelDisplay) -> (r: u128)
    ensures
        r == m.status_rank(),
{
    let base: u128 = if m.state_sort_key == 0 {
        1000000
    } else if m.state_sort_key == 1 {
        10000
    } else if m.state_sort_key == 2 {
        100
    } else {
        0
    };
    base + m.active_requests as u128 * 100 + m.running_instances as u128
}

fn compare_key(
    a: &ModelDisplay,
    b: &ModelDisplay,
    an: &str,
    bn: &str,
    key: &str,
    ascending: bool,
) -> (r: Place)
    ensures
        r == column_place(*a, *b, an@, bn@, key@, ascending),
{
    if same_text(key, "state") {
        place_numbers(a.state_sort_key as u128, b.state_sort_key as u128, ascending)
    } else if same_text(key, "status") {
        place_numbers(status_number(a), status_number(b), ascending)
    } else if same_text(key, "context") {
        place_numbers(a.context_tokens as u128, b.context_tokens as u128, ascending)
    } else if same_text(key, "file-size") {
        place_sizes(a.file_size_bytes, b.file_size_bytes, ascending)
    } else if same_text(key, "vram") {
        place_sizes(a.required_vram_bytes, b.required_vram_bytes, ascending)
    } else if same_text(key, "activity") {
        place_numbers(
            a.active_requests as u128 + a.pending_instances as u128,
            b.active_requests as u128 + b.pending_instances as u128,
            ascending,
        )
    } else if same_text(key, "actions") {
        place_texts(a.primary_action_sort.as_str(), b.primary_action_sort.as_str(), ascending)
    } else {
        place_texts(an, bn, ascending)
    }
}

/// Whether a row does not stand after another, where `an` and `bn` are their
/// names in small letters.
pub fn row_not_after(
    a: &ModelDisplay,
    b: &ModelDisplay,
    an: &str,
    bn: &str,
    key: &str,
    ascending: bool,
) -> (r: bool)
    ensures
        r == not_after(*a, *b, an@, bn@, key@, ascending),
{
    if a.loaded_sort_key != b.loaded_sort_key {
        return a.loaded_sort_key < b.loaded_sort_key;
    }
    match compare_key(a, b, an, bn, key, ascending) {
        Place::Before => true,
        Place::After => false,
        Place::Same => if !same_text(an, bn) {
            text_le(an, bn)
        } else {
            text_le(a.id.as_str(), b.id.as_str())
        },
    }
}

/// Whether a row is shown, where all texts are in small letters.
pub open spec fn is_shown(
    id: Seq<char>,
    name: Seq<char>,
    state: Seq<char>,
    needle: Seq<char>,
) -> bool {
    needle.len() == 0 || has_infix(id, needle) || has_infix(name, needle) || has_infix(
        state,
        needle,
    )
}

/// Whether a row is shown, where all texts are in small letters.
pub fn shows(id: &str, name: &str, state: &str, needle: &str) -> (r: bool)
    ensures
        r == is_shown(id@, name@, state@, needle@),
{
    needle.is_empty() || contains_text(id, needle) || contains_text(name, needle) || contains_text(
        state,
        needle,
    )
}

/// Which rows are shown for a query: all for a blank one.
pub open spec fn row_filter(query: Seq<char>) -> spec_fn(ModelDisplay) -> bool {
    |m: ModelDisplay|
        trim(query).len() == 0 || is_shown(
            small(m.id@),
            small(m.name@),
            small(m.state_class@),
            small(trim(query)),
        )
}

proof fn lemma_all_shown(rows: Seq<ModelDisplay>, query: Seq<char>)
    requires
        trim(query).len() == 0,
    ensures
        rows.filter(row_filter(query)) == rows,
    decreases rows.len(),
{
    reveal(Seq::filter);
    if rows.len() > 0 {
        lemma_all_shown(rows.drop_last(), query);
        assert(rows.drop_last().push(rows.last()) =~= rows);
    } else {
        assert(rows.filter(row_filter(query)) =~= rows);
    }
}

/// The rows that are shown for a query, in the order in which they are shown.
pub fn sort_and_filter(displays: Vec<ModelDisplay>, sort: ModelSort<'_>, query: &str) -> (r: Vec<
    ModelDisplay,
>)
    ensures
        r@ == sorted_by(
            displays@.filter(row_filter(query@)),
            row_order(sort.key@, sort.ascending),
        ),
        trim(query@).len() == 0 ==> r@ == sorted_by(
            displays@,
            row_order(sort.key@, sort.ascending),
        ),
{
    let needle = to_small_letters(trim_text(query).as_str());
    let ghost all = displays@;
    let ghost keeps = row_filter(query@);
    let mut kept: Vec<ModelDisplay> = Vec::new();
    assert(all.take(0).filter(keeps) =~= Seq::empty()) by {
        reveal(Seq::filter);
    }
    for m in it: displays
        invariant
            it.seq() == all,
            keeps == row_filter(query@),
            needle@ == small(trim(query@)),
            kept@ == all.take(it.index() as int).filter(keeps),
    {
        proof {
            reveal(Seq::filter);
            assert(all.take(it.index() as int + 1).drop_last() =~= all.take(it.index() as int));
        }
        let id = to_small_letters(m.id.as_str());
        let name = to_small_letters(m.name.as_str());
        let state = to_small_letters(m.state_class.as_str());
        if shows(id.as_str(), name.as_str(), state.as_str(), needle.as_str()) {
            kept.push(m);
        }
    }
    assert(all.take(all.len() as int) =~= all);
    proof {
        if trim(query@).len() == 0 {
            lemma_all_shown(all, query@);
        }
    }
    let key = sort.key;
    let ascending = sort.ascending;
    let le = |a: &ModelDisplay, b: &ModelDisplay| -> (c: bool)
        ensures
            c == row_order(key@, ascending)(*a, *b),
        {
            let an = to_small_letters(a.name.as_str());
            let bn = to_small_letters(b.name.as_str());
            row_not_after(a, b, an.as_str(), bn.as_str(), key, ascending)
        };
    sort_stable(kept, le, Ghost(row_order(key@, ascending)))
}

// ----- events -----

/// An event, ready to be shown.
#[derive(Debug)]
pub struct EventDisplay {
    pub time_str: String,
    pub level: String,
    pub message: String,
}

/// Whether a text is a time of day, such as 09:05:00.
pub open spec fn is_clock(s: Seq<char>) -> bool {
    &&& s.len() == 8
    &&& s[2] == ':'
    &&& s[5] == ':'
    &&& is_digit(s[0]) && is_digit(s[1])
    &&& is_digit(s[3]) && is_digit(s[4])
    &&& is_digit(s[6]) && is_digit(s[7])
}

/// The first second that `chrono` knows a date for, counted from the epoch.
pub const FIRST_SECOND: i64 = -8334601228800;

/// The last second that `chrono` knows a date for, counted from the epoch.
pub const LAST_SECOND: i64 = 8210266876799;

/// The time of day with `chrono::Local`, `timestamp_opt` and `format`. The
/// claim is that a time of day comes out exactly where the second lies within
/// the years that `chrono` knows. Which one it is depends on the time zone of
/// the machine and is left open.
#[verifier::external_body]
fn local_clock(secs: i64) -> (r: Option<String>)
    ensures
        r is Some == (FIRST_SECOND <= secs <= LAST_SECOND),
        r matches Some(s) ==> is_clock(s@),
{
    let t = chrono::TimeZone::timestamp_opt(&chrono::Local, secs, 0).single();
    t.map(|dt| dt.format("%H:%M:%S").to_string())
}

/// Whether an entry shows an event: with a time of day, or with dashes where
/// there is none.
pub open spec fn is_entry(d: EventDisplay, ts: u64, level: Seq<char>, message: String) -> bool {
    &&& if ts / 1000000 <= LAST_SECOND {
        is_clock(d.time_str@)
    } else {
        d.time_str@ == "--:--:--"@
    }
    &&& d.level@ == level
    &&& d.message == message
}

impl EventDisplay {
    /// An event with its time of day, or dashes where there is none.
    pub fn with_clock(clock: Option<String>, level: &str, message: String) -> (r: EventDisplay)
        ensures
            r.time_str@ == (match clock {
                Some(s) => s@,
                None => "--:--:--"@,
            }),
            r.level@ == level@,
            r.message == message,
    {
        let time_str = match clock {
            Some(s) => s,
            None => "--:--:--".to_owned(),
        };
        EventDisplay { time_str, level: level.to_owned(), message }
    }

    /// An event, ready to be shown. The time is in microseconds since the
    /// epoch, and is shown in the time zone of the machine: which time of day
    /// that is, is not stated.
    pub fn new(ts: u64, level: &str, message: String) -> (r: EventDisplay)
        ensures
            is_entry(r, ts, level@, message),
    {
        let secs: u64 = ts / 1000000;
        EventDisplay::with_clock(local_clock(secs as i64), level, message)
    }
}

// ----- pages -----

/// The whole page.
#[derive(Debug)]
pub struct DashboardTemplate {
    pub title: String,
    pub system: SystemDisplay,
    pub gpus: Vec<GpuDisplay>,
    pub gpu_totals: GpuTotals,
    pub events: Vec<EventDisplay>,
    pub models: Vec<ModelDisplay>,
    pub has_any_models: bool,
    pub sort_key: String,
    pub sort_dir_class: String,
    pub sort_aria: String,
    pub server_port: u16,
}

/// The parts of the page that change.
#[derive(Debug)]
pub struct DashboardFragmentTemplate {
    pub system: SystemDisplay,
    pub gpus: Vec<GpuDisplay>,
    pub gpu_totals: GpuTotals,
    pub events: Vec<EventDisplay>,
    pub models: Vec<ModelDisplay>,
    pub has_any_models: bool,
    pub sort_key: String,
    pub sort_dir_class: String,
    pub sort_aria: String,
}

// ----- laws -----

proof fn lemma_text_place(a: Seq<char>, b: Seq<char>, c: Seq<char>, asc: bool)
    ensures
        text_place(a, b, asc) is Before <==> text_place(b, a, asc) is After,
        text_place(a, b, asc) is Same <==> a == b,
        !(text_place(a, b, asc) is After) && !(text_place(b, c, asc) is After) ==> !(text_place(
            a,
            c,
            asc,
        ) is After),
        !(text_place(a, b, asc) is After) && !(text_place(b, c, asc) is After) && text_place(
            a,
            c,
            asc,
        ) is Same ==> a == b && b == c,
{
    lemma_text_leq_total(a, b);
    lemma_text_leq_total(b, c);
    lemma_text_leq_total(a, c);
    if text_leq(a, b) && text_leq(b, a) {
        lemma_text_leq_antisymmetric(a, b);
    }
    if text_leq(b, c) && text_leq(c, b) {
        lemma_text_leq_antisymmetric(b, c);
    }
    if text_leq(a, c) && text_leq(c, a) {
        lemma_text_leq_antisymmetric(a, c);
    }
    if text_leq(a, b) && text_leq(b, c) {
        lemma_text_leq_transitive(a, b, c);
    }
    if text_leq(c, b) && text_leq(b, a) {
        lemma_text_leq_transitive(c, b, a);
    }
}

proof fn lemma_column(
    a: ModelDisplay,
    b: ModelDisplay,
    c: ModelDisplay,
    an: Seq<char>,
    bn: Seq<char>,
    cn: Seq<char>,
    key: Seq<char>,
    asc: bool,
)
    ensures
        column_place(a, b, an, bn, key, asc) is Before <==> column_place(
            b,
            a,
            bn,
            an,
            key,
            asc,
        ) is After,
        !(column_place(a, b, an, bn, key, asc) is After) && !(column_place(
            b,
            c,
            bn,
            cn,
            key,
            asc,
        ) is After) ==> !(column_place(a, c, an, cn, key, asc) is After),
        !(column_place(a, b, an, bn, key, asc) is After) && !(column_place(
            b,
            c,
            bn,
            cn,
            key,
            asc,
        ) is After) && column_place(a, c, an, cn, key, asc) is Same ==> column_place(
            a,
            b,
            an,
            bn,
            key,
            asc,
        ) is Same && column_place(b, c, bn, cn, key, asc) is Same,
{
    lemma_text_place(an, bn, cn, asc);
    lemma_text_place(
        a.primary_action_sort@,
        b.primary_action_sort@,
        c.primary_action_sort@,
        asc,
    );
}

proof fn lemma_not_after(
    a: ModelDisplay,
    b: ModelDisplay,
    c: ModelDisplay,
    an: Seq<char>,
    bn: Seq<char>,
    cn: Seq<char>,
    key: Seq<char>,
    asc: bool,
)
    ensures
        not_after(a, b, an, bn, key, asc) || not_after(b, a, bn, an, key, asc),
        not_after(a, b, an, bn, key, asc) && not_after(b, c, bn, cn, key, asc) ==> not_after(
            a,
            c,
            an,
            cn,
            key,
            asc,
        ),
{
    lemma_column(a, b, c, an, bn, cn, key, asc);
    lemma_column(b, a, c, bn, an, cn, key, asc);
    lemma_column(a, c, b, an, cn, bn, key, asc);
    lemma_text_place(an, bn, cn, true);
    lemma_text_leq_total(an, bn);
    lemma_text_leq_total(a.id@, b.id@);
    if text_leq(an, bn) && text_leq(bn, cn) {
        lemma_text_leq_transitive(an, bn, cn);
    }
    if text_leq(an, bn) && text_leq(bn, an) {
        lemma_text_leq_antisymmetric(an, bn);
    }
    if text_leq(bn, cn) && text_leq(cn, bn) {
        lemma_text_leq_antisymmetric(bn, cn);
    }
    if text_leq(a.id@, b.id@) && text_leq(b.id@, c.id@) {
        lemma_text_leq_transitive(a.id@, b.id@, c.id@);
    }
}

/// The rows that are shown stand in order.
pub proof fn law_rows_are_ordered(rows: Seq<ModelDisplay>, key: Seq<char>, ascending: bool)
    ensures
        ordered(sorted_by(rows, row_order(key, ascending)), row_order(key, ascending)),
        sorted_by(rows, row_order(key, ascending)).len() == rows.len(),
        sorted_by(rows, row_order(key, ascending)).to_multiset() == rows.to_multiset(),
{
    let leq = row_order(key, ascending);
    assert forall|a: ModelDisplay, b: ModelDisplay| #[trigger] leq(a, b) || leq(b, a) by {
        lemma_not_after(
            a,
            b,
            a,
            small(a.name@),
            small(b.name@),
            small(a.name@),
            key,
            ascending,
        );
    }
    assert forall|a: ModelDisplay, b: ModelDisplay, c: ModelDisplay|
        #![trigger leq(a, b), leq(b, c)]
        leq(a, b) && leq(b, c) implies leq(a, c) by {
        lemma_not_after(
            a,
            b,
            c,
            small(a.name@),
            small(b.name@),
            small(c.name@),
            key,
            ascending,
        );
    }
    assert(ranks(leq));
    crate::order::law_sorted_by(rows, leq);
}

/// Loaded models come first, whatever the column and the direction.
pub proof fn law_loaded_models_come_first(
    rows: Seq<ModelDisplay>,
    key: Seq<char>,
    ascending: bool,
    i: int,
    j: int,
)
    requires
        0 <= i < j < rows.len(),
    ensures
        ({
            let shown = sorted_by(rows, row_order(key, ascending));
            shown.len() == rows.len() && shown[i].loaded_sort_key <= shown[j].loaded_sort_key
        }),
{
    law_rows_are_ordered(rows, key, ascending);
    let shown = sorted_by(rows, row_order(key, ascending));
    assert(row_order(key, ascending)(shown[i], shown[j]));
}

/// Models without a size come last among those that are loaded, or not, in
/// both directions.
pub proof fn law_empty_sizes_come_last(a: ModelDisplay, b: ModelDisplay, ascending: bool)
    requires
        a.loaded_sort_key == b.loaded_sort_key,
        a.file_size_bytes == 0,
        b.file_size_bytes != 0,
    ensures
        !row_order("file-size"@, ascending)(a, b),
        row_order("file-size"@, ascending)(b, a),
{
    reveal_strlit("file-size");
    reveal_strlit("state");
    reveal_strlit("status");
    reveal_strlit("context");
    assert("file-size"@.len() != "state"@.len());
    assert("file-size"@.len() != "status"@.len());
    assert("file-size"@.len() != "context"@.len());
}

} // verus!
