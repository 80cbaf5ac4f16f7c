//! How the router is started, and what a visit to its page asks for.
use vstd::prelude::*;
use vstd::string::*;

use crate::api::state::runtime_in;
use crate::config::model::ModelConfig;
use crate::config::settings::EnvVars;
use crate::orchestrator::engine::AppEvent;
use crate::order::sorted_by;
use crate::paths::{expand_tilde, from_home, stands_for};
use crate::process::manager::NamedRuntime;
use crate::system::stats::{SystemStats, MOST_TIME};
use crate::table::Table;
use crate::text::{
    parse_unsigned, same_ignoring_case, trim, trim_text, unsigned_up_to,
};
use crate::ui::templates::{
    is_card, is_entry, is_host, is_row, is_sum, model_rows, row_filter, row_order, sort_and_filter,
    total_sum, used_sum, DashboardFragmentTemplate, DashboardTemplate, EventDisplay, GpuDisplay,
    GpuTotals, ModelDisplay, ModelSort, PerfTexts, SystemDisplay,
};
use crate::vram::tracker::GpuInfo;

verus! {

broadcast use vstd::string::group_string_axioms;

/// Where the router listens and keeps its files.
#[derive(Debug)]
pub struct AppConfig {
    pub port: u16,
    pub config_dir: String,
}

impl Default for AppConfig {
    fn default() -> (r: Self)
        ensures
            r.port == 8080,
            r.config_dir@ == "~/.config/inference-router"@,
    {
        AppConfig { port: 8080, config_dir: "~/.config/inference-router".to_owned() }
    }
}

/// The port that the environment asks for.
pub open spec fn asked_port(env: EnvVars) -> Option<nat> {
    match env.value("INFERENCE_ROUTER_PORT"@) {
        Some(v) => unsigned_up_to(trim(v), 65535),
        None => None,
    }
}

impl AppConfig {
    /// The configuration with what the environment asks for.
    pub fn with_env(self, env: &EnvVars) -> (r: AppConfig)
        ensures
            r.port == (match asked_port(*env) {
                Some(n) => n,
                None => self.port as nat,
            }),
            r.config_dir@ == (match env.value("INFERENCE_ROUTER_CONFIG_DIR"@) {
                Some(dir) => dir,
                None => self.config_dir@,
            }),
    {
        let port: u16 = match env.get("INFERENCE_ROUTER_PORT") {
            Some(v) => match parse_unsigned(trim_text(v.as_str()).as_str(), 65535) {
                Some(n) => n as u16,
                None => self.port,
            },
            None => self.port,
        };
        let config_dir = match env.get("INFERENCE_ROUTER_CONFIG_DIR") {
            Some(dir) => dir,
            None => self.config_dir,
        };
        AppConfig { port, config_dir }
    }

    /// Where the router keeps its files, with the home directory put in.
    pub fn folder(&self) -> (r: String)
        ensures
            stands_for(self.config_dir@, r@),
            !from_home(self.config_dir@) ==> r@ == self.config_dir@,
    {
        expand_tilde(self.config_dir.as_str())
    }
}

/// The sorting and the filter that a visit asks for.
#[derive(Debug)]
pub struct DashboardQuery {
    pub sort: Option<String>,
    pub dir: Option<String>,
    pub q: Option<String>,
}

/// A text, or a default.
pub open spec fn or_text(v: Option<String>, default: Seq<char>) -> Seq<char> {
    match v {
        Some(s) => s@,
        None => default,
    }
}

fn text_or(v: &Option<String>, default: &str) -> (r: String)
    ensures
        r@ == or_text(*v, default@),
{
    match v {
        Some(s) => s.clone(),
        None => default.to_owned(),
    }
}

impl DashboardQuery {
    /// The column, the direction and the filter: by name upward, and no
    /// filter, where nothing is said.
    pub fn choice(&self) -> (r: (String, String, String))
        ensures
            r.0@ == or_text(self.sort, "name"@),
            r.1@ == or_text(self.dir, "asc"@),
            r.2@ == or_text(self.q, ""@),
    {
        (text_or(&self.sort, "name"), text_or(&self.dir, "asc"), text_or(&self.q, ""))
    }
}

// ----- the page -----

/// What the page shows.
pub struct LiveData {
    pub system: SystemDisplay,
    pub gpus: Vec<GpuDisplay>,
    pub gpu_totals: GpuTotals,
    pub events: Vec<EventDisplay>,
    pub models: Vec<ModelDisplay>,
    /// Whether there are models, whether they are shown or not.
    pub has_any_models: bool,
    pub sort_key: String,
    pub sort_dir_class: String,
    pub sort_aria: String,
}

/// Whether the cards show the GPUs.
pub open spec fn cards_show(
    d: Seq<GpuDisplay>,
    gpus: Seq<GpuInfo>,
    gpu_cap_pct: int,
    display_cap_pct: int,
) -> bool {
    &&& d.len() == gpus.len()
    &&& forall|i: int|
        0 <= i < gpus.len() ==> is_card(#[trigger] d[i], gpus[i], gpu_cap_pct, display_cap_pct)
}

/// Whether the entries show the events.
pub open spec fn entries_show(d: Seq<EventDisplay>, events: Seq<AppEvent>) -> bool {
    &&& d.len() == events.len()
    &&& forall|i: int|
        0 <= i < events.len() ==> is_entry(
            #[trigger] d[i],
            events[i].ts,
            events[i].level.name(),
            events[i].message,
        )
}

/// Whether the rows show the models that the filter leaves, in the order that
/// is asked for.
pub open spec fn rows_show(
    d: Seq<ModelDisplay>,
    models: Seq<ModelConfig>,
    disk_sizes: Seq<u64>,
    runtimes: Map<Seq<char>, NamedRuntime>,
    perf: Seq<Option<PerfTexts>>,
    sort: Seq<char>,
    ascending: bool,
    query: Seq<char>,
) -> bool {
    exists|rows: Seq<ModelDisplay>|
        {
            &&& rows.len() == models.len()
            &&& forall|i: int|
                0 <= i < models.len() ==> is_row(
                    #[trigger] rows[i],
                    models[i],
                    disk_sizes[i],
                    runtime_in(runtimes, models[i].id@),
                    perf[i],
                )
            &&& d == #[trigger] sorted_by(
                rows.filter(row_filter(query)),
                row_order(sort, ascending),
            )
        }
}

fn gpu_cards(gpus: &Vec<GpuInfo>, gpu_cap_pct: u64, display_cap_pct: u64) -> (r: Vec<GpuDisplay>)
    ensures
        cards_show(r@, gpus@, gpu_cap_pct as int, display_cap_pct as int),
{
    let mut r: Vec<GpuDisplay> = Vec::new();
    let mut i: usize = 0;
    while i < gpus.len()
        invariant
            i <= gpus@.len(),
            r@.len() == i,
            forall|j: int|
                0 <= j < i ==> is_card(
                    #[trigger] r@[j],
                    gpus@[j],
                    gpu_cap_pct as int,
                    display_cap_pct as int,
                ),
        decreases gpus@.len() - i,
    {
        r.push(GpuDisplay::from_gpu(&gpus[i], gpu_cap_pct, display_cap_pct));
        i += 1;
    }
    r
}

fn event_entries(events: &Vec<AppEvent>) -> (r: Vec<EventDisplay>)
    ensures
        entries_show(r@, events@),
{
    let mut r: Vec<EventDisplay> = Vec::new();
    let mut i: usize = 0;
    while i < events.len()
        invariant
            i <= events@.len(),
            r@.len() == i,
            forall|j: int|
                0 <= j < i ==> is_entry(
                    #[trigger] r@[j],
                    events@[j].ts,
                    events@[j].level.name(),
                    events@[j].message,
                ),
        decreases events@.len() - i,
    {
        let message = events[i].message.clone();
        r.push(EventDisplay::new(events[i].ts, events[i].level.as_str(), message));
        i += 1;
    }
    r
}

/// What the state of the router is, as the page tells it.
pub struct Snapshot<'a> {
    pub gpus: &'a Vec<GpuInfo>,
    pub gpu_cap_pct: u64,
    pub display_cap_pct: u64,
    pub models: &'a Vec<ModelConfig>,
    /// How large each model is on disk.
    pub disk_sizes: &'a Vec<u64>,
    pub runtimes: &'a Table<NamedRuntime>,
    /// The throughput of each model, as far as it is known.
    pub perf: &'a Vec<Option<PerfTexts>>,
    pub events: &'a Vec<AppEvent>,
    pub system: SystemStats,
}

/// What the page shows of the state of the router, sorted and filtered as it is
/// asked for.
pub fn collect_live_data(s: &Snapshot<'_>, sort: &str, dir: &str, query: &str) -> (r: LiveData)
    requires
        s.runtimes.wf(),
        s.disk_sizes@.len() == s.models@.len(),
        s.perf@.len() == s.models@.len(),
        s.system.cpu.busy <= s.system.cpu.total <= MOST_TIME,
        used_sum(s.gpus@) <= u64::MAX,
        total_sum(s.gpus@) <= u64::MAX,
    ensures
        is_host(r.system, s.system),
        cards_show(r.gpus@, s.gpus@, s.gpu_cap_pct as int, s.display_cap_pct as int),
        is_sum(r.gpu_totals, s.gpus@),
        entries_show(r.events@, s.events@),
        rows_show(
            r.models@,
            s.models@,
            s.disk_sizes@,
            s.runtimes@,
            s.perf@,
            sort@,
            !same_ignoring_case(dir@, "desc"@),
            query@,
        ),
        r.has_any_models == (s.models@.len() > 0),
        r.sort_key@ == sort@,
        r.sort_dir_class@ == (if same_ignoring_case(dir@, "desc"@) {
            "sort-desc"@
        } else {
            "sort-asc"@
        }),
        r.sort_aria@ == (if same_ignoring_case(dir@, "desc"@) {
            "descending"@
        } else {
            "ascending"@
        }),
{
    let order = ModelSort::new(sort, dir);
    let sort_dir_class = order.dir_class().to_owned();
    let sort_aria = order.aria().to_owned();
    let rows = model_rows(s.models, s.disk_sizes, s.runtimes, s.perf);
    let ghost all = rows@;
    let models = sort_and_filter(rows, order, query);
    assert(models@ == sorted_by(
        all.filter(row_filter(query@)),
        row_order(sort@, !same_ignoring_case(dir@, "desc"@)),
    ));
    LiveData {
        system: SystemDisplay::from_stats(s.system),
        gpus: gpu_cards(s.gpus, s.gpu_cap_pct, s.display_cap_pct),
        gpu_totals: GpuTotals::from_gpus(s.gpus.as_slice()),
        events: event_entries(s.events),
        models,
        has_any_models: s.models.len() > 0,
        sort_key: sort.to_owned(),
        sort_dir_class,
        sort_aria,
    }
}

impl LiveData {
    /// The whole page.
    pub fn page(self, server_port: u16) -> (r: DashboardTemplate)
        ensures
            r.title@ == "Dashboard"@,
            r.server_port == server_port,
            r == (DashboardTemplate {
                title: r.title,
                system: self.system,
                gpus: self.gpus,
                gpu_totals: self.gpu_totals,
                events: self.events,
                models: self.models,
                has_any_models: self.has_any_models,
                sort_key: self.sort_key,
                sort_dir_class: self.sort_dir_class,
                sort_aria: self.sort_aria,
                server_port,
            }),
    {
        DashboardTemplate {
            title: "Dashboard".to_owned(),
            system: self.system,
            gpus: self.gpus,
            gpu_totals: self.gpu_totals,
            events: self.events,
            models: self.models,
            has_any_models: self.has_any_models,
            sort_key: self.sort_key,
            sort_dir_class: self.sort_dir_class,
            sort_aria: self.sort_aria,
            server_port,
        }
    }

    /// The parts of the page that change.
    pub fn fragment(self) -> (r: DashboardFragmentTemplate)
        ensures
            r == (DashboardFragmentTemplate {
                system: self.system,
                gpus: self.gpus,
                gpu_totals: self.gpu_totals,
                events: self.events,
                models: self.models,
                has_any_models: self.has_any_models,
                sort_key: self.sort_key,
                sort_dir_class: self.sort_dir_class,
                sort_aria: self.sort_aria,
            }),
    {
        DashboardFragmentTemplate {
            system: self.system,
            gpus: self.gpus,
            gpu_totals: self.gpu_totals,
            events: self.events,
            models: self.models,
            has_any_models: self.has_any_models,
            sort_key: self.sort_key,
            sort_dir_class: self.sort_dir_class,
            sort_aria: self.sort_aria,
        }
    }
}

} // verus!
