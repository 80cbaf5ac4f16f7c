use inference_router::config::model::{ModelConfig, ModelState, WeightsFormat};
use inference_router::lifecycle::{collect_live_data, AppConfig, DashboardQuery, Snapshot};
use inference_router::orchestrator::engine::{AppEvent, EventLevel};
use inference_router::config::settings::EnvVars;
use inference_router::process::manager::{ModelRuntime, NamedRuntime};
use inference_router::system::stats::{CpuUse, SystemStats};
use inference_router::table::Table;
use inference_router::ui::templates::{
    model_rows, row_not_after, shows, sort_and_filter, EventDisplay, GpuDisplay, GpuTotals,
    ModelDisplay, ModelSort, PerfTexts, SystemDisplay,
};
use inference_router::vram::tracker::GpuInfo;

/// File/VRAM sizes resolve to 0 (empty "—") because nothing was found on disk.
fn model(id: &str, name: &str, state: ModelState, context: u32) -> ModelDisplay {
    ModelDisplay::from_model(
        &ModelConfig {
            id: id.into(),
            name: name.into(),
            state,
            context,
            ..ModelConfig::default()
        },
        0,
    )
}

fn ids(rows: &[ModelDisplay]) -> Vec<&str> {
    rows.iter().map(|m| m.id.as_str()).collect()
}

#[test]
fn loaded_models_float_to_the_top_regardless_of_column() {
    let rows = vec![
        model("a", "Alpha", ModelState::Idle, 4096),
        model("z", "Zeta", ModelState::Running, 2048),
    ];
    // Name-ascending would put Alpha first, but Running outranks Idle.
    let out = sort_and_filter(rows, ModelSort::new("name", "asc"), "");
    assert_eq!(ids(&out), ["z", "a"]);
}

#[test]
fn name_sort_honours_direction_within_the_loaded_group() {
    let rows = vec![
        model("a", "Alpha", ModelState::Idle, 1),
        model("c", "Charlie", ModelState::Idle, 1),
        model("b", "Bravo", ModelState::Idle, 1),
    ];
    let asc = sort_and_filter(rows.clone(), ModelSort::new("name", "asc"), "");
    assert_eq!(ids(&asc), ["a", "b", "c"]);
    let desc = sort_and_filter(rows, ModelSort::new("name", "desc"), "");
    assert_eq!(ids(&desc), ["c", "b", "a"]);
}

#[test]
fn context_sort_is_numeric() {
    let rows = vec![
        model("a", "A", ModelState::Idle, 8192),
        model("b", "B", ModelState::Idle, 1024),
        model("c", "C", ModelState::Idle, 131072),
    ];
    let out = sort_and_filter(rows, ModelSort::new("context", "asc"), "");
    assert_eq!(ids(&out), ["b", "a", "c"]);
}

#[test]
fn empty_numeric_cells_sort_last_in_both_directions() {
    let mut big = model("big", "Big", ModelState::Idle, 1);
    big.file_size_bytes = 1_000_000;
    big.file_size_gib_str = "0.9".into();
    let mut small = model("small", "Small", ModelState::Idle, 1);
    small.file_size_bytes = 1_000;
    small.file_size_gib_str = "0.1".into();
    let empty = model("empty", "Empty", ModelState::Idle, 1); // 0 bytes -> "—"

    let asc = sort_and_filter(
        vec![empty.clone(), big.clone(), small.clone()],
        ModelSort::new("file-size", "asc"),
        "",
    );
    assert_eq!(ids(&asc), ["small", "big", "empty"]);

    // Reversing the direction flips the populated rows but keeps the empty
    // cell at the bottom.
    let desc = sort_and_filter(
        vec![empty, big, small],
        ModelSort::new("file-size", "desc"),
        "",
    );
    assert_eq!(ids(&desc), ["big", "small", "empty"]);
}

#[test]
fn activity_sort_uses_active_plus_pending() {
    let rows = vec![
        model("idle", "Idle", ModelState::Running, 1).with_runtime(1, 0, 0),
        model("busy", "Busy", ModelState::Running, 1).with_runtime(1, 2, 1),
        model("warm", "Warm", ModelState::Running, 1).with_runtime(1, 1, 0),
    ];
    let out = sort_and_filter(rows, ModelSort::new("activity", "desc"), "");
    assert_eq!(ids(&out), ["busy", "warm", "idle"]);
}

#[test]
fn status_sort_ranks_running_by_requests_then_groups_by_state() {
    let rows = vec![
        model("err", "Err", ModelState::Error("boom".into()), 1),
        model("idle", "Idle", ModelState::Idle, 1),
        model("loading", "Loading", ModelState::Loading, 1).with_runtime(0, 0, 1),
        model("warm", "Warm", ModelState::Running, 1).with_runtime(1, 0, 0),
        model("busy", "Busy", ModelState::Running, 1).with_runtime(1, 3, 0),
    ];
    // desc = busiest first; loaded rows (running/loading) still float above
    // idle/error.
    let out = sort_and_filter(rows, ModelSort::new("status", "desc"), "");
    assert_eq!(ids(&out), ["busy", "warm", "loading", "idle", "err"]);
}

#[test]
fn filter_matches_id_name_and_state_case_insensitively() {
    let rows = vec![
        model("qwen3", "Qwen 3", ModelState::Running, 1),
        model("llama", "Llama", ModelState::Idle, 1),
    ];
    // by name fragment
    let by_name = sort_and_filter(rows.clone(), ModelSort::new("name", "asc"), "QWEN");
    assert_eq!(ids(&by_name), ["qwen3"]);
    // by state
    let by_state = sort_and_filter(rows.clone(), ModelSort::new("name", "asc"), "running");
    assert_eq!(ids(&by_state), ["qwen3"]);
    // no match
    let none = sort_and_filter(rows, ModelSort::new("name", "asc"), "mistral");
    assert!(none.is_empty());
}

#[test]
fn model_sort_parses_direction_and_indicators() {
    assert!(ModelSort::new("name", "asc").ascending);
    assert!(ModelSort::new("name", "").ascending); // default
    assert!(!ModelSort::new("name", "desc").ascending);
    assert!(!ModelSort::new("name", "DESC").ascending); // case-insensitive
    assert_eq!(ModelSort::new("name", "asc").dir_class(), "sort-asc");
    assert_eq!(ModelSort::new("name", "desc").dir_class(), "sort-desc");
    assert_eq!(ModelSort::new("name", "asc").aria(), "ascending");
    assert_eq!(ModelSort::new("name", "desc").aria(), "descending");
}

#[test]
fn event_display_formats_a_timestamp() {
    let ev = EventDisplay::new(0, "info", "started".into());
    assert_eq!(ev.level, "info");
    assert_eq!(ev.message, "started");
    // HH:MM:SS, zero-padded.
    assert_eq!(ev.time_str.len(), 8);
    assert_eq!(ev.time_str.matches(':').count(), 2);
}

fn gpu(id: &str, total: u64, used: u64, busy: u8) -> GpuInfo {
    GpuInfo {
        id: id.into(),
        pci_bus_id: None,
        vulkan_device: None,
        vulkan_index: None,
        cuda_device: None,
        cuda_index: None,
        rocm_index: None,
        sycl_index: None,
        tags: Default::default(),
        integrated: false,
        total_vram: total,
        used_vram: used,
        busy_pct: busy,
        temp_c: None,
        display_attached: false,
    }
}

const GIB: u64 = 1_073_741_824;

#[test]
fn gpu_totals_sum_vram_and_average_activity() {
    let gpus = [
        gpu("0", 32 * GIB, 8 * GIB, 40),
        gpu("1", 32 * GIB, 24 * GIB, 60),
    ];
    let t = GpuTotals::from_gpus(&gpus);
    assert_eq!(t.count, 2);
    // VRAM is summed across devices.
    assert_eq!(t.vram_used_gib_str, "32.0"); // 8 + 24
    assert_eq!(t.vram_total_gib_str, "64.0");
    assert_eq!(t.vram_free_gib_str, "32.0");
    assert_eq!(t.vram_pct_str, "50"); // 32 / 64
    // Activity is the mean utilization, not a sum.
    assert_eq!(t.busy_pct_str, "50"); // (40 + 60) / 2
}

#[test]
fn gpu_totals_with_no_devices_is_zeroed() {
    let t = GpuTotals::from_gpus(&[]);
    assert_eq!(t.count, 0);
    assert_eq!(t.vram_pct_str, "0");
    assert_eq!(t.busy_pct_str, "0");
}

#[test]
fn a_gpu_is_shown_with_its_figures() {
    let mut g = gpu("card1", 32 * GIB, 30 * GIB, 75);
    g.vulkan_device = Some("Vulkan0".into());
    g.pci_bus_id = Some("0000:03:00.0".into());
    g.temp_c = Some(85_500);
    g.tags.vulkan = true;
    g.tags.rocm = true;
    g.display_attached = true;
    let d = GpuDisplay::from_gpu(&g, 95, 75);
    assert_eq!(d.label, "Vulkan0 / 0000:03:00.0");
    assert_eq!(d.tags_str, "vulkan · rocm");
    assert_eq!(d.vram_cap_str, "75%");
    assert_eq!((d.used_gib_str.as_str(), d.free_gib_str.as_str()), ("30.0", "2.0"));
    assert_eq!((d.usage_pct_str.as_str(), d.usage_class.as_str()), ("94", "red"));
    assert_eq!((d.busy_pct_str.as_str(), d.busy_class.as_str()), ("75", "yellow"));
    assert_eq!((d.temp_c_str.as_str(), d.temp_class.as_str()), ("86", "red"));
    let bare = GpuDisplay::from_gpu(&gpu("card2", 0, 0, 0), 95, 75);
    assert_eq!((bare.label.as_str(), bare.temp_c_str.as_str()), ("card2", "—"));
    assert_eq!((bare.usage_pct_str.as_str(), bare.temp_class.as_str()), ("0", "muted"));
}

#[test]
fn the_machine_is_shown_with_its_figures() {
    let d = SystemDisplay::from_stats(SystemStats {
        cpu: CpuUse { busy: 71, total: 100 },
        ram_used: 16 * GIB,
        ram_total: 64 * GIB,
        cpu_temp_milli: Some(-400),
    });
    assert_eq!((d.cpu_pct_str.as_str(), d.cpu_class.as_str()), ("71", "yellow"));
    assert_eq!((d.ram_pct_str.as_str(), d.ram_class.as_str()), ("25", "green"));
    assert_eq!((d.ram_used_gib_str.as_str(), d.ram_total_gib_str.as_str()), ("16.0", "64.0"));
    assert_eq!((d.cpu_temp_c_str.as_str(), d.cpu_temp_class.as_str()), ("-0", "green"));
}

#[test]
fn a_model_is_shown_with_its_figures() {
    let m = ModelConfig {
        id: "m".into(),
        name: "M".into(),
        weights_format: WeightsFormat::Safetensors,
        state: ModelState::Error("boom".into()),
        context: 131072,
        estimated_vram: 7,
        ..ModelConfig::default()
    };
    let d = ModelDisplay::from_model(&m, 3 * GIB);
    assert_eq!((d.context_str.as_str(), d.file_size_gib_str.as_str()), ("128K", "3.0"));
    assert_eq!(d.required_vram_gib_str, "—");
    assert_eq!((d.state_display.as_str(), d.state_class.as_str()), ("Error: boom", "error"));
    assert_eq!((d.state_sort_key, d.loaded_sort_key), (3, 1));
    assert_eq!(d.primary_action_sort, "load");
    let d = d.with_runtime(2, 3, 4);
    assert_eq!(d.total_activity(), 7);
    assert_eq!(d.status_sort_key(), 302);
    let perf = PerfTexts { samples: 1, decode: "12.5".into(), prefill: "800".into() };
    let none = PerfTexts { samples: 0, ..perf_copy(&perf) };
    let d = d.with_perf(Some(&none));
    assert!(!d.has_perf);
    let d = d.with_perf(Some(&perf));
    assert_eq!((d.has_perf, d.decode_tps_str.as_str(), d.prefill_tps_str.as_str()), (true, "12.5", "800"));
    assert_eq!(model("x", "X", ModelState::Running, 512).context_str, "512");
}

fn perf_copy(p: &PerfTexts) -> PerfTexts {
    PerfTexts { samples: p.samples, decode: p.decode.clone(), prefill: p.prefill.clone() }
}

#[test]
fn rows_carry_their_runtime() {
    let models = vec![
        ModelConfig { id: "a".into(), ..ModelConfig::default() },
        ModelConfig { id: "b".into(), ..ModelConfig::default() },
    ];
    let mut runtimes: Table<NamedRuntime> = Table::new();
    runtimes.insert(NamedRuntime {
        model_id: "b".into(),
        runtime: ModelRuntime { instances: 1, pending: 2, active: 3 },
    });
    let texts = PerfTexts { samples: 2, decode: "9.5".into(), prefill: "120".into() };
    let rows = model_rows(&models, &vec![5, 6], &runtimes, &vec![None, Some(texts)]);
    assert_eq!((rows[0].has_perf, rows[0].decode_tps_str.as_str()), (false, "—"));
    assert_eq!((rows[1].has_perf, rows[1].decode_tps_str.as_str()), (true, "9.5"));
    assert_eq!(rows[1].prefill_tps_str, "120");
    assert_eq!(rows[0].running_instances, 0);
    assert_eq!((rows[1].running_instances, rows[1].pending_instances, rows[1].active_requests), (1, 2, 3));
    assert_eq!(rows[1].file_size_bytes, 6);
}

#[test]
fn names_are_held_against_each_other_in_small_letters() {
    // Letters outside ASCII change too, which the plain comparison would miss.
    let rows = vec![
        model("1", "ÄPFEL", ModelState::Idle, 1),
        model("2", "äa", ModelState::Idle, 1),
    ];
    let out = sort_and_filter(rows.clone(), ModelSort::new("name", "asc"), "");
    assert_eq!(ids(&out), ["2", "1"]);
    let found = sort_and_filter(rows, ModelSort::new("name", "asc"), " äpf ");
    assert_eq!(ids(&found), ["1"]);
    let all = sort_and_filter(out, ModelSort::new("name", "asc"), " \t ");
    assert_eq!(ids(&all), ["2", "1"]);
    assert!(shows("id", "name", "idle", ""));
    assert!(!shows("id", "name", "idle", "x"));
    let (a, b) = (model("a", "Same", ModelState::Idle, 1), model("b", "Same", ModelState::Idle, 1));
    assert!(row_not_after(&a, &b, "same", "same", "context", false));
    assert!(!row_not_after(&b, &a, "same", "same", "context", false));
}

#[test]
fn events_without_a_time_show_dashes() {
    let ev = EventDisplay::new(u64::MAX, "warn", "late".into());
    assert_eq!(ev.time_str, "--:--:--");
    let ev = EventDisplay::with_clock(Some("01:02:03".into()), "info", "m".into());
    assert_eq!(ev.time_str, "01:02:03");
}

#[test]
fn the_environment_overrides_port_and_folder() {
    let env = |p: &str| EnvVars {
        vars: vec![
            ("INFERENCE_ROUTER_PORT".to_string(), p.to_string()),
            ("INFERENCE_ROUTER_CONFIG_DIR".to_string(), "/etc/x".to_string()),
        ],
    };
    let c = AppConfig::default().with_env(&env(" 9000 "));
    assert_eq!((c.port, c.config_dir.as_str()), (9000, "/etc/x"));
    assert_eq!(AppConfig::default().with_env(&env("70000")).port, 8080);
    let plain = AppConfig::default().with_env(&EnvVars { vars: vec![] });
    assert_eq!((plain.port, plain.config_dir.as_str()), (8080, "~/.config/inference-router"));
}

#[test]
fn a_visit_sorts_by_name_unless_it_asks_otherwise() {
    let q = DashboardQuery { sort: None, dir: Some("desc".into()), q: None };
    assert_eq!(q.choice(), ("name".to_string(), "desc".to_string(), String::new()));
}

#[test]
fn the_page_shows_the_state_of_the_router() {
    let models = vec![
        ModelConfig { id: "a".into(), name: "Alpha".into(), ..ModelConfig::default() },
        ModelConfig { id: "b".into(), name: "Beta".into(), ..ModelConfig::default() },
    ];
    let gpus = vec![gpu("0", 32 * GIB, 8 * GIB, 40)];
    let events =
        vec![AppEvent { ts: 0, level: EventLevel::Warn, message: "careful".into() }];
    let runtimes: Table<NamedRuntime> = Table::new();
    let snapshot = Snapshot {
        gpus: &gpus,
        gpu_cap_pct: 98,
        display_cap_pct: 80,
        models: &models,
        disk_sizes: &vec![1, 2],
        runtimes: &runtimes,
        perf: &vec![
            Some(PerfTexts { samples: 3, decode: "31.2".into(), prefill: "900".into() }),
            Some(PerfTexts { samples: 0, decode: "0.0".into(), prefill: "0".into() }),
        ],
        events: &events,
        system: SystemStats {
            cpu: CpuUse { busy: 1, total: 2 },
            ram_used: GIB,
            ram_total: 2 * GIB,
            cpu_temp_milli: None,
        },
    };
    let live = collect_live_data(&snapshot, "name", "desc", "");
    assert_eq!(ids(&live.models), ["b", "a"]);
    assert_eq!((live.models[0].has_perf, live.models[0].prefill_tps_str.as_str()), (false, "—"));
    assert_eq!((live.models[1].has_perf, live.models[1].decode_tps_str.as_str()), (true, "31.2"));
    assert_eq!((live.sort_key.as_str(), live.sort_aria.as_str()), ("name", "descending"));
    let page = live.page(8080);
    assert_eq!((page.title.as_str(), page.server_port), ("Dashboard", 8080));
    assert_eq!(page.system.cpu_pct_str, "50");
    assert_eq!(page.gpus[0].vram_cap_str, "98%");
    assert_eq!(page.gpu_totals.count, 1);
    assert_eq!((page.events[0].level.as_str(), page.events[0].message.as_str()), ("warn", "careful"));
    let part = collect_live_data(&snapshot, "name", "asc", "nothing").fragment();
    assert!(part.models.is_empty() && part.has_any_models);
}

#[test]
fn the_folder_is_expanded() {
    let c = AppConfig { port: 1, config_dir: "/etc/x".into() };
    assert_eq!(c.folder(), "/etc/x");
}
