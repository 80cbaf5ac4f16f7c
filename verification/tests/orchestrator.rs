use inference_router::config::alias::ModelAlias;
use inference_router::config::backend::{Backend, BackendTags};
use inference_router::config::model::{ConfigError, GgufMeta, ModelConfig, ModelState, Number};
use inference_router::config::preset::BinaryPreset;
use inference_router::config::settings::{AppSettings, EnvVars, StreamingLoopAction};
use inference_router::orchestrator::aliases::{
    follow, is_valid_alias_name, target_creates_cycle, WayEnd,
};
use inference_router::orchestrator::allocation::{
    device_list, fit_target_mib, plan_fit_placement, total_allocatable,
};
use inference_router::orchestrator::crud::spawn_config_changed;
use inference_router::orchestrator::devices::{
    device_vulkan_index, gpu_matches_device, model_uses_cuda_backend, model_visible_gpus,
    normalize_model_device_for_llama, resolve_llama_device, split_device_list,
};
use inference_router::orchestrator::engine::{
    EventLevel, Orchestrator, StoredModel, DEFAULT_MAX_INSTANCES_PER_MODEL,
};
use inference_router::orchestrator::errors::{
    is_configuration_load_error, LoadError, MutationError, StopError,
};
use inference_router::orchestrator::eviction::{decide_eviction, EvictionAction};
use inference_router::orchestrator::loading::{
    after_first_placement, after_second_placement, extra_instance_fits, Acquire, FirstPlacement,
    ScaleStep,
};
use inference_router::orchestrator::placement::{
    bytes_to_mib_ceil, fit_target_for_probe_mib, resolve_targets, same_gpu,
    subtract_reserved_from_gpus,
};
use inference_router::orchestrator::search::{
    keep_best_spill_candidate, place_model, scale_out_accepts_placement, try_place, FitCandidate,
    PlaceOutcome, PlacementStep, ProbeResult,
};
use inference_router::orchestrator::serving::ServeStep;
use inference_router::orchestrator::starting::{
    model_n_layers, BeginStep, ModelFacts, PlaceStep, PortNext,
};
use inference_router::orchestrator::upkeep::{
    liveness_reason, notice_body, LivenessPlan, LivenessTracker,
};
use inference_router::process::manager::HealthCheckError;
use inference_router::table::Table;
use inference_router::vram::llama_fit::{
    apply_sizing_to_model, fitted_fully_on_gpu, override_tensor_uses_cpu, LlamaFitSizing,
    LlamaFittedArgs,
};
use inference_router::vram::tracker::GpuInfo;

const GIB: u64 = 1024 * 1024 * 1024;

fn env() -> EnvVars {
    EnvVars { vars: vec![] }
}

fn orch() -> Orchestrator {
    Orchestrator::new(vec![], vec![], vec![], &env(), 8080)
}

fn model(id: &str) -> ModelConfig {
    ModelConfig {
        id: id.into(),
        name: id.into(),
        binary: "/bin/true".into(),
        model_path: "/tmp/m.gguf".into(),
        ..ModelConfig::default()
    }
}

fn get_model<'a>(o: &'a Orchestrator, id: &str) -> &'a ModelConfig {
    o.data.models.get(id).unwrap()
}

/// Starts a process of a model here and ends its first request.
fn start(o: &mut Orchestrator, id: &str, pid: i32, port: u16) {
    let (child, _) = o.process_manager.spawn_child(&model(id), None, port);
    let guard = o.process_manager.register(child, pid);
    o.process_manager.release(guard);
}

// ----- allocation -----

fn plain_gpu(id: &str, free: u64) -> GpuInfo {
    GpuInfo {
        id: id.into(),
        pci_bus_id: None,
        vulkan_device: None,
        vulkan_index: None,
        cuda_device: None,
        cuda_index: None,
        rocm_index: None,
        sycl_index: None,
        tags: Default::default(),
        integrated: false,
        total_vram: free + 1_000_000_000,
        used_vram: 1_000_000_000,
        busy_pct: 0,
        temp_c: None,
        display_attached: false,
    }
}

fn rocm_gpu(rocm_index: usize, free: u64) -> GpuInfo {
    let mut g = plain_gpu(&format!("rocm{rocm_index}"), free);
    g.rocm_index = Some(rocm_index);
    g.tags = BackendTags::default().with(Backend::Rocm);
    g
}

#[test]
fn fit_emits_explicit_device_in_index_order() {
    // ROCm0 full, ROCm2 + ROCm3 free → a 50 GB model needs both free cards,
    // named in backend-index order, with one fit-target per device.
    let gpus = vec![
        rocm_gpu(0, 0),
        rocm_gpu(2, 32_000_000_000),
        rocm_gpu(3, 32_000_000_000),
    ];
    let p = plan_fit_placement(Backend::Rocm, &gpus, 50_000_000_000, 98, 80).unwrap();
    assert_eq!(p.device, "ROCm2,ROCm3");
    assert_eq!(p.gpus_used, 2);
    assert_eq!(p.fit_target.split(',').count(), 2);
    assert!(!p.device.contains("ROCm0"), "must skip the full card");
}

#[test]
fn fit_none_when_backend_has_no_devices() {
    // GPUs are Vulkan-only; a ROCm placement finds nothing.
    let gpus = vec![plain_gpu("a", 40_000_000_000)];
    assert!(plan_fit_placement(Backend::Rocm, &gpus, 10_000_000_000, 98, 80).is_none());
}

#[test]
fn fit_target_is_margin_to_leave_free() {
    // A 32 GiB card at 98% leaves 2% free ≈ 640 MiB.
    let gpus = vec![rocm_gpu(0, 30_000_000_000)];
    let p = plan_fit_placement(Backend::Rocm, &gpus, 10_000_000_000, 98, 80).unwrap();
    let total_mib = gpus[0].total_vram >> 20;
    let expect = total_mib * 2 / 100;
    assert_eq!(p.fit_target.parse::<u64>().unwrap(), expect);
}

#[test]
fn display_gpu_gets_a_larger_margin_than_a_normal_gpu() {
    // Two equal GPUs, one driving a monitor; a 45 GB model needs both → the
    // display GPU must be told to leave more free (20% vs 2%).
    let a = rocm_gpu(0, 30_000_000_000);
    let mut b = rocm_gpu(1, 30_000_000_000);
    b.display_attached = true;
    let p = plan_fit_placement(Backend::Rocm, &[a, b], 45_000_000_000, 98, 80).unwrap();
    let parts: Vec<u64> = p
        .fit_target
        .split(',')
        .map(|s| s.parse().unwrap())
        .collect();
    assert!(
        parts[1] > parts[0],
        "display GPU should leave more free: {parts:?}"
    );
}

#[test]
fn fit_skips_full_gpus_but_keeps_those_with_any_free() {
    // A card with even a sliver of free VRAM is still offered to -fit.
    let gpus = vec![rocm_gpu(0, 0), rocm_gpu(1, 1_000_000_000)];
    let p = plan_fit_placement(Backend::Rocm, &gpus, 500_000_000, 98, 80).unwrap();
    assert_eq!(p.device, "ROCm1");
    assert_eq!(p.gpus_used, 1);
}

#[test]
fn fit_uses_one_gpu_when_the_model_fits_on_one() {
    // A 20 GB model with three 32 GB cards free must land on ONE GPU, not be
    // smeared across all three.
    let gpus = vec![
        rocm_gpu(0, 32_000_000_000),
        rocm_gpu(1, 32_000_000_000),
        rocm_gpu(2, 32_000_000_000),
    ];
    let p = plan_fit_placement(Backend::Rocm, &gpus, 20_000_000_000, 98, 80).unwrap();
    assert_eq!(p.gpus_used, 1, "must not split a 1-GPU model");
    assert_eq!(p.device, "ROCm0");
}

#[test]
fn fit_picks_the_most_free_gpu_not_a_busy_one() {
    // A 20 GB model: skip the nearly-full card, land on the free one.
    let gpus = vec![rocm_gpu(0, 5_000_000_000), rocm_gpu(1, 32_000_000_000)];
    let p = plan_fit_placement(Backend::Rocm, &gpus, 20_000_000_000, 98, 80).unwrap();
    assert_eq!(p.gpus_used, 1);
    assert_eq!(p.device, "ROCm1");
}

#[test]
fn fit_falls_back_to_all_gpus_when_nothing_covers_it() {
    // A huge MoE larger than all GPUs combined → use every eligible GPU and
    // let -fit spill the overflow to CPU (NOT None, NOT a single GPU).
    let gpus = vec![rocm_gpu(0, 32_000_000_000), rocm_gpu(1, 32_000_000_000)];
    let p = plan_fit_placement(Backend::Rocm, &gpus, 500_000_000_000, 98, 80).unwrap();
    assert_eq!(p.gpus_used, 2);
    assert_eq!(p.device, "ROCm0,ROCm1");
}

#[test]
fn fit_zero_estimate_uses_all_eligible_gpus() {
    // No usable estimate (gguf parse failed) → can't size, so use everything.
    let gpus = vec![rocm_gpu(0, 32_000_000_000), rocm_gpu(1, 32_000_000_000)];
    let p = plan_fit_placement(Backend::Rocm, &gpus, 0, 98, 80).unwrap();
    assert_eq!(p.gpus_used, 2);
}

#[test]
fn memory_is_counted_under_the_caps() {
    let mut g = rocm_gpu(0, 0);
    g.total_vram = 100 * GIB;
    g.used_vram = 10 * GIB;
    assert_eq!(g.free_vram(), 90 * GIB);
    assert_eq!(g.allocatable_vram(98, 80), 88 * GIB);
    g.display_attached = true;
    assert_eq!(g.vram_cap_pct(98, 80), 80);
    assert_eq!(g.allocatable_vram(98, 80), 70 * GIB);
    assert_eq!(fit_target_mib(&g, 98, 80), 20 * 1024);
    assert_eq!(total_allocatable(&[g.clone(), g.clone()], 98, 80), 140 * GIB);
    assert_eq!(device_list(&[g.clone()], Backend::Rocm), "ROCm0");
    assert!(g.supports(Backend::Rocm) && !g.supports(Backend::Cuda));
    assert_eq!(g.backend_index(Backend::Rocm), Some(0));
    assert_eq!(g.backend_device_name(Backend::Rocm), Some("ROCm0".to_string()));
}

// ----- eviction -----

/// The greater the score, the sooner the model goes. A score that is not
/// negative has the order of its bits.
fn eviction_score(m: &ModelConfig, now: f64) -> f64 {
    let idle = match m.last_used {
        Some(t) => (now - t as f64 / 1e6).max(0.0),
        None => return f64::INFINITY,
    };
    let gib = m.estimated_vram as f64 / GIB as f64;
    (idle + 1.0).ln() + 1.0 / (gib + 1.0).log2()
}

const NOW: f64 = 1_000_000.0;

fn running(id: &str, vram: u64, idle_secs: f64) -> ModelConfig {
    ModelConfig {
        id: id.into(),
        name: id.into(),
        binary: "/b".into(),
        model_path: "/m".into(),
        state: ModelState::Running,
        pid: Some(1),
        estimated_vram: vram,
        last_used: Some(((NOW - idle_secs) * 1e6) as u64),
        ..ModelConfig::default()
    }
}

fn victims(models: Vec<ModelConfig>, free: u64, needed: u64, idle: &[&str]) -> Vec<String> {
    let table = Table::from_list(models);
    let scores: Vec<u64> =
        (0..table.len()).map(|i| eviction_score(table.at(i), NOW).to_bits()).collect();
    let idle: Vec<String> = idle.iter().map(|s| s.to_string()).collect();
    decide_eviction(&table, &scores, free, needed, &idle)
        .into_iter()
        .map(|a| match a {
            EvictionAction::Evict(id) => id,
        })
        .collect()
}

#[test]
fn no_eviction_when_enough_free() {
    let models = vec![running("a", 5_000_000_000, 100.0)];
    assert!(victims(models, 64_000_000_000, 1_000_000_000, &["a"]).is_empty());
}

#[test]
fn evicts_smallest_first_when_idle_equal() {
    let models = vec![
        running("big", 30_000_000_000, 100.0),
        running("small", 5_000_000_000, 100.0),
    ];
    let actions = victims(models, 9_000_000_000, 15_000_000_000, &["big", "small"]);
    // 9GB free, deficit = 6GB, small alone (5GB) isn't enough so both are evicted.
    assert_eq!(actions[0], "small");
    assert_eq!(actions[1], "big");
}

#[test]
fn skips_non_running_models() {
    let mut idle = running("idle", 5_000_000_000, 100.0);
    idle.state = ModelState::Idle;
    let models = vec![idle, running("run", 5_000_000_000, 100.0)];
    let actions = victims(models, 4_000_000_000, 10_000_000_000, &["run"]);
    assert_eq!(actions, vec!["run"]);
}

#[test]
fn skips_running_models_without_vram_estimate() {
    // A Running model with a zero estimate can't satisfy any deficit, so it
    // is no candidate.
    let models = vec![running("unknown", 0, 100.0)];
    let actions = victims(models, 1_000_000_000, 10_000_000_000, &["unknown"]);
    assert!(
        actions.is_empty(),
        "must not evict model with unknown VRAM: {actions:?}"
    );
}

#[test]
fn skips_active_models() {
    let models = vec![
        running("active", 20_000_000_000, 100.0),
        running("idle", 20_000_000_000, 100.0),
    ];
    let actions = victims(models, 1_000_000_000, 10_000_000_000, &["idle"]);
    assert_eq!(actions, vec!["idle"]);
}

#[test]
fn a_model_that_was_never_used_goes_first() {
    let mut never = running("never", 20_000_000_000, 0.0);
    never.last_used = None;
    let models = vec![running("old", 5_000_000_000, 900_000.0), never];
    let actions = victims(models, 1_000_000_000, 2_000_000_000, &["never", "old"]);
    assert_eq!(actions, vec!["never"]);
}

// ----- devices -----

#[test]
fn default_instance_cap_is_vram_limited() {
    assert_eq!(DEFAULT_MAX_INSTANCES_PER_MODEL, usize::MAX);
}

fn gpu(id: &str, pci: &str, vulkan_index: usize) -> GpuInfo {
    GpuInfo {
        id: id.into(),
        pci_bus_id: Some(pci.into()),
        vulkan_device: Some(format!("Vulkan{vulkan_index}")),
        vulkan_index: Some(vulkan_index),
        cuda_device: None,
        cuda_index: None,
        rocm_index: None,
        sycl_index: None,
        tags: Default::default(),
        integrated: false,
        total_vram: 32 * GIB,
        used_vram: 0,
        busy_pct: 0,
        temp_c: None,
        display_attached: false,
    }
}

fn cuda_gpu() -> GpuInfo {
    GpuInfo {
        id: "cuda0".into(),
        pci_bus_id: Some("0000:1c:00.0".into()),
        vulkan_device: None,
        vulkan_index: None,
        cuda_device: Some("CUDA0".into()),
        cuda_index: Some(0),
        rocm_index: None,
        sycl_index: None,
        tags: Default::default(),
        integrated: false,
        total_vram: 24 * GIB,
        used_vram: 0,
        busy_pct: 0,
        temp_c: None,
        display_attached: false,
    }
}

#[test]
fn model_visible_gpus_filters_by_vulkan_or_pci_device() {
    let gpus = vec![gpu("1", "0000:03:00.0", 1), gpu("4", "0000:1b:00.0", 0)];
    let mut m = model("a");
    m.device = Some("pci:0000:1b:00.0".into());
    normalize_model_device_for_llama(&mut m, &gpus);
    assert_eq!(m.device.as_deref(), Some("Vulkan0"));

    let selected = model_visible_gpus(&m, &gpus);
    assert_eq!(selected.len(), 1);
    assert_eq!(selected[0].pci_bus_id.as_deref(), Some("0000:1b:00.0"));
}

#[test]
fn extra_args_device_is_preserved_but_not_used_for_router_placement() {
    let gpus = vec![gpu("1", "0000:03:00.0", 1), gpu("4", "0000:1b:00.0", 0)];
    let mut m = model("a");
    m.device = Some("Vulkan1".into());
    m.extra_args = vec![
        "--device".into(),
        "pci:0000:1b:00.0".into(),
        "--threads".into(),
        "16".into(),
    ];

    normalize_model_device_for_llama(&mut m, &gpus);

    assert_eq!(m.device.as_deref(), Some("Vulkan1"));
    assert_eq!(
        m.extra_args,
        vec!["--device", "pci:0000:1b:00.0", "--threads", "16"]
    );
    let selected = model_visible_gpus(&m, &gpus);
    assert_eq!(selected[0].vulkan_device.as_deref(), Some("Vulkan1"));
}

fn fit_sizing(
    n_gpu_layers: Option<i32>,
    override_tensor: Option<&str>,
    device_vram: u64,
) -> LlamaFitSizing {
    LlamaFitSizing {
        fitted: LlamaFittedArgs {
            context: None,
            n_gpu_layers,
            tensor_split: None,
            override_tensor: override_tensor.map(str::to_string),
        },
        device_vram,
    }
}

fn spill_candidate(gpus_used: usize, device_vram: u64) -> FitCandidate {
    FitCandidate {
        backend: Backend::Vulkan,
        device: format!("Vulkan{}", gpus_used - 1),
        free: device_vram,
        gpus_used,
        sizing: fit_sizing(
            Some(12),
            Some(r"blk\.(12|13)\.ffn_.*_exps=CPU"),
            device_vram,
        ),
    }
}

#[test]
fn fitted_full_gpu_requires_layers_and_no_cpu_tensor_override() {
    assert!(fitted_fully_on_gpu(&fit_sizing(Some(-1), None, 0), 64));
    assert!(fitted_fully_on_gpu(&fit_sizing(Some(64), None, 0), 64));
    assert!(!fitted_fully_on_gpu(&fit_sizing(Some(12), None, 0), 64));
    assert!(!fitted_fully_on_gpu(
        &fit_sizing(Some(-1), Some(r"blk\.(12|13)\.ffn_.*_exps=CPU"), 0),
        64
    ));
}

#[test]
fn spill_candidate_prefers_more_gpus_before_more_vram() {
    let mut best = None;
    keep_best_spill_candidate(&mut best, spill_candidate(1, 64));
    keep_best_spill_candidate(&mut best, spill_candidate(2, 48));
    keep_best_spill_candidate(&mut best, spill_candidate(2, 96));

    let best = best.unwrap();
    assert_eq!(best.gpus_used, 2);
    assert_eq!(best.sizing.device_vram, 96);
}

#[test]
fn scale_out_rejects_cpu_spill_placement() {
    assert!(scale_out_accepts_placement(true));
    assert!(!scale_out_accepts_placement(false));
}

#[test]
fn device_list_is_canonicalized_to_vulkan_order() {
    let gpus = vec![
        gpu("1", "0000:03:00.0", 1),
        gpu("3", "0000:0a:00.0", 3),
        gpu("4", "0000:1b:00.0", 0),
    ];
    let mut m = model("a");
    m.device = Some("Vulkan3,pci:0000:1b:00.0,Vulkan1".into());

    normalize_model_device_for_llama(&mut m, &gpus);

    assert_eq!(m.device.as_deref(), Some("Vulkan0,Vulkan1,Vulkan3"));
    let selected = model_visible_gpus(&m, &gpus);
    assert_eq!(
        selected
            .iter()
            .map(|g| g.vulkan_device.as_deref().unwrap())
            .collect::<Vec<_>>(),
        vec!["Vulkan0", "Vulkan1", "Vulkan3"]
    );
}

#[test]
fn model_visible_gpus_filters_by_cuda_device() {
    let gpus = vec![cuda_gpu()];
    let mut m = model("cuda-target");
    m.device = Some("CUDA0".into());

    normalize_model_device_for_llama(&mut m, &gpus);

    assert_eq!(m.device.as_deref(), Some("CUDA0"));
    let selected = model_visible_gpus(&m, &gpus);
    assert_eq!(selected.len(), 1);
    assert_eq!(selected[0].cuda_device.as_deref(), Some("CUDA0"));
}

#[test]
fn automatic_vulkan_pool_excludes_accounting_only_gpus() {
    let mut raw = gpu("0", "0000:1e:00.0", 4);
    raw.vulkan_device = None;
    raw.vulkan_index = None;
    let amd = gpu("1", "0000:03:00.0", 0);

    let mut auto = model("auto");
    auto.binary_preset = Some("llama-vulkan".into());

    let visible = model_visible_gpus(&auto, &[raw, amd]);

    assert_eq!(visible.len(), 1);
    assert_eq!(visible[0].pci_bus_id.as_deref(), Some("0000:03:00.0"));
}

#[test]
fn automatic_cuda_pool_uses_cuda_devices() {
    let cuda = cuda_gpu();
    let vulkan = gpu("1", "0000:03:00.0", 0);
    let mut auto = model("auto-cuda");
    auto.binary_preset = Some("llama-cuda".into());

    assert!(model_uses_cuda_backend(&auto));
    let visible = model_visible_gpus(&auto, &[cuda, vulkan]);

    assert_eq!(visible.len(), 1);
    assert_eq!(visible[0].cuda_device.as_deref(), Some("CUDA0"));
}

#[test]
fn integrated_gpu_excluded_from_auto_pool_but_selectable_explicitly() {
    let mut igpu = gpu("0", "0000:08:00.0", 2);
    igpu.integrated = true;
    let dgpu = gpu("1", "0000:03:00.0", 0);

    // No device configured → automatic placement: the iGPU is excluded.
    let auto = model("auto");
    let visible = model_visible_gpus(&auto, &[igpu.clone(), dgpu.clone()]);
    assert_eq!(visible.len(), 1);
    assert_eq!(visible[0].pci_bus_id.as_deref(), Some("0000:03:00.0"));

    // Explicitly targeting the iGPU runs the model there.
    let mut targeted = model("on-igpu");
    targeted.device = Some("Vulkan2".into());
    let visible = model_visible_gpus(&targeted, &[igpu, dgpu]);
    assert_eq!(visible.len(), 1);
    assert!(visible[0].integrated);
    assert_eq!(visible[0].pci_bus_id.as_deref(), Some("0000:08:00.0"));
}

#[test]
fn devices_are_named_in_several_ways() {
    let gpus = [gpu("1", "0000:03:00.0", 1)];
    assert_eq!(split_device_list(" a, b ,,"), vec!["a", "b"]);
    assert!(gpu_matches_device(&gpus[0], "Vulkan1"));
    assert!(gpu_matches_device(&gpus[0], "pci:0000:03:00.0"));
    assert!(!gpu_matches_device(&gpus[0], "Vulkan0"));
    assert_eq!(resolve_llama_device("pci:0000:03:00.0", &gpus), Some("Vulkan1".to_string()));
    assert_eq!(device_vulkan_index("Vulkan1", &gpus), Some(1));
}

// ----- the controller -----

#[test]
fn add_list_remove_roundtrip() {
    let mut o = orch();
    o.add_model(model("a")).unwrap();
    assert_eq!(o.list_models().len(), 1);
    o.remove_model("a", 0).unwrap();
    assert_eq!(o.list_models().len(), 0);
}

#[test]
fn add_model_duplicate_id_errors() {
    let mut o = orch();
    o.add_model(model("a")).unwrap();
    let err = o.add_model(model("a")).unwrap_err();
    assert!(matches!(err, MutationError::Conflict(_)));
}

#[test]
fn mark_used_updates_last_used_and_marks_dirty() {
    let mut o = orch();
    o.add_model(model("a")).unwrap();
    // last_used starts as None.
    assert!(get_model(&o, "a").last_used.is_none());

    o.dirty = false;
    o.mark_used("a", 17);
    assert!(get_model(&o, "a").last_used.is_some());
    assert!(o.dirty, "mark_used must mark dirty so reconcile persists");
}

#[test]
fn mark_used_unknown_model_is_a_noop() {
    let mut o = orch();
    o.dirty = false;
    o.mark_used("does-not-exist", 17);
    assert!(!o.dirty);
}

#[test]
fn a_load_that_is_broken_off_leaves_the_loading_state() {
    let mut o = orch();
    o.add_model(model("a")).unwrap();
    o.claim_loading("a").unwrap();
    assert!(matches!(get_model(&o, "a").state, ModelState::Loading));
    let e = o.load_broken_off("a", "panicked");
    assert!(matches!(get_model(&o, "a").state, ModelState::Error(_)), "{}", e.message());
}

#[test]
fn a_busy_instance_is_reused_where_it_is_there() {
    let mut o = orch();
    o.add_model(model("a")).unwrap();
    o.process_manager.register_existing_instance("a", -1, 9000);
    let _busy = o.process_manager.acquire_idle_instance("a").unwrap();
    assert_eq!(o.process_manager.acquire_any_instance("a").unwrap().port, 9000);
}

#[test]
fn list_models_returns_sorted_by_id() {
    let mut o = orch();
    o.add_model(model("charlie")).unwrap();
    o.add_model(model("alpha")).unwrap();
    o.add_model(model("bravo")).unwrap();
    let ids: Vec<String> = o.list_models().into_iter().map(|m| m.id).collect();
    assert_eq!(ids, vec!["alpha", "bravo", "charlie"]);
}

#[test]
fn update_model_clears_estimate_when_path_changes() {
    let mut o = orch();
    let mut m = model("a");
    m.estimated_vram = 7_000_000_000;
    o.add_model(m.clone()).unwrap();
    let at = o.data.models.find("a").unwrap();
    o.data.models.at_mut(at).estimated_vram = 7_000_000_000;
    let mut updated = m.clone();
    updated.model_path = "/tmp/m2.gguf".into();
    o.update_model(updated, 0).unwrap();
    assert_eq!(get_model(&o, "a").estimated_vram, 0);
}

#[test]
fn update_running_model_name_only_keeps_running() {
    let mut o = orch();
    let mut m = model("a");
    m.state = ModelState::Running;
    m.pid = Some(123);
    o.add_model(m.clone()).unwrap();

    m.name = "renamed".into();
    o.update_model(m, 0).unwrap();

    let after = get_model(&o, "a");
    assert_eq!(after.name, "renamed");
    assert!(matches!(after.state, ModelState::Running));
    assert_eq!(after.pid, Some(123));
}

#[test]
fn update_running_model_spawn_change_stops_to_apply_new_config() {
    let mut o = orch();
    let mut m = model("a");
    m.state = ModelState::Running;
    m.pid = Some(123);
    o.add_model(m.clone()).unwrap();

    m.context = 8192;
    o.update_model(m, 0).unwrap();

    let after = get_model(&o, "a");
    assert_eq!(after.context, 8192);
    assert!(matches!(after.state, ModelState::Idle));
    assert_eq!(after.pid, None);
    assert_eq!(after.estimated_vram, 0);
}

#[test]
fn restart_clears_stale_running_state() {
    let mut m = model("a");
    m.state = ModelState::Running;
    m.pid = Some(12345);
    let stored = StoredModel { model: m, numbers: vec![], near: vec![] };
    let o = Orchestrator::new(vec![stored], vec![], vec![], &env(), 8080);
    let loaded = get_model(&o, "a");
    assert!(matches!(loaded.state, ModelState::Idle));
    assert_eq!(loaded.pid, None);
}

#[test]
fn reconcile_marks_dead_process_as_error() {
    let mut o = orch();
    let mut m = model("a");
    m.state = ModelState::Running;
    m.pid = Some(999_999);
    o.add_model(m).unwrap();

    // Register a synthetic instance with a definitely-dead pid.
    o.process_manager.register_existing_instance("a", 999_999, 9000);

    o.reconcile(vec![], &vec![]);
    let after = get_model(&o, "a");
    match &after.state {
        ModelState::Error(msg) => assert!(msg.contains("999999") || msg.contains("died")),
        other => panic!("expected Error, got {:?}", other),
    }
    assert_eq!(after.pid, None);
}

fn draft_model(id: &str) -> ModelConfig {
    ModelConfig {
        id: id.into(),
        name: id.into(),
        model_path: "/tmp/draft.gguf".into(),
        context: 16384,
        device: Some("Vulkan1".into()),
        ..ModelConfig::default()
    }
}

#[test]
fn add_model_with_draft_reference() {
    let mut o = orch();
    o.add_model(draft_model("d")).unwrap();
    let mut t = model("t");
    t.draft_model_id = Some("d".into());
    t.draft_max = Some(16);
    t.ctx_checkpoints = Some(4);
    o.add_model(t).unwrap();
    assert_eq!(o.list_models().len(), 2);
}

#[test]
fn add_model_referencing_nonexistent_draft_errors() {
    let mut o = orch();
    let mut t = model("t");
    t.draft_model_id = Some("missing".into());
    let err = o.add_model(t).unwrap_err();
    assert!(matches!(
        err,
        MutationError::InvalidConfig(ConfigError::DraftNotFound { .. }),
    ));
}

#[test]
fn model_cannot_reference_itself_as_draft() {
    let mut o = orch();
    let mut t = model("t");
    t.draft_model_id = Some("t".into());
    let err = o.add_model(t).unwrap_err();
    assert!(matches!(
        err,
        MutationError::InvalidConfig(ConfigError::DraftSelfReference),
    ));
}

#[test]
fn remove_model_in_use_as_draft_errors_with_referrers() {
    let mut o = orch();
    o.add_model(draft_model("d")).unwrap();
    let mut t1 = model("t1");
    t1.draft_model_id = Some("d".into());
    let mut t2 = model("t2");
    t2.draft_model_id = Some("d".into());
    o.add_model(t1).unwrap();
    o.add_model(t2).unwrap();

    let err = o.remove_model("d", 0).unwrap_err();
    match err {
        MutationError::DraftInUse { id, mut targets } => {
            assert_eq!(id, "d");
            targets.sort();
            assert_eq!(targets, vec!["t1".to_string(), "t2".to_string()]);
        }
        other => panic!("expected DraftInUse, got {other:?}"),
    }
}

#[test]
fn remove_model_after_unreferencing_succeeds() {
    let mut o = orch();
    o.add_model(draft_model("d")).unwrap();
    let mut t = model("t");
    t.draft_model_id = Some("d".into());
    o.add_model(t.clone()).unwrap();

    // Clear the reference, then delete.
    t.draft_model_id = None;
    o.update_model(t, 0).unwrap();
    assert!(o.remove_model("d", 0).is_ok());
}

#[test]
fn reserved_vram_prevents_concurrent_overcommit() {
    let mut card = plain_gpu("card0", 0);
    card.total_vram = 10 * GIB;
    card.used_vram = 0;
    let mut o = orch();
    o.set_gpus(vec![card]);
    // A process was started that will hold 6 GiB; nothing shows it yet.
    o.reserved_vram = 6 * GIB;

    let raw_free: u64 = o.data.gpus.iter().map(|g| g.free_vram()).sum();
    assert_eq!(raw_free, 10 * GIB, "sysfs still shows 10 GiB");
    let left = subtract_reserved_from_gpus(o.data.gpus.clone(), o.reserved_vram);
    let effective_free: u64 = left.iter().map(|g| g.free_vram()).sum();
    assert_eq!(effective_free, 4 * GIB, "but effective free is only 4 GiB");
    assert!(effective_free < 6 * GIB);
}

#[test]
fn reconcile_persists_only_when_dirty() {
    let mut o = orch();
    // First: nothing dirty, nothing to write.
    assert!(o.reconcile(vec![], &vec![]).models.is_none());

    // Add a model → dirty → the models are written.
    o.add_model(model("a")).unwrap();
    let plan = o.reconcile(vec![], &vec![]);
    assert_eq!(plan.models.unwrap().len(), 1);

    // Idle: nothing is written again.
    assert!(o.reconcile(vec![], &vec![]).models.is_none());
}

#[test]
fn reconcile_persists_settings_when_dirty() {
    let mut o = Orchestrator::new_with_settings_store(
        vec![],
        vec![],
        vec![],
        AppSettings::default(),
        vec![],
        &env(),
        8080,
    );

    let mut next = o.settings();
    next.loop_guards.streaming.repeats = 7;
    next.loop_guards.streaming.action = StreamingLoopAction::Log;
    next.loop_guards.tool.window_messages = 24;
    o.update_settings(next);

    let saved = o.reconcile(vec![], &vec![]).settings.unwrap();
    assert_eq!(saved.loop_guards.streaming.repeats, 7);
    assert_eq!(saved.loop_guards.streaming.action, StreamingLoopAction::Log);
    assert_eq!(saved.loop_guards.tool.window_messages, 24);
}

fn alias(name: &str, target: &str) -> ModelAlias {
    ModelAlias {
        alias: name.into(),
        target: target.into(),
    }
}

#[test]
fn add_alias_requires_existing_target() {
    let mut o = orch();
    // Target model does not exist yet.
    let err = o.add_alias(alias("fast", "qwen")).unwrap_err();
    assert!(matches!(err, MutationError::AliasTargetMissing { .. }));

    o.add_model(model("qwen")).unwrap();
    o.add_alias(alias("fast", "qwen")).unwrap();
    assert_eq!(o.list_aliases().len(), 1);
}

#[test]
fn alias_resolves_to_target_and_passthrough_for_unknown() {
    let mut o = orch();
    o.add_model(model("qwen")).unwrap();
    o.add_alias(alias("fast", "qwen")).unwrap();

    assert_eq!(o.resolve_model_id("fast"), "qwen");
    // A non-alias name passes through unchanged.
    assert_eq!(o.resolve_model_id("qwen"), "qwen");
    assert_eq!(o.resolve_model_id("unknown"), "unknown");
}

#[test]
fn alias_cannot_shadow_model_id_or_duplicate() {
    let mut o = orch();
    o.add_model(model("qwen")).unwrap();
    o.add_model(model("llama")).unwrap();

    // Alias name equal to an existing model id is rejected.
    let err = o.add_alias(alias("llama", "qwen")).unwrap_err();
    assert!(matches!(err, MutationError::AliasShadowsModel(_)));

    o.add_alias(alias("fast", "qwen")).unwrap();
    // Duplicate alias name is rejected.
    let err = o.add_alias(alias("fast", "llama")).unwrap_err();
    assert!(matches!(err, MutationError::AliasConflict(_)));
}

#[test]
fn deleting_model_unassigns_aliases_but_keeps_them() {
    let mut o = orch();
    o.add_model(model("qwen")).unwrap();
    o.add_model(model("llama")).unwrap();
    o.add_alias(alias("fast", "qwen")).unwrap();
    o.add_alias(alias("big", "llama")).unwrap();

    o.remove_model("qwen", 0).unwrap();

    // Both aliases survive; the one pointing at "qwen" is now unassigned.
    let aliases: Vec<(String, String)> =
        o.list_aliases().into_iter().map(|a| (a.alias, a.target)).collect();
    assert_eq!(
        aliases,
        vec![("big".to_string(), "llama".to_string()), ("fast".to_string(), String::new())]
    );
    // An unassigned alias resolves to an empty target (handled as an error
    // at the proxy layer).
    assert_eq!(o.resolve_model_id("fast"), "");
}

#[test]
fn add_alias_rejects_invalid_names() {
    let mut o = orch();
    o.add_model(model("qwen")).unwrap();
    let too_long = "x".repeat(65);
    for bad in ["Planner", "my alias", "a/b", "café", "", too_long.as_str()] {
        let err = o.add_alias(alias(bad, "qwen")).unwrap_err();
        assert!(
            matches!(err, MutationError::AliasInvalid(_)),
            "expected {bad:?} to be rejected as invalid",
        );
    }
    // Canonical names are accepted.
    o.add_alias(alias("gpt-4o.fast_v2", "qwen")).unwrap();
}

#[test]
fn alias_can_target_another_alias_and_follows_repoints() {
    let mut o = orch();
    o.add_model(model("qwen")).unwrap();
    o.add_model(model("llama")).unwrap();
    o.add_alias(alias("default", "qwen")).unwrap();
    // Several aliases reference `default` instead of a concrete model.
    o.add_alias(alias("coder", "default")).unwrap();
    o.add_alias(alias("planner", "default")).unwrap();

    assert_eq!(o.resolve_model_id("coder"), "qwen");
    assert_eq!(o.resolve_model_id("planner"), "qwen");

    // Repointing `default` propagates to every alias that references it,
    // without touching those aliases.
    o.update_alias(alias("default", "llama")).unwrap();
    assert_eq!(o.resolve_model_id("coder"), "llama");
    assert_eq!(o.resolve_model_id("planner"), "llama");
    // The referencing aliases still store the reference, not the model.
    let coder = o.list_aliases().into_iter().find(|a| a.alias == "coder").unwrap();
    assert_eq!(coder.target, "default");
}

#[test]
fn alias_chain_through_unassigned_resolves_empty() {
    let mut o = orch();
    o.add_alias(alias("default", "")).unwrap(); // unassigned
    o.add_alias(alias("coder", "default")).unwrap();
    assert_eq!(o.resolve_model_id("coder"), "");
}

#[test]
fn alias_cycles_are_rejected() {
    let mut o = orch();
    o.add_model(model("qwen")).unwrap();
    o.add_alias(alias("a", "qwen")).unwrap();
    o.add_alias(alias("b", "a")).unwrap();
    // a → b would close the loop a → b → a.
    let err = o.update_alias(alias("a", "b")).unwrap_err();
    assert!(matches!(err, MutationError::AliasCycle { .. }));
    // Resolution is unaffected (the cyclic update was rejected).
    assert_eq!(o.resolve_model_id("b"), "qwen");
}

#[test]
fn ways_through_aliases_are_followed_to_their_ends() {
    let alias = |a: &str, t: &str| ModelAlias { alias: a.into(), target: t.into() };
    let table =
        Table::from_list(vec![alias("a", "b"), alias("b", "m"), alias("c", ""), alias("d", "d")]);
    assert!(matches!(follow(&table, "a"), WayEnd::Name(n) if n == "m"));
    assert!(matches!(follow(&table, "other"), WayEnd::Name(n) if n == "other"));
    assert!(matches!(follow(&table, "c"), WayEnd::Unassigned));
    assert!(matches!(follow(&table, "d"), WayEnd::Circle));
    assert!(target_creates_cycle(&table, "b", "a"));
    assert!(target_creates_cycle(&table, "new", "d"));
    assert!(!target_creates_cycle(&table, "new", "a"));
    assert!(!target_creates_cycle(&table, "b", "c"));
    assert!(is_valid_alias_name("a.b_c-9") && !is_valid_alias_name("A") && !is_valid_alias_name(""));
}

#[test]
fn deleting_alias_unassigns_aliases_referencing_it() {
    let mut o = orch();
    o.add_model(model("qwen")).unwrap();
    o.add_alias(alias("default", "qwen")).unwrap();
    o.add_alias(alias("coder", "default")).unwrap();

    o.remove_alias("default").unwrap();
    let coder = o.list_aliases().into_iter().find(|a| a.alias == "coder").unwrap();
    assert_eq!(
        coder.target, "",
        "coder should be unassigned after default is deleted"
    );
    assert!(matches!(o.remove_alias("default"), Err(MutationError::AliasNotFound(_))));
}

#[test]
fn alias_can_be_created_unassigned_then_pointed_at_a_model() {
    let mut o = orch();
    // Canonical interface name defined before any model is assigned.
    o.add_alias(alias("planner", "")).unwrap();
    assert_eq!(o.resolve_model_id("planner"), "");

    o.add_model(model("qwen")).unwrap();
    o.update_alias(alias("planner", "qwen")).unwrap();
    assert_eq!(o.resolve_model_id("planner"), "qwen");

    // Reassigning to a non-existent model is still rejected.
    let err = o.update_alias(alias("planner", "ghost")).unwrap_err();
    assert!(matches!(err, MutationError::AliasTargetMissing { .. }));
}

#[test]
fn reconcile_persists_aliases_when_dirty() {
    let mut o = orch();
    o.add_model(model("qwen")).unwrap();
    o.add_alias(alias("fast", "qwen")).unwrap();
    let saved = o.reconcile(vec![], &vec![]).aliases.unwrap();
    assert_eq!(saved.len(), 1);
    assert_eq!((saved[0].alias.as_str(), saved[0].target.as_str()), ("fast", "qwen"));
}

#[test]
fn what_could_not_be_saved_is_saved_again() {
    let mut o = orch();
    o.add_model(model("a")).unwrap();
    assert!(o.reconcile(vec![], &vec![]).models.is_some());
    o.save_failed(true, false, false, false);
    let plan = o.reconcile(vec![], &vec![]);
    assert!(plan.models.is_some() && plan.aliases.is_none() && plan.presets.is_none());
}

// ----- programs -----

fn preset(id: &str, binary: &str) -> BinaryPreset {
    BinaryPreset { id: id.into(), name: id.into(), binary: binary.into(), targets: vec![] }
}

#[test]
fn presets_are_added_changed_and_removed() {
    let mut o = orch();
    o.add_preset(preset("p", "/x/vulkan/server")).unwrap();
    assert!(matches!(o.add_preset(preset("p", "/y")), Err(MutationError::Conflict(_))));
    o.update_preset(preset("p", "/y/rocm/server"), 0).unwrap();
    assert_eq!(o.list_presets()[0].binary, "/y/rocm/server");
    let mut m = model("a");
    m.binary_preset = Some("p".into());
    assert_eq!(resolve_targets(&m, &o.data.presets), vec![Backend::Rocm]);
    assert!(matches!(o.update_preset(preset("q", "/y"), 0), Err(MutationError::NotFound(_))));
    o.remove_preset("p").unwrap();
    assert!(matches!(o.remove_preset("p"), Err(MutationError::NotFound(_))));
}

// ----- loading -----

#[test]
fn a_load_needs_a_model_and_a_program() {
    let mut o = orch();
    assert!(matches!(o.prepare_load("a", &[]), Err(LoadError::ModelNotFound(_))));
    let mut m = model("a");
    m.binary_preset = Some("gone".into());
    o.add_model(m).unwrap();
    let e = match o.prepare_load("a", &[]) {
        Err(e) => e,
        Ok(_) => panic!("a preset that does not exist"),
    };
    assert!(matches!(e, LoadError::PresetNotFound(_)));
    assert!(is_configuration_load_error(&e));
    let mut m = model("b");
    m.binary = String::new();
    o.add_model(m).unwrap();
    assert!(matches!(o.prepare_load("b", &[]), Err(LoadError::NoBinary(_))));
    o.add_model(model("c")).unwrap();
    let r = match o.prepare_load("c", &[]) {
        Ok(r) => r,
        Err(e) => panic!("{}", e.message()),
    };
    assert_eq!((r.model.id.as_str(), r.draft.is_none()), ("c", true));
}

#[test]
fn a_child_that_becomes_ready_runs() {
    let mut o = orch();
    o.add_model(model("a")).unwrap();
    o.claim_loading("a").unwrap();
    let m = model("a");
    let (child, args) = o.plan_spawn(&m, None, 9100);
    assert!(args.contains(&"9100".to_string()));
    o.child_started("a", 9100, 5, false, 1);
    assert_eq!(o.reserved_vram, 5);
    let guard = o.child_ready("a", child, 42, 5, false, 2);
    assert_eq!((guard.port, guard.pid, o.reserved_vram), (9100, 42, 0));
    assert!(matches!(get_model(&o, "a").state, ModelState::Running));
    assert_eq!(get_model(&o, "a").pid, Some(42));
    assert!(matches!(o.acquire("a"), Acquire::Busy));
    o.process_manager.release(guard);
    match o.acquire("a") {
        Acquire::Ready(g) => assert_eq!(g.port, 9100),
        _ => panic!("the instance is idle"),
    }
    assert!(matches!(o.acquire("b"), Acquire::Absent));
    assert!(matches!(o.begin_scale("a"), ScaleStep::MayGrow));
    o.max_instances_per_model = 1;
    assert!(matches!(o.begin_scale("a"), ScaleStep::AtLimit));
}

#[test]
fn a_child_that_fails_is_forgotten() {
    let mut o = orch();
    o.add_model(model("a")).unwrap();
    o.claim_loading("a").unwrap();
    let m = model("a");
    let (child, _) = o.plan_spawn(&m, None, 9100);
    o.child_started("a", 9100, 5, false, 1);
    let e = o.child_failed("a", child, 5, false, HealthCheckError::Timeout(3), 2);
    assert!(matches!(e, LoadError::SpawnFailed(_)));
    assert_eq!(o.reserved_vram, 0);
    assert_eq!(o.process_manager.total_instance_count("a"), 0);
    o.load_failed("a", &e);
    match &get_model(&o, "a").state {
        ModelState::Error(m) => assert_eq!(*m, e.message()),
        other => panic!("{other:?}"),
    }
}

#[test]
fn stopping_a_model_makes_it_idle() {
    let mut o = orch();
    assert!(matches!(o.stop_model("a", 0), Err(StopError::ModelNotFound(_))));
    let mut m = model("a");
    m.state = ModelState::Running;
    o.add_model(m).unwrap();
    o.add_model(model("b")).unwrap();
    start(&mut o, "a", 7, 9000);
    start(&mut o, "b", 8, 9001);
    assert_eq!(o.stop_model("a", 0).unwrap(), vec![7]);
    assert!(matches!(get_model(&o, "a").state, ModelState::Idle));
    assert_eq!(o.process_manager.instance_count("a"), 0);
    assert_eq!(o.process_manager.instance_count("b"), 1);
}

#[test]
fn room_is_made_by_stopping_idle_models() {
    let mut o = orch();
    let mut m = model("a");
    m.state = ModelState::Running;
    m.estimated_vram = 10;
    o.add_model(m).unwrap();
    let at = o.data.models.find("a").unwrap();
    o.data.models.at_mut(at).state = ModelState::Running;
    o.data.models.at_mut(at).estimated_vram = 10;
    o.add_model(model("b")).unwrap();
    start(&mut o, "a", 7, 9000);
    assert_eq!(o.make_room("b", &vec![1, 2], 0, 5, 0), vec![7]);
    assert!(matches!(get_model(&o, "a").state, ModelState::Idle));
    assert_eq!(o.process_manager.instance_count("a"), 0);
}

#[test]
fn placements_decide_what_comes_next() {
    let full = PlaceOutcome::Placed { backend: Backend::Cuda, gpus_used: 1, free: 9, fully_on_gpu: true };
    assert!(matches!(after_first_placement(&full, 5), FirstPlacement::Start));
    assert!(matches!(after_first_placement(&PlaceOutcome::Fits, 5), FirstPlacement::Start));
    assert!(matches!(
        after_first_placement(&PlaceOutcome::DoesNotFit { free: 3 }, 5),
        FirstPlacement::MakeRoom { free: 3, .. }
    ));
    assert!(extra_instance_fits(&full));
    assert!(!extra_instance_fits(&PlaceOutcome::DoesNotFit { free: 3 }));
    assert!(after_second_placement(&full, true, "a", 5).is_ok());
    assert!(matches!(
        after_second_placement(&PlaceOutcome::DoesNotFit { free: 3 }, true, "a", 5),
        Err(LoadError::InsufficientVram { needed: 5, free: 3, .. })
    ));
}

#[test]
fn a_probe_decides_where_a_model_goes() {
    let mut m = model("a");
    m.estimated_vram = 10 * GIB;
    let gpus = [rocm_gpu(0, 30_000_000_000)];
    let probe = match place_model(&mut m, &[Backend::Rocm], &gpus, 0, 98, 80, &vec![], 64, false) {
        PlacementStep::Probe(p) => p,
        _ => panic!("a probe comes first"),
    };
    assert_eq!((probe.device.as_str(), probe.gpus_used), ("ROCm0", 1));
    let results = vec![ProbeResult::Sized(fit_sizing(Some(-1), None, 9 * GIB))];
    match place_model(&mut m, &[Backend::Rocm], &gpus, 0, 98, 80, &results, 64, false) {
        PlacementStep::Done(PlaceOutcome::Placed { gpus_used, fully_on_gpu, .. }) => {
            assert_eq!((gpus_used, fully_on_gpu), (1, true));
        }
        _ => panic!("it fits"),
    }
    assert_eq!(m.device.as_deref(), Some("ROCm0"));
    let mut m = model("a");
    m.estimated_vram = 100 * GIB;
    assert!(matches!(
        try_place(&mut m, &[Backend::Cuda], &[], 0, 98, 80),
        PlaceOutcome::DoesNotFit { .. }
    ));
}

#[test]
fn sizings_are_taken_over() {
    let mut m = model("a");
    let mut s = fit_sizing(Some(12), Some("x=CPU"), 5);
    s.fitted.context = Some(2048);
    apply_sizing_to_model(&mut m, &s);
    assert_eq!((m.n_gpu_layers, m.override_tensor.as_deref()), (Some(12), Some("x=CPU")));
    assert!(override_tensor_uses_cpu("a=GPU,x=CPU") && !override_tensor_uses_cpu("a=CUDA0"));
}

#[test]
fn probes_leave_reserved_memory_alone() {
    assert_eq!(bytes_to_mib_ceil(1), 1);
    assert_eq!(bytes_to_mib_ceil(1024 * 1024), 1);
    let whole = gpu("1", "0000:03:00.0", 0);
    let left = subtract_reserved_from_gpus(vec![whole.clone()], GIB);
    assert!(same_gpu(&whole, &left[0]));
    assert_eq!(
        // Two percent of 32 GiB and the 1 GiB that is promised, rounded up.
        fit_target_for_probe_mib(&left[0], &[whole.clone()], 98, 80),
        1680
    );
}

// ----- step by step -----

const FACTS: ModelFacts = ModelFacts { read_layers: Some(64), server_owned: false };

fn rocm_orch(free: u64) -> Orchestrator {
    let mut o = orch();
    o.add_preset(BinaryPreset {
        id: "p".into(),
        name: "p".into(),
        binary: "/x/server".into(),
        targets: vec![Backend::Rocm],
    })
    .unwrap();
    let mut m = model("a");
    m.binary_preset = Some("p".into());
    o.add_model(m).unwrap();
    o.set_gpus(vec![rocm_gpu(0, free)]);
    o
}

fn scores(o: &Orchestrator) -> Vec<u64> {
    (0..o.data.models.len()).map(|i| eviction_score(o.data.models.at(i), NOW).to_bits()).collect()
}

/// Starts a process with the given answers, up to the point where it comes up.
fn run_start(o: &mut Orchestrator, free: u64, extra: bool) -> Option<(u16, i32)> {
    let looking = match o.begin_start("a", extra) {
        BeginStep::Look(l) => l,
        BeginStep::Done(g) => return g.map(|g| (g.port, g.pid)),
    };
    let s = scores(o);
    let mut step = o.gpus_seen(looking, vec![rocm_gpu(0, free)], FACTS, &s, 1).unwrap();
    let porting = loop {
        step = match step {
            PlaceStep::Probe(p, probe) => {
                assert_eq!(probe.device, "ROCm0");
                let sizing = fit_sizing(Some(-1), None, 20_000_000_000);
                o.probe_answered(p, ProbeResult::Sized(sizing), &s, 1).unwrap()
            }
            PlaceStep::Clear(c, pids) => {
                assert!(pids.is_empty());
                o.room_cleared(c, vec![rocm_gpu(0, free)], &s, 1).unwrap()
            }
            PlaceStep::Port(s) => break s,
            PlaceStep::NoRoom => return None,
        };
    };
    let asked = match o.seek_port(porting).unwrap() {
        PortNext::Ask(s, None) => s,
        _ => panic!("the system is asked for a port"),
    };
    let (spawning, args) = match o.port_answered(asked, Some(9300)).unwrap() {
        PortNext::Spawn(s, args) => (s, args),
        _ => panic!("the port is free"),
    };
    assert!(args.windows(2).any(|w| w == ["--port", "9300"]));
    assert_eq!(spawning.request.model.binary, "/x/server");
    let starting = o.process_made(spawning, Ok(55), 2).unwrap();
    assert_eq!(o.reserved_vram, 20_000_000_000);
    let guard = o.process_up(starting, Ok(()), 3).unwrap();
    assert_eq!(o.reserved_vram, 0);
    Some((guard.port, guard.pid))
}

fn meta_with_layers(n_layers: u32) -> GgufMeta {
    GgufMeta {
        max_context: 1,
        n_layers,
        n_embd: 1,
        n_head: 1,
        n_head_kv: 1,
        key_length: 1,
        key_length_swa: 1,
        full_kv_heads: 1,
        swa_kv_heads: 1,
        kv_heads_total: 1,
        sliding_window: 0,
        file_size: 5,
        quant_label: None,
        expert_count: None,
        expert_used_count: None,
        suggested_id: "a".to_string(),
        suggested_name: "A".to_string(),
    }
}

#[test]
fn layers_are_those_of_the_definition_first() {
    let mut m = model("a");
    assert_eq!(model_n_layers(&m, Some(7)), Some(7));
    assert_eq!(model_n_layers(&m, None), None);
    m.gguf_meta = Some(meta_with_layers(5));
    assert_eq!(model_n_layers(&m, Some(7)), Some(5));
}

#[test]
fn a_process_is_started_step_by_step() {
    let mut o = rocm_orch(30_000_000_000);
    assert_eq!(run_start(&mut o, 30_000_000_000, false), Some((9300, 55)));
    assert!(matches!(get_model(&o, "a").state, ModelState::Running));
    assert_eq!(get_model(&o, "a").estimated_vram, 20_000_000_000);
    let told: Vec<String> = o.recent_events().into_iter().map(|e| e.message).collect();
    assert_eq!(told, ["a ready on port 9300", "loading a on port 9300"]);
}

#[test]
fn a_further_process_is_started_only_where_there_is_room() {
    let mut o = rocm_orch(30_000_000_000);
    run_start(&mut o, 30_000_000_000, false).unwrap();
    assert_eq!(run_start(&mut o, 30_000_000_000, true), Some((9300, 55)));
    // Both are busy now; a third would spill.
    let looking = match o.begin_start("a", true) {
        BeginStep::Look(l) => l,
        BeginStep::Done(_) => panic!("there may be one more"),
    };
    let s = scores(&o);
    let p = match o.gpus_seen(looking, vec![rocm_gpu(0, 9_000_000_000)], FACTS, &s, 1).unwrap() {
        PlaceStep::Probe(p, _) => p,
        _ => panic!("a probe comes first"),
    };
    let spill = ProbeResult::Sized(fit_sizing(Some(12), None, 9_000_000_000));
    assert!(matches!(o.probe_answered(p, spill, &s, 1), Ok(PlaceStep::NoRoom)));
}

#[test]
fn room_is_made_once_and_failure_is_told() {
    let mut o = rocm_orch(0);
    let mut b = model("b");
    b.state = ModelState::Running;
    o.add_model(b).unwrap();
    let at = o.data.models.find("b").unwrap();
    o.data.models.at_mut(at).state = ModelState::Running;
    o.data.models.at_mut(at).estimated_vram = 5;
    start(&mut o, "b", 8, 9001);
    let looking = match o.begin_start("a", false) {
        BeginStep::Look(l) => l,
        BeginStep::Done(_) => panic!("nothing runs"),
    };
    let s = scores(&o);
    let mut a = get_model(&o, "a").clone();
    a.estimated_vram = 3;
    o.update_model(a, 0).unwrap();
    let at = o.data.models.find("a").unwrap();
    o.data.models.at_mut(at).estimated_vram = 3;
    let c = match o.gpus_seen(looking, vec![], FACTS, &s, 1).unwrap() {
        PlaceStep::Clear(c, pids) => {
            assert_eq!(pids, vec![8]);
            c
        }
        _ => panic!("room is made"),
    };
    match o.room_cleared(c, vec![], &s, 1) {
        Err(LoadError::InsufficientVram { needed: 3, .. }) => {}
        _ => panic!("there is still no room"),
    }
}

#[test]
fn a_process_that_cannot_be_made_frees_its_port() {
    let mut o = rocm_orch(30_000_000_000);
    let looking = match o.begin_start("a", false) {
        BeginStep::Look(l) => l,
        BeginStep::Done(_) => panic!("nothing runs"),
    };
    let s = scores(&o);
    let p = match o.gpus_seen(looking, vec![rocm_gpu(0, 30_000_000_000)], FACTS, &s, 1).unwrap() {
        PlaceStep::Probe(p, _) => p,
        _ => panic!("a probe comes first"),
    };
    let sized = ProbeResult::Sized(fit_sizing(Some(-1), None, 5));
    let porting = match o.probe_answered(p, sized, &s, 1).unwrap() {
        PlaceStep::Port(s) => s,
        _ => panic!("it fits"),
    };
    let asked = match o.seek_port(porting).unwrap() {
        PortNext::Ask(s, _) => s,
        _ => panic!("no port is known"),
    };
    let spawning = match o.port_answered(asked, Some(9300)).unwrap() {
        PortNext::Spawn(s, _) => s,
        _ => panic!("the port is free"),
    };
    assert_eq!(o.process_manager.pending_count("a"), 1);
    let e = o.process_made(spawning, Err("no such file".into()), 2).unwrap_err();
    assert_eq!(e.message(), "spawn failed: failed to spawn '/x/server': no such file");
    assert_eq!(o.process_manager.pending_count("a"), 0);
    assert_eq!(o.reserved_vram, 0);
}

#[test]
fn a_request_goes_its_way() {
    let mut o = orch();
    o.add_model(model("a")).unwrap();
    let q = match o.serve("a") {
        ServeStep::Queue(q) => q,
        other => panic!("{other:?}"),
    };
    let c = match o.turn_came(q).unwrap() {
        ServeStep::Load(c) => c,
        other => panic!("{other:?}"),
    };
    assert!(matches!(get_model(&o, "a").state, ModelState::Loading));
    let no_room = || LoadError::InsufficientVram { model: "a".into(), needed: 5, free: 1 };
    // No request is under way whose end could make room.
    let e = o.load_tried(c, Err(no_room()), 0).unwrap_err();
    assert!(matches!(e, LoadError::InsufficientVram { .. }));
    assert!(matches!(get_model(&o, "a").state, ModelState::Idle));
    assert!(o.dirty);
    // Now there is one.
    o.process_manager.register_existing_instance("b", 9, 9009);
    o.process_manager.acquire_idle_instance("b").unwrap();
    o.vram_wait_ms = 100;
    let q = match o.serve("a") {
        ServeStep::Queue(q) => q,
        other => panic!("{other:?}"),
    };
    let c = match o.turn_came(q).unwrap() {
        ServeStep::Load(c) => c,
        other => panic!("{other:?}"),
    };
    let p = match o.load_tried(c, Err(no_room()), 30).unwrap() {
        ServeStep::Wait(p, ms) => {
            assert_eq!(ms, 70);
            p
        }
        other => panic!("{other:?}"),
    };
    assert!(matches!(get_model(&o, "a").state, ModelState::Loading));
    let c = match o.wait_over(p, true).unwrap() {
        ServeStep::Load(c) => c,
        other => panic!("{other:?}"),
    };
    let p = match o.load_tried(c, Err(no_room()), 40).unwrap() {
        ServeStep::Wait(p, _) => p,
        other => panic!("{other:?}"),
    };
    assert!(o.wait_over(p, false).is_err());
    assert!(matches!(get_model(&o, "a").state, ModelState::Idle));
    assert!(matches!(o.serve("b"), ServeStep::Scale(_)));
}

#[test]
fn ensure_loaded_reuses_busy_instance_after_waiting_on_load_guard() {
    let mut o = orch();
    o.add_model(model("a")).unwrap();
    let q = match o.serve("a") {
        ServeStep::Queue(q) => q,
        other => panic!("{other:?}"),
    };
    // While the request waits, another one brings up an instance and uses it.
    o.process_manager.register_existing_instance("a", -1, 9000);
    let _busy = o.process_manager.acquire_idle_instance("a").unwrap();
    let s = match o.turn_came(q).unwrap() {
        ServeStep::Scale(s) => s,
        other => panic!("{other:?}"),
    };
    match o.scale_tried(s, Ok(None), 0).unwrap() {
        ServeStep::Ready(reused) => assert_eq!(reused.port, 9000),
        other => panic!("{other:?}"),
    }
}

#[test]
fn a_failed_scale_is_told_and_a_bad_configuration_passed_on() {
    let mut o = orch();
    o.add_model(model("a")).unwrap();
    o.process_manager.register_existing_instance("a", -1, 9000);
    o.process_manager.acquire_idle_instance("a").unwrap();
    let scaling = |o: &mut Orchestrator| match o.serve("a") {
        ServeStep::Scale(s) => s,
        other => panic!("{other:?}"),
    };
    let s = scaling(&mut o);
    let failed = LoadError::FitProbeFailed("boom".into());
    assert!(matches!(o.scale_tried(s, Err(failed), 7), Ok(ServeStep::Ready(_))));
    assert_eq!(
        o.recent_events()[0].message,
        "failed to scale a: llama.cpp fit probe failed: boom; reusing busy instance"
    );
    let s = scaling(&mut o);
    let bad = LoadError::NoBinary("a".into());
    assert!(matches!(o.scale_tried(s, Err(bad), 7), Err(LoadError::NoBinary(_))));
}

// ----- upkeep -----

#[test]
fn events_are_kept_newest_first() {
    let mut o = orch();
    o.record_event(EventLevel::Info, "one".into(), 1);
    o.record_event(EventLevel::Warn, "two".into(), 2);
    let e = o.recent_events();
    assert_eq!((e[0].message.as_str(), e[0].ts, e[0].level), ("two", 2, EventLevel::Warn));
    assert_eq!(e[1].level.as_str(), "info");
}

#[test]
fn a_hung_instance_is_recycled() {
    let mut o = orch();
    o.add_model(model("a")).unwrap();
    start(&mut o, "a", 7, 9000);
    let r = o.recycle_instance(7, "hung", 0).unwrap();
    assert_eq!(r.model_id, "a");
    assert!(r.notice.contains("hung"));
    assert_eq!(o.process_manager.instance_count("a"), 0);
    assert!(o.recycle_instance(7, "hung", 0).is_none());
}

#[test]
fn silence_is_counted() {
    let mut t = LivenessTracker::new();
    assert!(t.note(7, true, 2).is_none());
    assert!(t.note(7, false, 2).is_none());
    assert!(t.note(7, true, 2).is_none());
    assert_eq!(t.note(7, true, 2), Some(2));
    assert!(t.note(8, true, 2).is_none());
    t.keep_only(&vec![7]);
    assert!(t.silent.iter().all(|s| s.pid == 7));
    assert!(liveness_reason(2, "/slots").contains("/slots"));
}

#[test]
fn an_instance_that_stays_silent_is_recycled() {
    let mut o = orch();
    o.add_model(model("a")).unwrap();
    start(&mut o, "a", 7, 9000);
    let plan = LivenessPlan { interval_secs: 1, timeout_secs: 1, path: "/slots".into(), max_fail: 2 };
    let mut t = LivenessTracker::new();
    assert!(o.liveness_answered(&mut t, &plan, 7, true, 0).is_none());
    let r = o.liveness_answered(&mut t, &plan, 7, true, 0).unwrap();
    assert!(r.signal);
    assert_eq!(
        r.notice,
        "inference-router recycled a (pid 7): liveness probe timed out 2x on /slots"
    );
    assert_eq!(notice_body("x"), r#"{"text":"x"}"#);
}

#[test]
fn a_reset_recycles_what_uses_a_gpu() {
    let mut o = orch();
    o.add_model(model("a")).unwrap();
    let mut gpu_model = model("a");
    gpu_model.n_gpu_layers = Some(9);
    let (child, _) = o.process_manager.spawn_child(&gpu_model, None, 9000);
    let g = o.process_manager.register(child, 7);
    o.process_manager.release(g);
    start(&mut o, "b", 8, 9001);
    let done = o.engine_reset(0);
    assert_eq!(done.len(), 1);
    assert_eq!((done[0].0, done[0].1.model_id.as_str()), (7, "a"));
    assert_eq!(o.process_manager.instance_count("b"), 1);
    assert_eq!(
        o.recent_events()[0].message,
        "GPU engine reset detected; recycled 1 GPU instance(s)"
    );
}

#[test]
fn the_watchdog_may_be_switched_off() {
    let mut o = orch();
    assert!(o.liveness_plan().is_some() && o.reset_watch_plan().is_some());
    assert!(o.notify_target().is_none());
    let mut s = o.settings();
    s.watchdog.enabled = false;
    o.update_settings(s);
    assert!(o.liveness_plan().is_none() && o.reset_watch_plan().is_none());
}

#[test]
fn errors_tell_what_is_wrong() {
    assert_eq!(
        LoadError::InsufficientVram { model: "m".into(), needed: 3 * GIB, free: GIB }.message(),
        "not enough idle VRAM to load 'm': need 3.0 GiB, have 1.0 GiB (active requests are not evicted)"
    );
    assert_eq!(StopError::ModelNotFound("m".into()).message(), "model 'm' not found");
    assert_eq!(MutationError::Conflict("m".into()).message(), "model 'm' already exists");
    assert_eq!(
        MutationError::AliasCycle { alias: "a".into(), target: "b".into() }.message(),
        "alias 'a' → 'b' would create a resolution cycle"
    );
}

#[test]
fn definitions_are_held_against_each_other_by_meaning() {
    let base = || ModelConfig {
        binary: "/bin/server".into(),
        model_path: "/models/a.gguf".into(),
        mmproj_path: Some("/models/p.gguf".into()),
        presence_penalty: Number::new("0", false),
        ..ModelConfig::default()
    };
    let spelled = ModelConfig {
        binary: "/bin//server".into(),
        model_path: "/models/./a.gguf".into(),
        mmproj_path: Some("/models/p.gguf/".into()),
        presence_penalty: Number::new("-0", false),
        ..base()
    };
    assert!(!spawn_config_changed(&base(), &spelled));
    let moved = ModelConfig { model_path: "models/a.gguf".into(), ..base() };
    assert!(spawn_config_changed(&base(), &moved));
    let odd = || ModelConfig { draft_p_min: Some(Number::new("NaN", false)), ..base() };
    assert!(spawn_config_changed(&odd(), &odd()));
}
