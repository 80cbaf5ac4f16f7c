use inference_router::api::json::Json;
use inference_router::api::perf::{CollectionKey, CollectionQueue};
use inference_router::config::backend::{Backend, BackendTags};
use inference_router::config::gpu_tags::{
    apply_overrides, set_override, tag_overrides_by_pci, GpuTagOverride,
};
use inference_router::config::model::{
    default_min_p, default_presence_penalty, default_repeat_penalty, default_temperature,
    default_top_k, default_top_p, same_option_number, saturating_sum_bytes, CacheType, ConfigError,
    ModelConfig, ModelState, Number, ReasoningFormat, WeightsFormat,
};
use inference_router::config::perf::{
    complete_snapshot, metric_values, positive_text, snapshot_is_older, timings_from_json,
    vllm_metrics_from_prometheus, VllmPerfDelta, VllmPerfSnapshot, VllmPerfTracker,
};
use inference_router::config::preset::BinaryPreset;
use inference_router::vram::tracker::GpuInfo;
use inference_router::config::settings::{
    AppSettings, EnvVars, LoopGuardSettings, ModelExposure, StreamingLoopAction,
    StreamingLoopSettings, ToolLoopSettings, WatchdogSettings,
};
use inference_router::config::store::temp_file_name;

// ----- models -----

#[test]
fn safetensors_size_sum_saturates_on_overflow() {
    assert_eq!(saturating_sum_bytes(&[u64::MAX - 4, 10]), u64::MAX);
    assert_eq!(saturating_sum_bytes(&[1, 2, 3]), 6);
    assert_eq!(saturating_sum_bytes(&[]), 0);
}

#[test]
fn reasoning_format_from_cli_covers_all_values() {
    assert_eq!(ReasoningFormat::from_cli("none"), Some(ReasoningFormat::NoFormat));
    assert_eq!(ReasoningFormat::from_cli("auto"), Some(ReasoningFormat::Auto));
    assert_eq!(ReasoningFormat::from_cli("deepseek"), Some(ReasoningFormat::Deepseek));
    assert_eq!(
        ReasoningFormat::from_cli("deepseek-legacy"),
        Some(ReasoningFormat::DeepseekLegacy),
    );
    assert_eq!(ReasoningFormat::from_cli("bogus"), None);
}

#[test]
fn reasoning_formats_are_read_back() {
    for f in [
        ReasoningFormat::NoFormat,
        ReasoningFormat::Auto,
        ReasoningFormat::Deepseek,
        ReasoningFormat::DeepseekLegacy,
    ] {
        assert_eq!(ReasoningFormat::from_cli(f.as_arg()), Some(f));
    }
    assert_eq!(CacheType::Q4_0.as_arg(), "q4_0");
    assert_eq!(CacheType::default(), CacheType::F16);
}

#[test]
fn a_model_starts_with_defaults() {
    let m = ModelConfig::default();
    assert!(matches!(m.state, ModelState::Idle));
    assert_eq!(m.pid, None);
    assert_eq!(m.estimated_vram, 0);
    assert_eq!(m.last_used, None);
    assert_eq!(m.profile, None);
    assert!(m.extra_args.is_empty());
    assert_eq!((m.temperature.text.as_str(), m.top_p.text.as_str(), m.top_k), ("0.6", "0.95", 40));
    assert_eq!((m.min_p.text.as_str(), m.min_p.positive), ("0", false));
    assert_eq!((m.presence_penalty.text.as_str(), m.repeat_penalty.text.as_str()), ("0", "1"));
    assert!(!m.flash_attn && !m.mlock && !m.no_mmap);
    assert_eq!(m.context, 4096);
    assert_eq!(m.weights_format, WeightsFormat::Gguf);
    assert!(same_option_number(&m.draft_p_min, &None));
    assert!(default_temperature().same(&m.temperature));
    assert!(default_top_p().same(&m.top_p));
    assert!(default_min_p().same(&m.min_p));
    assert!(default_presence_penalty().same(&m.presence_penalty));
    assert!(default_repeat_penalty().same(&m.repeat_penalty));
    assert_eq!(default_top_k(), m.top_k);
}

#[test]
fn states_are_live_or_not() {
    assert!(ModelState::Running.is_live() && ModelState::Loading.is_live());
    assert!(!ModelState::Idle.is_live() && !ModelState::Error("x".into()).is_live());
    assert!(ModelState::Running.is_running() && !ModelState::Loading.is_running());
}

#[test]
fn configuration_errors_speak() {
    assert_eq!(
        ConfigError::DraftNotFound { id: "d".into() }.message(),
        "model references draft 'd', but no model with that id exists"
    );
    assert_eq!(
        ConfigError::DraftSelfReference.message(),
        "model cannot reference itself as a draft"
    );
}

// ----- raw arguments -----

fn bare() -> ModelConfig {
    ModelConfig {
        id: "m".into(),
        name: "M".into(),
        binary: "/bin/llama".into(),
        model_path: "/m.gguf".into(),
        ..ModelConfig::default()
    }
}

fn args(list: &[&str]) -> Vec<String> {
    list.iter().map(|s| s.to_string()).collect()
}

fn number(x: f32) -> Number {
    Number::new(&format!("{x}"), x > 0.0)
}

/// Migrates with the numbers that the raw arguments denote.
fn migrate(m: &mut ModelConfig) -> bool {
    let readings: Vec<Option<f32>> = m.extra_args.iter().map(|a| a.parse().ok()).collect();
    let told: Vec<f32> = readings.iter().flatten().copied().collect();
    let set = [&m.presence_penalty, &m.repeat_penalty].map(|n| n.text.parse::<f32>().unwrap());
    let mut near = Vec::new();
    for old in told.iter().chain(&set) {
        for new in &told {
            if !((old - new).abs() > f32::EPSILON) {
                near.push((number(*old), number(*new)));
            }
        }
    }
    let numbers = readings.into_iter().map(|r| r.map(number)).collect();
    m.migrate_extra_args(&numbers, &near)
}

#[test]
fn a_penalty_that_is_as_good_as_the_one_set_stays() {
    let mut m = bare();
    m.repeat_penalty = number(1.0);
    m.extra_args = args(&["--repeat-penalty", "1.0000001", "--presence-penalty", "NaN"]);
    assert!(!migrate(&mut m));
    assert_eq!((m.repeat_penalty.text.as_str(), m.presence_penalty.text.as_str()), ("1", "0"));
    // Each flag is held against what the flag before it left.
    m.extra_args = args(&["--repeat-penalty", "1.5", "--repeat-penalty", "1.0000001"]);
    assert!(migrate(&mut m));
    assert_eq!(m.repeat_penalty.text, "1.0000001");
}

#[test]
fn migrate_extracts_all_seven_flags() {
    let mut m = bare();
    m.extra_args = args(&[
        "--threads",
        "16",
        "--reasoning-format",
        "auto",
        "--cache-ram",
        "0",
        "--presence-penalty",
        "1.5",
        "--repeat-penalty",
        "1.0",
        "--reasoning-budget",
        "0",
        "--chat-template-kwargs",
        r#"{"enable_thinking":false}"#,
        "--mmproj",
        "/models/mmproj.gguf",
    ]);
    let original_extra_args = m.extra_args.clone();
    assert!(migrate(&mut m));
    assert_eq!(m.threads, Some(16));
    assert_eq!(m.reasoning_format, Some(ReasoningFormat::Auto));
    assert_eq!(m.cache_ram_mib, Some(0));
    assert!(m.presence_penalty.same(&number(1.5)));
    assert!(m.repeat_penalty.same(&number(1.0)));
    assert_eq!(m.reasoning_budget, Some(0));
    assert_eq!(m.chat_template_kwargs.as_deref(), Some(r#"{"enable_thinking":false}"#));
    assert_eq!(m.mmproj_path.as_deref(), Some("/models/mmproj.gguf"));
    assert_eq!(m.extra_args, original_extra_args);
}

#[test]
fn migrate_preserves_unknown_flags() {
    let mut m = bare();
    m.extra_args = args(&["--override-kv", "foo=bar", "--threads", "16", "--custom-flag"]);
    let original_extra_args = m.extra_args.clone();
    assert!(migrate(&mut m));
    assert_eq!(m.threads, Some(16));
    assert_eq!(m.extra_args, original_extra_args);
}

#[test]
fn migrate_preserves_manual_placement_flags_in_extra_args() {
    let list = [
        "-ngl",
        "99",
        "--tensor-split=1,1",
        "--device",
        "Vulkan1",
        "--override-tensor",
        "blk\\..*=CPU",
        "--custom",
        "value",
    ];
    let mut m = bare();
    m.extra_args = args(&list);
    assert!(!migrate(&mut m));
    assert_eq!(m.extra_args, args(&list));
}

#[test]
fn migrate_is_idempotent_after_first_pass() {
    let mut m = bare();
    m.extra_args = args(&["--threads", "16"]);
    let original_extra_args = m.extra_args.clone();
    assert!(migrate(&mut m));
    // Second pass: nothing to migrate, nothing changes.
    assert!(!migrate(&mut m));
    assert_eq!(m.threads, Some(16));
    assert_eq!(m.extra_args, original_extra_args);
}

#[test]
fn migrate_keeps_existing_structured_value_on_conflict() {
    let mut m = bare();
    m.threads = Some(32);
    m.extra_args = args(&["--threads", "16"]);
    assert!(!migrate(&mut m));
    assert_eq!(m.threads, Some(32));
    assert_eq!(m.extra_args, vec!["--threads", "16"]);
}

#[test]
fn migrate_handles_short_aliases() {
    let mut m = bare();
    m.extra_args = args(&["-t", "8", "-cram", "4096"]);
    let original_extra_args = m.extra_args.clone();
    assert!(migrate(&mut m));
    assert_eq!(m.threads, Some(8));
    assert_eq!(m.cache_ram_mib, Some(4096));
    assert_eq!(m.extra_args, original_extra_args);
}

#[test]
fn migrate_ignores_flag_with_unparseable_value() {
    let mut m = bare();
    m.extra_args = args(&["--threads", "not-a-number"]);
    assert!(!migrate(&mut m));
    assert_eq!(m.threads, None);
    assert_eq!(m.extra_args, vec!["--threads", "not-a-number"]);
}

#[test]
fn migrate_rejects_unknown_reasoning_format_value() {
    let mut m = bare();
    m.extra_args = args(&["--reasoning-format", "made-up"]);
    assert!(!migrate(&mut m));
    assert_eq!(m.reasoning_format, None);
    assert_eq!(m.extra_args, vec!["--reasoning-format", "made-up"]);
}

#[test]
fn migrate_real_world_qwen3_args() {
    let mut m = bare();
    m.extra_args = args(&[
        "--threads",
        "16",
        "--reasoning-format",
        "auto",
        "--cache-ram",
        "0",
        "--presence-penalty",
        "1.5",
        "--repeat-penalty",
        "1.0",
        "--chat-template-kwargs",
        r#"{"enable_thinking":false}"#,
    ]);
    let original_extra_args = m.extra_args.clone();
    assert!(migrate(&mut m));
    assert_eq!(m.extra_args, original_extra_args);
    assert_eq!(m.threads, Some(16));
    assert_eq!(m.reasoning_format, Some(ReasoningFormat::Auto));
    assert_eq!(m.cache_ram_mib, Some(0));
    assert!(m.presence_penalty.same(&number(1.5)));
    assert!(m.repeat_penalty.same(&number(1.0)));
    assert_eq!(m.chat_template_kwargs.as_deref(), Some(r#"{"enable_thinking":false}"#));
}

#[test]
fn migrate_extracts_spec_decode_policy_flags() {
    let mut m = bare();
    m.extra_args = args(&[
        "--spec-draft-n-max",
        "16",
        "--spec-draft-n-min",
        "1",
        "--spec-draft-p-min",
        "0.75",
        "--ctx-checkpoints",
        "4",
        "--checkpoint-min-step",
        "0",
    ]);
    let original_extra_args = m.extra_args.clone();
    assert!(migrate(&mut m));
    assert_eq!(m.draft_max, Some(16));
    assert_eq!(m.draft_min, Some(1));
    assert!(same_option_number(&m.draft_p_min, &Some(number(0.75))));
    assert_eq!(m.ctx_checkpoints, Some(4));
    assert_eq!(m.checkpoint_min_step, Some(0));
    assert_eq!(m.checkpoint_every_n_tokens, None);
    assert_eq!(m.extra_args, original_extra_args);
}

#[test]
fn migrate_preserves_legacy_checkpoint_every_n_tokens_without_current_emission() {
    let mut m = bare();
    m.extra_args = args(&["--checkpoint-every-n-tokens", "-1"]);
    let original_extra_args = m.extra_args.clone();
    assert!(migrate(&mut m));
    assert_eq!(m.checkpoint_every_n_tokens, Some(-1));
    assert_eq!(m.extra_args, original_extra_args);
}

#[test]
fn migrate_extracts_mtp_spec_decode_flags() {
    let mut m = bare();
    m.extra_args = args(&["--spec-draft-n-max", "4", "--spec-type=draft-mtp"]);
    let original_extra_args = m.extra_args.clone();
    assert!(migrate(&mut m));
    assert_eq!(m.mtp_tokens, Some(4));
    assert_eq!(m.draft_max, None);
    assert_eq!(m.extra_args, original_extra_args);
}

#[test]
fn migrate_mtp_spec_type_without_count_preserves_llama_default() {
    let mut m = bare();
    m.extra_args = args(&["--spec-type", "draft-mtp"]);
    let original_extra_args = m.extra_args.clone();
    assert!(migrate(&mut m));
    assert_eq!(m.mtp_tokens, Some(3));
    assert_eq!(m.extra_args, original_extra_args);
}

#[test]
fn migrate_leaves_draft_path_flags_alone() {
    // A draft that is named by its path is no model of its own yet, so these
    // stay where the operator sees them.
    let list = ["-md", "/m/draft.gguf", "-ngld", "99", "-devd", "Vulkan1"];
    let mut m = bare();
    m.extra_args = args(&list);
    assert!(!migrate(&mut m));
    assert_eq!(m.extra_args, args(&list));
}

#[test]
fn migrate_accepts_draft_max_aliases() {
    let mut m = bare();
    m.extra_args = args(&["--draft", "8"]);
    assert!(migrate(&mut m));
    assert_eq!(m.draft_max, Some(8));

    let mut m = bare();
    m.extra_args = args(&["--draft-n", "12"]);
    assert!(migrate(&mut m));
    assert_eq!(m.draft_max, Some(12));
}

// ----- settings -----

#[test]
fn defaults_match_loop_guard_runtime_defaults() {
    let settings = AppSettings::default();
    assert_eq!(settings.models_folder, "~/models");
    assert!(settings.loop_guards.streaming.enabled);
    assert_eq!(settings.loop_guards.streaming.window_bytes, 65_536);
    assert_eq!(settings.loop_guards.streaming.repeats, 10);
    assert_eq!(settings.loop_guards.streaming.check_interval_ms, 5_000);
    assert_eq!(settings.loop_guards.streaming.max_retries, 3);
    assert_eq!(settings.loop_guards.streaming.action, StreamingLoopAction::Heal);
    assert!(settings.loop_guards.streaming.replay_partial);
    assert!(settings.loop_guards.tool.enabled);
    assert_eq!(settings.loop_guards.tool.repeats, 3);
    assert_eq!(settings.loop_guards.tool.window_messages, 80);
}

#[test]
fn sanitize_clamps_runtime_minimums() {
    let mut settings = AppSettings::default();
    settings.loop_guards.streaming.window_bytes = 1;
    settings.loop_guards.streaming.repeats = 0;
    settings.loop_guards.streaming.check_interval_ms = 0;
    settings.loop_guards.tool.repeats = 0;
    settings.loop_guards.tool.window_messages = 0;

    let settings = settings.sanitized();
    assert_eq!(settings.loop_guards.streaming.window_bytes, 1024);
    assert_eq!(settings.loop_guards.streaming.repeats, 2);
    assert_eq!(settings.loop_guards.streaming.check_interval_ms, 1);
    assert_eq!(settings.loop_guards.tool.repeats, 2);
    assert_eq!(settings.loop_guards.tool.window_messages, 2);
}

fn env(vars: &[(&str, &str)]) -> EnvVars {
    EnvVars { vars: vars.iter().map(|(k, v)| (k.to_string(), v.to_string())).collect() }
}

#[test]
fn the_environment_overrides_the_settings() {
    let s = StreamingLoopSettings::from_env(&env(&[
        ("INFERENCE_ROUTER_LOOP_ENABLED", "off"),
        ("INFERENCE_ROUTER_LOOP_WINDOW", "2048"),
        ("INFERENCE_ROUTER_LOOP_REPEATS", "4"),
        ("INFERENCE_ROUTER_LOOP_CHECK_INTERVAL_MS", "7"),
        ("INFERENCE_ROUTER_LOOP_MAX_RETRIES", "9"),
        ("INFERENCE_ROUTER_LOOP_ACTION", "abort"),
        ("INFERENCE_ROUTER_LOOP_REPLAY_PARTIAL", "0"),
    ]));
    assert_eq!(
        s,
        StreamingLoopSettings {
            enabled: false,
            window_bytes: 2048,
            repeats: 4,
            check_interval_ms: 7,
            max_retries: 9,
            action: StreamingLoopAction::Abort,
            replay_partial: false,
        }
    );
    let t = ToolLoopSettings::from_env(&env(&[]));
    assert_eq!(t, ToolLoopSettings::default());
    let l = LoopGuardSettings::from_env(&env(&[]));
    assert_eq!((l.streaming, l.tool), (StreamingLoopSettings::default(), t));
    assert_eq!(ModelExposure::from_env(&env(&[])), ModelExposure::default());
    let w = WatchdogSettings::from_env(&env(&[]));
    assert_eq!(w.idle_timeout_secs, WatchdogSettings::default().idle_timeout_secs);
    let a = AppSettings::from_env(&env(&[]));
    assert_eq!(a.models_folder, "~/models");
    assert_eq!(env(&[("A", "b")]).get("A"), Some("b".to_string()));
    assert_eq!(env(&[("A", "b")]).get("B"), None);
}

#[test]
fn sanitizing_twice_changes_nothing_more() {
    let mut s = AppSettings::default();
    s.gpu_vram_cap_pct = 200;
    s.display_gpu_vram_cap_pct = 0;
    s.models_folder = "  ".into();
    let once = s.sanitized();
    let twice = once.clone().sanitized();
    assert_eq!(format!("{once:?}"), format!("{twice:?}"));
}

// ----- programs and GPUs -----

#[test]
fn legacy_preset_without_targets_infers_one_from_path() {
    let p = BinaryPreset {
        id: "llama-rocm".into(),
        name: "llama.cpp (ROCm)".into(),
        binary: "/x/llama.cpp-rocm/extracted/llama-server".into(),
        targets: vec![],
    };
    assert!(p.targets.is_empty());
    assert_eq!(p.effective_targets(), vec![Backend::Rocm]);
    let explicit = BinaryPreset { targets: vec![Backend::Cuda, Backend::Vulkan], ..p.clone() };
    assert_eq!(explicit.effective_targets(), vec![Backend::Cuda, Backend::Vulkan]);
}

#[test]
fn backends_have_names_and_prefixes() {
    let names: Vec<&str> = Backend::all().into_iter().map(|b| b.as_str()).collect();
    assert_eq!(names, ["vulkan", "cuda", "rocm", "sycl"]);
    let prefixes: Vec<&str> = Backend::all().into_iter().map(|b| b.device_prefix()).collect();
    assert_eq!(prefixes, ["Vulkan", "CUDA", "ROCm", "SYCL"]);
    assert_eq!(Backend::infer_from_text("llama-CUDA-12"), Some(Backend::Cuda));
    assert_eq!(Backend::infer_from_text("plain"), None);
    let tags = BackendTags::default().with(Backend::Sycl).with(Backend::Cuda);
    assert_eq!(tags.list(), vec![Backend::Cuda, Backend::Sycl]);
    assert!(tags.contains(Backend::Sycl) && !tags.contains(Backend::Rocm));
}

#[test]
fn a_later_override_replaces_an_earlier_one() {
    let o = |pci: &str, b: Backend| GpuTagOverride {
        pci_bus_id: pci.into(),
        tags: BackendTags::default().with(b),
    };
    let list = set_override(&vec![o("a", Backend::Cuda), o("b", Backend::Rocm)], o("a", Backend::Sycl));
    let t = tag_overrides_by_pci(&list);
    assert_eq!(t.len(), 2);
    assert_eq!(t.get("a").unwrap().tags.list(), vec![Backend::Sycl]);
    assert_eq!(t.get("b").unwrap().tags.list(), vec![Backend::Rocm]);
    assert!(t.get("c").is_none());
}

#[test]
fn an_override_replaces_what_was_discovered() {
    let found = |pci: Option<&str>| GpuInfo {
        id: "g".into(),
        pci_bus_id: pci.map(String::from),
        vulkan_device: None,
        vulkan_index: None,
        cuda_device: None,
        cuda_index: None,
        rocm_index: None,
        sycl_index: None,
        tags: BackendTags::default().with(Backend::Rocm).with(Backend::Vulkan),
        integrated: false,
        total_vram: 1,
        used_vram: 0,
        busy_pct: 0,
        temp_c: None,
        display_attached: false,
    };
    let o = |b: Backend| GpuTagOverride {
        pci_bus_id: "a".into(),
        tags: BackendTags::default().with(b),
    };
    let overrides = vec![o(Backend::Cuda), o(Backend::Rocm)];
    let gpus = apply_overrides(vec![found(Some("a")), found(Some("b")), found(None)], &overrides);
    let tags: Vec<Vec<Backend>> = gpus.iter().map(|g| g.tags.list()).collect();
    assert_eq!(tags[0], vec![Backend::Rocm]);
    assert_eq!(tags[1], vec![Backend::Vulkan, Backend::Rocm]);
    assert_eq!(tags[2], vec![Backend::Vulkan, Backend::Rocm]);
}

// ----- throughput -----

fn object(entries: Vec<(&str, Json)>) -> Json {
    Json::Object(entries.into_iter().map(|(k, v)| (k.to_string(), v)).collect())
}

fn num(s: &str) -> Json {
    Json::Number(s.to_string())
}

#[test]
fn timings_parsed_from_response_body() {
    let v = object(vec![(
        "timings",
        object(vec![
            ("predicted_per_second", num("16.44")),
            ("prompt_per_second", num("25.45")),
        ]),
    )]);
    let t = timings_from_json(&v).unwrap();
    assert_eq!((t.decode.parse::<f64>(), t.prefill.parse::<f64>()), (Ok(16.44), Ok(25.45)));
}

#[test]
fn no_timings_block_yields_none() {
    assert!(timings_from_json(&object(vec![("choices", Json::Array(vec![]))])).is_none());
    let zero = object(vec![("timings", object(vec![("predicted_per_second", num("0"))]))]);
    assert!(timings_from_json(&zero).is_none());
}

#[test]
fn positive_numbers_are_told_by_their_texts() {
    for yes in ["1", "0.5", "1e3", "0.001", "2E-7"] {
        assert!(positive_text(yes), "{yes}");
    }
    for no in ["0", "0.0", "-1", "-0.5", "0e9"] {
        assert!(!positive_text(no), "{no}");
    }
}

fn vllm_metrics(
    start: f64,
    decode_tokens: f64,
    decode_seconds: f64,
    samples: u64,
    prefill_tokens: f64,
    prefill_seconds: f64,
) -> String {
    format!(
        r#"
# HELP ignored metadata
process_start_time_seconds {start}
vllm:request_generation_tokens_sum{{engine="0",model_name="model"}} {decode_tokens}
vllm:request_decode_time_seconds_sum{{engine="0",model_name="model"}} {decode_seconds}
vllm:request_decode_time_seconds_count{{engine="0",model_name="model"}} {samples}
vllm:request_prefill_kv_computed_tokens_sum{{engine="0",model_name="model"}} {prefill_tokens}
vllm:request_prefill_time_seconds_sum{{engine="0",model_name="model"}} {prefill_seconds}
vllm:request_prefill_time_seconds_count{{engine="0",model_name="model"}} {samples}
vllm:request_decode_time_seconds_bucket{{engine="0",le="+Inf"}} 999
"#
    )
}

fn sum(values: &[String]) -> Option<f64> {
    if values.is_empty() {
        return None;
    }
    Some(values.iter().map(|v| v.parse::<f64>().unwrap()).sum())
}

/// A number that is not negative has the order of its bits.
fn key(x: f64) -> u64 {
    x.to_bits()
}

fn read_snapshot(text: &str) -> Option<VllmPerfSnapshot> {
    let m = vllm_metrics_from_prometheus(text);
    complete_snapshot(
        m.process_start_seconds.first().map(|v| key(v.parse().unwrap())),
        sum(&m.decode_tokens).map(key),
        sum(&m.decode_seconds).map(key),
        sum(&m.decode_samples).map(|v| v as u64),
        sum(&m.prefill_tokens).map(key),
        sum(&m.prefill_seconds).map(key),
        sum(&m.prefill_samples).map(|v| v as u64),
    )
}

fn snapshot(text: &str) -> VllmPerfSnapshot {
    read_snapshot(text).unwrap()
}

#[test]
fn a_snapshot_needs_every_counter() {
    let all = [Some(1u64), Some(2), Some(3), Some(4), Some(5), Some(6), Some(7)];
    let make = |a: [Option<u64>; 7]| complete_snapshot(a[0], a[1], a[2], a[3], a[4], a[5], a[6]);
    let s = make(all).unwrap();
    assert_eq!((s.process_start_seconds, s.decode_tokens, s.decode_seconds), (1, 2, 3));
    assert_eq!((s.decode_samples, s.prefill_tokens, s.prefill_seconds), (4, 5, 6));
    assert_eq!(s.prefill_samples, 7);
    for i in 0..7 {
        let mut some = all;
        some[i] = None;
        assert!(make(some).is_none());
    }
}

#[test]
fn new_work_counts_as_one_request_at_least() {
    let delta = |d, p| VllmPerfDelta { decode_samples: d, prefill_samples: p, since: None };
    assert_eq!(delta(2, 5).samples_after(10), 15);
    assert_eq!(delta(5, 2).samples_after(10), 15);
    assert_eq!(delta(0, 0).samples_after(10), 11);
    assert_eq!(delta(3, 0).samples_after(u64::MAX - 1), u64::MAX);
}

#[test]
fn vllm_prometheus_metrics_are_parsed() {
    let text = format!(
        "{}{}",
        vllm_metrics(100.0, 200.0, 4.0, 2, 1_000.0, 0.5),
        // A second engine in the same process must be aggregated. The process
        // start value is duplicated in real multiprocess exposition.
        vllm_metrics(100.0, 300.0, 6.0, 3, 2_000.0, 1.0),
    );
    let s = snapshot(&text);
    assert_eq!(s.process_start_seconds, key(100.0));
    assert_eq!(s.decode_tokens, key(500.0));
    assert_eq!(s.decode_seconds, key(10.0));
    assert_eq!(s.decode_samples, 5);
    assert_eq!(s.prefill_tokens, key(3_000.0));
    assert_eq!(s.prefill_seconds, key(1.5));
    assert_eq!(s.prefill_samples, 5);
}

#[test]
fn incomplete_vllm_metrics_are_rejected() {
    let m = vllm_metrics_from_prometheus("process_start_time_seconds 1\n");
    assert_eq!(m.process_start_seconds, vec!["1"]);
    assert!(m.decode_tokens.is_empty() && m.prefill_samples.is_empty());
    assert!(read_snapshot("process_start_time_seconds 1\n").is_none());
    assert_eq!(metric_values("ab 1\n#a 1\na{x=\"1\"} 2\na 3 4\na\n", "a"), vec!["2", "3"]);
}

#[test]
fn vllm_tracker_deduplicates_and_rejects_stale_scrapes() {
    let mut tracker = VllmPerfTracker::new();
    let first = snapshot(&vllm_metrics(100.0, 200.0, 4.0, 2, 1_000.0, 0.5));
    let second = snapshot(&vllm_metrics(100.0, 500.0, 10.0, 5, 3_000.0, 1.5));

    let initial = tracker.observe("model", 42, 0, first).unwrap();
    assert_eq!(initial.since, None);
    assert_eq!(initial.decode_samples, 2);
    assert!(tracker.observe("model", 42, 0, first).is_none());

    let delta = tracker.observe("model", 42, 0, second).unwrap();
    let since = delta.since.unwrap();
    assert_eq!(f64::from_bits(second.decode_tokens) - f64::from_bits(since.decode_tokens), 300.0);
    assert_eq!(delta.decode_samples, 3);
    assert_eq!(f64::from_bits(second.prefill_tokens) - f64::from_bits(since.prefill_tokens), 2_000.0);
    assert!(tracker.observe("model", 42, 0, first).is_none());
    assert!(snapshot_is_older(&first, &second) && !snapshot_is_older(&second, &first));
}

#[test]
fn vllm_tracker_handles_process_restart_and_model_reset() {
    let mut tracker = VllmPerfTracker::new();
    let old = snapshot(&vllm_metrics(100.0, 200.0, 4.0, 2, 1_000.0, 0.5));
    let restarted = snapshot(&vllm_metrics(200.0, 50.0, 1.0, 1, 500.0, 0.25));

    tracker.observe("model", 42, 0, old).unwrap();
    let delta = tracker.observe("model", 42, 0, restarted).unwrap();
    assert_eq!(delta.since, None, "new process starts from zero");

    tracker.reset_model("model");
    assert_eq!(tracker.generation("model"), 1);
    assert!(
        tracker.observe("model", 42, 0, old).is_none(),
        "late pre-reset scrape must be ignored"
    );
    assert!(tracker.observe("model", 42, 1, restarted).is_some());
}

#[test]
fn one_collection_runs_at_a_time_and_is_repeated_once() {
    let key = CollectionKey { model_id: "m".into(), pid: 1, port: 9000, generation: 0 };
    let mut q = CollectionQueue::new();
    assert!(q.begin(&key));
    assert!(!q.begin(&key));
    assert!(!q.begin(&key));
    assert!(q.finish(&key));
    assert!(!q.finish(&key));
    assert!(q.begin(&key));
    assert!(key.same(&key.clone()));
}

#[test]
fn files_are_written_beside_their_place_first() {
    assert_eq!(temp_file_name("/c/models.json", 12, 3), "models.json.12.3.tmp");
    assert_eq!(temp_file_name("/", 12, 4), "store.json.12.4.tmp");
}

#[test]
fn silence_is_limited_only_where_the_watchdog_asks() {
    let mut w = WatchdogSettings::default();
    assert_eq!(w.idle_timeout(), Some(900));
    w.idle_timeout_secs = 0;
    assert_eq!(w.idle_timeout(), None);
    w.idle_timeout_secs = 5;
    w.enabled = false;
    assert_eq!(w.idle_timeout(), None);
}
