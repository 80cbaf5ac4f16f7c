use inference_router::api::json::Json;
use inference_router::api::folder::{
    known_files, make_candidates, part_files, ReadFile,
};
use inference_router::api::proxy::{
    accept_method, accept_request, error_body, forward, hop_by_hop, list_v1_models, returns_header,
    sends_header, upstream_url, ProxyFailure, Refusal,
};
use inference_router::api::routes::{
    check_ids, find_program, load_response, mutation_response, reconcile_status, sort_entries,
    split_entries, stop_response, validate_model, validation_status, FileEntry, Numeral, PathFacts,
};
use inference_router::api::state::{model_response, model_responses, runtime_of};
use inference_router::config::alias::ModelAlias;
use inference_router::config::model::{
    CacheType, GgufMeta, ModelConfig, ModelState, WeightsFormat,
};
use inference_router::config::preset::BinaryPreset;
use inference_router::config::settings::{EnvVars, LoopGuardSettings, ModelExposure};
use inference_router::orchestrator::engine::Orchestrator;
use inference_router::orchestrator::errors::{LoadError, MutationError, StopError};
use inference_router::paths::{
    expand_tilde, name_extension, name_stem, path_le, path_name, path_parent, path_parts, same_parts,
    shared_prefix_len, starts_with_path,
};
use inference_router::process::manager::{ModelRuntime, NamedRuntime, SpawnError};
use inference_router::table::Table;
use inference_router::text::{
    after_last_text, contains_text, decimal_text, decimal_text_signed, parse_i32, parse_i64,
    parse_unsigned, remove_text, same_text_ignoring_case, split_last_text, split_lines,
    split_once_text, split_words, to_lower, trim_text, trim_trailing,
};
use inference_router::units::{
    band_of_load, band_of_share, busy_text, degrees_text, gib_text, percent_text, round_nearest,
    Band,
};

fn model(id: &str) -> ModelConfig {
    ModelConfig {
        id: id.into(),
        name: id.to_uppercase(),
        binary: "/b".into(),
        model_path: "/m.gguf".into(),
        ..ModelConfig::default()
    }
}

// ----- the proxy -----

#[test]
fn headers_of_one_hop_are_not_passed_on() {
    for h in ["connection", "transfer-encoding", "keep-alive", "te"] {
        assert!(hop_by_hop(h), "{h}");
        assert!(!sends_header(h) && !returns_header(h), "{h}");
    }
    assert!(!sends_header("host") && !sends_header("content-length"));
    assert!(sends_header("authorization") && returns_header("content-type"));
}

#[test]
fn requests_without_a_model_are_refused() {
    assert_eq!(accept_method("GET"), Some(Refusal::NotPost));
    assert_eq!(accept_method("POST"), None);
    assert_eq!(accept_request("GET", br#"{"model":"m"}"#), Err(Refusal::NotPost));
    assert_eq!(accept_request("POST", b"{}"), Err(Refusal::NoModel));
    assert_eq!(accept_request("POST", br#"{"model":"m"}"#), Ok("m".to_string()));
    assert_eq!((Refusal::NotPost.status(), Refusal::NoModel.status()), (405, 400));
}

#[test]
fn every_failure_has_its_answer() {
    let told = |f: ProxyFailure| (f.status(), f.text());
    assert_eq!(
        told(ProxyFailure::Refused(Refusal::NoModel)),
        (400, r#"{"error":"request body must be JSON with a 'model' field"}"#.to_string())
    );
    assert_eq!(
        told(ProxyFailure::TooLarge { limit: 10, why: "long".into() }),
        (
            413,
            r#"{"error":"request body exceeds max size of 10 bytes or could not be read: long"}"#
                .to_string()
        )
    );
    let error = LoadError::ModelNotFound("m".into());
    assert_eq!(
        told(ProxyFailure::NotLoaded { model: "m".into(), error }),
        (503, r#"{"error":"model 'm' not found","model":"m"}"#.to_string())
    );
    assert_eq!(
        told(ProxyFailure::Upstream("gone".into())),
        (502, r#"{"error":"upstream error: gone"}"#.to_string())
    );
    assert_eq!(
        told(ProxyFailure::Restarting("m".into())),
        (
            503,
            r#"{"error":"model 'm' was unresponsive and is being restarted; please retry","model":"m","retry":true}"#
                .to_string()
        )
    );
    assert_eq!(error_body("bad").text_at("error").unwrap(), "bad");
}

#[test]
fn requests_are_passed_on_byte_for_byte() {
    let guards = LoopGuardSettings::default();
    let body = br#"{ "model" : "m", "messages" : [] }"#.to_vec();
    let f = forward(9000, "/v1/chat/completions", "/v1/chat/completions?x=1", body.clone(), &guards);
    assert_eq!(f.url, "http://127.0.0.1:9000/v1/chat/completions?x=1");
    assert_eq!(upstream_url(9000, "/v1/x"), "http://127.0.0.1:9000/v1/x");
    assert_eq!(f.body, body);
    assert!(f.session.is_none());
    let body = br#"{"model":"m","stream":true,"messages":[]}"#.to_vec();
    assert!(forward(9000, "/v1/chat/completions", "/", body, &guards).session.is_some());
}

#[test]
fn a_request_finds_its_model_and_its_instance() {
    let mut o = Orchestrator::new(vec![], vec![], vec![], &EnvVars { vars: vec![] }, 8080);
    o.add_model(model("m")).unwrap();
    o.add_alias(ModelAlias { alias: "x".into(), target: "m".into() }).unwrap();
    let body = br#"{"model":"x"}"#.to_vec();
    let a = o.take_request("POST", &body).unwrap();
    assert_eq!((a.name.as_str(), a.model.as_str()), ("x", "m"));
    assert_eq!(o.take_request("GET", &body).unwrap_err().status(), 405);
    assert_eq!(o.take_request("POST", b"{}").unwrap_err().status(), 400);
    o.process_manager.register_existing_instance("m", 5, 9000);
    let g = o.process_manager.acquire_idle_instance("m").unwrap();
    let f = o.pass_on(&a.model, &g, "/v1/embeddings", "/v1/embeddings?y", body.clone(), 77);
    assert_eq!(f.url, "http://127.0.0.1:9000/v1/embeddings?y");
    assert_eq!(f.body, body);
    assert!(f.session.is_none());
    assert_eq!(o.data.models.get("m").unwrap().last_used, Some(77));
    assert!(o.dirty);
}

fn ids(list: &Json) -> Vec<String> {
    list.items_at("data").unwrap().iter().map(|m| m.text_at("id").unwrap().clone()).collect()
}

#[test]
fn models_and_aliases_are_listed() {
    let models = vec![model("a"), model("b")];
    let aliases = vec![ModelAlias { alias: "x".into(), target: "a".into() }];
    assert_eq!(ids(&list_v1_models(&models, &aliases, ModelExposure::FullList)), ["a", "b", "x"]);
    assert_eq!(ids(&list_v1_models(&models, &aliases, ModelExposure::AliasesOnly)), ["x"]);
}

// ----- the management interface -----

#[test]
fn every_refusal_has_its_status() {
    let m = |e: MutationError| mutation_response(&e).status;
    assert_eq!(m(MutationError::NotFound("x".into())), 404);
    assert_eq!(m(MutationError::Conflict("x".into())), 409);
    assert_eq!(m(MutationError::AliasShadowsModel("x".into())), 422);
    assert_eq!(m(MutationError::AliasInvalid("x".into())), 422);
    let l = |e: LoadError| load_response(&e).status;
    assert_eq!(l(LoadError::ModelNotFound("x".into())), 404);
    assert_eq!(l(LoadError::NoBinary("x".into())), 422);
    assert_eq!(l(LoadError::SpawnFailed(SpawnError::NoFreePort)), 503);
    assert_eq!(stop_response(&StopError::ModelNotFound("x".into())).status, 404);
    assert_eq!(
        mutation_response(&MutationError::DraftInUse { id: "d".into(), targets: vec!["a".into(), "b".into()] })
            .error,
        "cannot delete draft 'd': still referenced by a, b. Unset draft_model_id on those targets first."
    );
}

#[test]
fn ids_of_address_and_body_must_agree() {
    assert!(check_ids("model", "a", "a").is_none());
    assert!(check_ids("model", "a", "b").unwrap().status >= 400);
    assert_eq!(reconcile_status(&vec![]), 200);
    assert_eq!(reconcile_status(&vec!["x".into()]), 207);
}

const FILE: PathFacts = PathFacts { exists: true, is_file: true, is_dir: false, executable: true };
const NOTHING: PathFacts =
    PathFacts { exists: false, is_file: false, is_dir: false, executable: false };

#[test]
fn definitions_are_checked() {
    let m = model("a");
    let ok = validate_model(&m, &vec![], 1, FILE, FILE, &vec![]);
    assert!(ok.valid, "{:?}", ok.errors);
    assert_eq!(validation_status(&ok), 200);
    let bad = validate_model(&m, &vec![], 1, NOTHING, NOTHING, &vec![]);
    assert!(!bad.valid && bad.errors.len() == 2, "{:?}", bad.errors);
    assert_eq!(validation_status(&bad), 422);
    let mut m = model("a");
    m.binary_preset = Some("gone".into());
    m.tensor_split = Some("1, x,-1".into());
    m.cache_type_k = Some(CacheType::Q4_0);
    assert_eq!(split_entries("1, x,-1").len(), 3);
    let kinds = vec![Numeral::Positive, Numeral::NoNumber, Numeral::NotPositive];
    let v = validate_model(&m, &vec![], 2, FILE, FILE, &kinds);
    assert!(v.errors.iter().any(|e| e == "binary preset 'gone' does not exist"));
    assert!(v.warnings.iter().any(|w| w == "tensor_split has 3 entries but 2 GPUs were detected"));
    let presets = vec![BinaryPreset {
        id: "gone".into(),
        name: "g".into(),
        binary: "/there".into(),
        targets: vec![],
    }];
    assert_eq!(find_program(&m, &presets), Some("/there".to_string()));
}

#[test]
fn directories_come_before_files() {
    let e = |name: &str, is_dir: bool| FileEntry { name: name.into(), path: name.into(), is_dir };
    let sorted = sort_entries(vec![e("b", false), e("z", true), e("a", false), e("c", true)]);
    let names: Vec<&str> = sorted.iter().map(|x| x.name.as_str()).collect();
    assert_eq!(names, ["c", "z", "a", "b"]);
}

#[test]
fn models_are_told_with_their_runtime() {
    let mut t: Table<NamedRuntime> = Table::new();
    t.insert(NamedRuntime {
        model_id: "a".into(),
        runtime: ModelRuntime { instances: 2, pending: 1, active: 3 },
    });
    assert_eq!(runtime_of(&t, "b").instances, 0);
    let mut m = model("a");
    m.state = ModelState::Error("boom".into());
    let r = model_response(&m, runtime_of(&t, "a"));
    assert_eq!((r.instances, r.pending_instances, r.active_requests), (2, 1, 3));
    assert_eq!((r.state, r.state_message.as_deref()), ("error", Some("boom")));
    let all = model_responses(&vec![model("b"), m], &t);
    assert_eq!((all[0].state, all[1].instances), ("idle", 2));
}

// ----- the models folder -----

#[test]
fn configured_files_are_left_out() {
    let mut other = model("c");
    other.weights_format = WeightsFormat::Safetensors;
    let models = vec![model("a"), other];
    let known = known_files(&models, &vec!["/r/a.gguf".into(), "/r/c.gguf".into()]);
    assert_eq!(known, vec!["/r/a.gguf"]);
    let files: Vec<String> =
        ["/l/a.gguf", "/r/b.gguf", "/r/mmproj-b.gguf", "/r/c.gguf"].map(String::from).to_vec();
    let keys: Vec<String> =
        ["/r/a.gguf", "/r/b.gguf", "/r/mmproj-b.gguf", "/r/c.gguf"].map(String::from).to_vec();
    let parted = part_files(&files, &keys, &known);
    assert_eq!(parted.models, vec!["/r/b.gguf", "/r/c.gguf"]);
    assert_eq!(parted.projectors, vec!["/r/mmproj-b.gguf"]);
}

fn meta(id: &str) -> GgufMeta {
    GgufMeta {
        max_context: 1,
        n_layers: 1,
        n_embd: 1,
        n_head: 1,
        n_head_kv: 1,
        key_length: 1,
        key_length_swa: 1,
        full_kv_heads: 1,
        swa_kv_heads: 1,
        kv_heads_total: 1,
        sliding_window: 0,
        file_size: 5,
        quant_label: None,
        expert_count: None,
        expert_used_count: None,
        suggested_id: id.to_string(),
        suggested_name: "Name".to_string(),
    }
}

#[test]
fn readable_files_become_candidates() {
    let read = |path: &str, meta: Result<GgufMeta, String>| ReadFile { path: path.into(), meta };
    let files = vec![
        read("/r/x.gguf", Ok(meta("a"))),
        read("/r/bad.gguf", Err("no magic".into())),
        read("/r/y.gguf", Ok(meta("a"))),
    ];
    let found =
        make_candidates(files, &vec![model("a")], &vec![true], &vec![], vec!["before".into()]);
    let ids: Vec<&str> = found.candidates.iter().map(|c| c.model.id.as_str()).collect();
    assert_eq!(ids, ["a-2", "a-3"]);
    assert_eq!(found.candidates[1].path, "/r/y.gguf");
    assert_eq!(found.errors, vec!["before", "/r/bad.gguf: no magic"]);
}

#[test]
fn a_scan_is_taken_over_as_far_as_it_can_be() {
    let mut o = Orchestrator::new(vec![], vec![], vec![], &EnvVars { vars: vec![] }, 8080);
    o.add_model(model("a")).unwrap();
    let done = o.reconcile_models_folder(
        vec![model("b"), model("a")],
        &vec!["a".into(), "ghost".into()],
        0,
    );
    assert_eq!(done.response.added, vec!["b"]);
    assert_eq!(done.response.removed, vec!["a"]);
    assert_eq!(
        done.response.errors,
        vec!["add a: model 'a' already exists", "remove ghost: model 'ghost' not found"]
    );
    assert!(done.signal.is_empty());
}

// ----- paths, texts and units -----

#[test]
fn a_tilde_stands_for_a_home() {
    assert_eq!(expand_tilde("/a/~/b"), "/a/~/b");
    assert_eq!(expand_tilde("~other/b"), "~other/b");
    let home = expand_tilde("~");
    if home != "~" {
        assert_eq!(expand_tilde("~/b"), format!("{home}/b"));
    }
}

#[test]
fn paths_are_taken_apart() {
    assert_eq!(path_parts("/a//b/./c/"), path_parts("/a/b/c"));
    assert_eq!(path_name("/a/b.tar.gz"), Some("b.tar.gz".to_string()));
    assert_eq!(path_name("/"), None);
    assert_eq!(name_extension("b.tar.gz"), Some("gz".to_string()));
    assert_eq!(name_extension(".hidden"), None);
    assert_eq!(name_stem("b.tar.gz"), "b.tar");
    assert!(starts_with_path("/a/b/c", "/a/b") && !starts_with_path("/a/bc", "/a/b"));
    assert_eq!(path_parent("/a/b").unwrap(), path_parts("/a"));
    assert_eq!(shared_prefix_len(&path_parts("/a/b/c"), &path_parts("/a/b/d")), 3);
    assert!(same_parts(&path_parts("a/b"), &path_parts("a//b")));
    assert!(path_le("/a/b", "/a-b") && !path_le("/b", "/a"));
}

#[test]
fn texts_are_taken_apart() {
    assert_eq!(trim_text("\u{a0} x y\t"), "x y");
    assert_eq!(to_lower("AbÉ"), "abÉ");
    assert!(same_text_ignoring_case("KeEp", "kEeP"));
    assert_eq!(split_words("  a\u{2003}b c "), vec!["a", "b", "c"]);
    assert_eq!(split_lines("a\r\nb\n\nc"), vec!["a", "b", "", "c"]);
    assert_eq!(split_once_text("a=b=c", "="), Some(("a".to_string(), "b=c".to_string())));
    assert_eq!(split_last_text("a-b-c", "-"), Some(("a-b".to_string(), "c".to_string())));
    assert_eq!(after_last_text("a/b/c", "/"), "c");
    assert_eq!(remove_text("a--b--", "--"), "ab");
    assert_eq!(trim_trailing("a//", '/'), "a");
    assert!(contains_text("abc", "bc") && !contains_text("abc", "ac"));
    assert_eq!((decimal_text(1234567890), decimal_text_signed(-5)), ("1234567890".to_string(), "-5".to_string()));
    assert_eq!((parse_i32("-2147483648"), parse_i32("2147483648")), (Some(i32::MIN), None));
    assert_eq!((parse_i64("+7"), parse_i64("")), (Some(7), None));
    assert_eq!((parse_unsigned("255", 255), parse_unsigned("256", 255)), (Some(255), None));
}

#[test]
fn amounts_are_rounded() {
    assert_eq!(round_nearest(5, 2), 2);
    assert_eq!(round_nearest(7, 2), 4);
    assert_eq!(gib_text(1_610_612_736), "1.5");
    assert_eq!(percent_text(1, 3), "33");
    assert_eq!(percent_text(1, 0), "0");
    assert_eq!(percent_text(575, 1000), "57");
    assert_eq!(percent_text(565, 1000), "56");
    assert_eq!(busy_text(1, 2), "50");
    assert_eq!(degrees_text(43_500), "44");
    assert!(matches!(band_of_share(90, 100), Band::Yellow));
    assert!(matches!(band_of_share(95, 100), Band::Red));
    assert_eq!(Band::Yellow.text(), "yellow");
}

/// A row of numbers of all sizes.
fn numbers() -> Vec<u64> {
    let mut x: u64 = 88172645463325252;
    let mut all = vec![0, 1, 2, 1 << 43, (1 << 43) + 1, (1 << 53) - 1, (1 << 53) + 1, u64::MAX];
    for i in 0..120 {
        x ^= x << 13;
        x ^= x >> 7;
        x ^= x << 17;
        all.push(x >> (i % 64));
    }
    all
}

fn colour(pct: f64) -> &'static str {
    if pct > 90.0 {
        "red"
    } else if pct > 70.0 {
        "yellow"
    } else {
        "green"
    }
}

fn check_share(part: u64, whole: u64) {
    let double = part as f64 / whole as f64 * 100.0;
    assert_eq!(percent_text(part, whole), format!("{double:.0}"), "{part} of {whole}");
    assert_eq!(band_of_share(part, whole).text(), colour(double), "{part} of {whole}");
    let single = double as f32;
    let (p, w) = (part as u128, whole as u128);
    assert_eq!(busy_text(p, w), format!("{single:.0}"), "{part} of {whole}");
    assert_eq!(band_of_load(p, w).text(), colour(single as f64), "{part} of {whole}");
}

#[test]
fn shares_are_those_of_floating_point() {
    for whole in (1..=200).chain([1000, 2000, 4096]) {
        for part in 0..=whole {
            check_share(part, whole);
        }
    }
    for part in numbers() {
        for whole in numbers().into_iter().filter(|w| *w > 0) {
            check_share(part, whole);
        }
    }
}

#[test]
fn sizes_and_temperatures_are_those_of_floating_point() {
    for n in numbers().into_iter().chain(0..3000) {
        assert_eq!(gib_text(n), format!("{:.1}", n as f64 / 1_073_741_824.0), "{n}");
        assert_eq!(degrees_text(n), format!("{:.0}", n as f32 / 1000.0), "{n}");
    }
    for n in (0..200).map(|k| k * 53_687_091) {
        assert_eq!(gib_text(n), format!("{:.1}", n as f64 / 1_073_741_824.0), "{n}");
    }
    for n in (0..200_000).map(|k| k * 25) {
        assert_eq!(degrees_text(n), format!("{:.0}", n as f32 / 1000.0), "{n}");
    }
}
