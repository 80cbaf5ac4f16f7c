use inference_router::api::model_scan::{
    candidate_model, is_gguf_file, is_mmproj_file, is_runnable_gguf_entrypoint, matching_mmproj,
    missing_models, nearest_template, path_appears_under_root, sharded_gguf_index, unique_id,
    FolderScan, ScanEntry,
};
use inference_router::config::model::{GgufMeta, ModelConfig, WeightsFormat};

fn file(path: &str) -> ScanEntry {
    ScanEntry { path: path.to_string(), is_dir: false }
}

fn dir(path: &str) -> ScanEntry {
    ScanEntry { path: path.to_string(), is_dir: true }
}

#[test]
fn finds_gguf_files_recursively_and_follows_symlinked_dirs_once() {
    // `/r/nested-link` is another name of `/r/nested`.
    let mut scan = FolderScan::new("/r");
    while let Some(d) = scan.next_dir() {
        let resolved = if d == "/r/nested-link" { "/r/nested" } else { d.as_str() };
        if !scan.enter(resolved) {
            continue;
        }
        let entries = if d == "/r" {
            vec![
                dir("/r/nested"),
                file("/r/b.GGUF"),
                file("/r/model-00001-of-00003.gguf"),
                file("/r/model-00002-of-00003.gguf"),
                file("/r/model-00003-of-00003.gguf"),
                file("/r/c.txt"),
                dir("/r/nested-link"),
            ]
        } else {
            vec![file(&format!("{d}/a.gguf"))]
        };
        scan.add_entries(&entries);
    }
    assert!(scan.errors.is_empty());
    let files = scan.finish();
    assert_eq!(files.len(), 3);
    assert!(files.iter().any(|p| p.ends_with("/a.gguf")));
    assert!(files.iter().any(|p| p.ends_with("/b.GGUF")));
    assert!(files.iter().any(|p| p.ends_with("/model-00001-of-00003.gguf")));
    assert!(!files.iter().any(|p| p.ends_with("/model-00002-of-00003.gguf")));
    assert!(!files.iter().any(|p| p.ends_with("/model-00003-of-00003.gguf")));
}

fn gguf_model(id: &str, path: &str, preset: Option<&str>) -> ModelConfig {
    let mut m = ModelConfig::default();
    m.id = id.to_string();
    m.weights_format = WeightsFormat::Gguf;
    m.model_path = path.to_string();
    m.binary_preset = preset.map(str::to_string);
    m
}

#[test]
fn nearest_template_matches_sibling_quant_dir() {
    let existing = vec![
        gguf_model(
            "qwen35-9b",
            "/models/qwen3.5/9b/UD-Q4_K_XL/Qwen3.5-9B.gguf",
            Some("llama-vulkan"),
        ),
        // Cousin under a different size tree — must NOT win.
        gguf_model(
            "qwen35-4b",
            "/models/qwen3.5/4b/UD-Q8_K_XL/Qwen3.5-4B.gguf",
            Some("llama-rocm"),
        ),
    ];
    let newcomer = "/models/qwen3.5/9b/QWOPUS-Q8_K_XL/Qwopus3.5-9B.gguf";
    let template = nearest_template(newcomer, &existing).expect("sibling template");
    assert_eq!(template.id, "qwen35-9b");
    assert_eq!(template.binary_preset.as_deref(), Some("llama-vulkan"));
}

#[test]
fn nearest_template_ignores_unrelated_subtree() {
    let existing = vec![gguf_model(
        "other",
        "/models/gemma/4b/Q8/Gemma.gguf",
        Some("llama-vulkan"),
    )];
    let newcomer = "/models/qwen3.5/9b/QWOPUS-Q8_K_XL/Qwopus3.5-9B.gguf";
    assert!(nearest_template(newcomer, &existing).is_none());
}

#[test]
fn missing_file_under_symlinked_root_still_appears_under_root() {
    // The scanned folder is a link, and the file is gone with its directory.
    let (real, link) = ("/t/real_models", "/t/link_models");

    // Path stored as the real target.
    assert!(path_appears_under_root("/t/real_models/Q8_0/model.gguf", link, real));

    // Path stored via the link.
    assert!(path_appears_under_root("/t/link_models/Q8_0/model.gguf", link, real));

    // A path in an unrelated tree is still correctly rejected.
    assert!(!path_appears_under_root("/t/elsewhere/model.gguf", link, real));
}

#[test]
fn unique_id_appends_numeric_suffixes() {
    let mut used = vec!["qwen".to_string(), "qwen-2".to_string()];
    assert_eq!(unique_id("qwen", &mut used), "qwen-3");
    assert!(used.contains(&"qwen-3".to_string()));
}

#[test]
fn mmproj_files_are_detected_and_matched_only_when_unambiguous() {
    let model = "/t/vision.gguf";
    let mmproj = "/t/mmproj-vision.gguf".to_string();
    let other_mmproj = "/t/other/mmproj-other.gguf".to_string();

    assert!(!is_mmproj_file(model));
    assert!(is_mmproj_file(&mmproj));
    assert_eq!(
        matching_mmproj(model, &vec![mmproj.clone(), other_mmproj]),
        Some(mmproj.clone())
    );

    let second = "/t/projector-extra.gguf".to_string();
    assert_eq!(matching_mmproj(model, &vec![mmproj, second]), None);
}

#[test]
fn names_tell_shards() {
    assert!(is_gguf_file("/a/b.gguf") && is_gguf_file("B.GGUF") && !is_gguf_file("/a/gguf"));
    assert_eq!(sharded_gguf_index("m-00002-of-00003.gguf"), Some((2, 3)));
    assert_eq!(sharded_gguf_index("m-2-of-x.gguf"), None);
    assert!(is_runnable_gguf_entrypoint("m-00001-of-00003.gguf"));
    assert!(!is_runnable_gguf_entrypoint("m-00002-of-00003.gguf"));
}

#[test]
fn a_folder_that_cannot_be_read_is_noted() {
    let mut scan = FolderScan::new("/r");
    scan.fail("/r", "denied");
    assert_eq!(scan.errors.len(), 1);
    assert!(scan.errors[0].contains("/r") && scan.errors[0].contains("denied"));
}

fn meta(id: &str) -> GgufMeta {
    GgufMeta {
        max_context: 131_072,
        n_layers: 1,
        n_embd: 1,
        n_head: 1,
        n_head_kv: 1,
        key_length: 1,
        key_length_swa: 1,
        full_kv_heads: 1,
        swa_kv_heads: 1,
        kv_heads_total: 1,
        sliding_window: 0,
        file_size: 5,
        quant_label: None,
        expert_count: None,
        expert_used_count: None,
        suggested_id: id.to_string(),
        suggested_name: "Name".to_string(),
    }
}

#[test]
fn a_new_model_takes_after_its_neighbour() {
    let existing = vec![gguf_model("old", "/r/x/a.gguf", Some("p"))];
    let mut used = vec!["new".to_string()];
    let m = candidate_model("/r/x/b.gguf", meta("new"), &existing, &vec![true], &mut used, &vec![]);
    assert_eq!((m.id.as_str(), m.name.as_str()), ("new-2", "Name"));
    assert_eq!(m.model_path, "/r/x/b.gguf");
    assert_eq!(m.binary_preset.as_deref(), Some("p"));
    assert_eq!(used, vec!["new", "new-2"]);
}

#[test]
fn models_without_files_are_missing() {
    let models = vec![
        gguf_model("gone", "/r/gone.gguf", None),
        gguf_model("here", "/r/here.gguf", None),
        gguf_model("away", "/other/away.gguf", None),
    ];
    let expanded: Vec<String> = models.iter().map(|m| m.model_path.clone()).collect();
    let missing = missing_models(&models, &vec![false, true, false], &expanded, "/r", "/r");
    let ids: Vec<&str> = missing.iter().map(|m| m.id.as_str()).collect();
    assert_eq!(ids, ["gone"]);
}
