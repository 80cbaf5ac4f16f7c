use inference_router::adapter::{
    answer_events, build_prompt, can_start, canvas_event, chunk_text, clean_reasoning, cli_args,
    completion, extract_final, extract_frames, model_name, parse_args, read_chat, split_channels,
    sse_data, sse_event, strip_ansi, strip_bytes, take_through, BadRequest, Generation,
};
use inference_router::api::json::Json;
use inference_router::config::settings::EnvVars;

fn text(s: &str) -> Json {
    Json::Str(s.to_string())
}

fn object(entries: Vec<(&str, Json)>) -> Json {
    Json::Object(entries.into_iter().map(|(k, v)| (k.to_string(), v)).collect())
}

#[test]
fn strip_ansi_removes_csi_and_keeps_utf8() {
    let s = "\x1b[23A\x1b[K**Blue**\x1b[?2026l café";
    assert_eq!(strip_ansi(s), "**Blue** café");
}

#[test]
fn split_channels_separates_reasoning_and_answer() {
    let t = "<|channel>thought\nlet me think...\n<channel|>The answer is 4.";
    let (r, c) = split_channels(t);
    assert_eq!(r.as_deref(), Some("let me think..."));
    assert_eq!(c, "The answer is 4.");
}

#[test]
fn split_channels_no_marker_is_all_content() {
    let (r, c) = split_channels("just text");
    assert_eq!(r, None);
    assert_eq!(c, "just text");
}

#[test]
fn extract_final_takes_text_after_last_frame() {
    let gen = "\x1b[?2026lnoise\x1b[?2026l\x1b[22A\x1b[J final answer\ntotal time: 1ms\n";
    assert_eq!(extract_final(gen), "final answer");
}

#[test]
fn extract_frames_emits_each_canvas() {
    let gen = "A frame1\x1b[?2026lB frame2\x1b[?2026l";
    let frames = extract_frames(gen, 0, 0).frames;
    assert_eq!(frames.len(), 2);
    assert_eq!(frames[0], (1, "A frame1".to_string()));
    assert_eq!(frames[1], (2, "B frame2".to_string()));
}

#[test]
fn build_prompt_collapses_and_hoists_system() {
    let req = object(vec![(
        "messages",
        Json::Array(vec![
            object(vec![("role", text("system")), ("content", text("Be brief."))]),
            object(vec![("role", text("user")), ("content", text("What is\n2+2?"))]),
        ]),
    )]);
    assert_eq!(build_prompt(&req), "Be brief. What is 2+2?");
}

#[test]
fn chunk_text_reveals_word_by_word_and_reconstructs() {
    assert_eq!(chunk_text("Red and blue."), vec!["Red ", "and ", "blue."]);
    assert_eq!(chunk_text("Red and blue.").concat(), "Red and blue.");
    assert!(chunk_text("").is_empty());
}

#[test]
fn escapes_of_other_shapes_are_stripped_too() {
    assert_eq!(strip_ansi("a\x1b]0;title\x07b"), "ab");
    assert_eq!(strip_ansi("plain"), "plain");
    assert_eq!(strip_bytes(&b"x\x1b[1my".to_vec()), b"xy".to_vec());
}

#[test]
fn frames_go_on_where_they_stopped() {
    let gen = "A\x1b[?2026lB";
    let first = extract_frames(gen, 0, 0);
    assert_eq!(first.frames, vec![(1, "A".to_string())]);
    let second = extract_frames("A\x1b[?2026lB\x1b[?2026l", first.cursor, first.step);
    assert_eq!(second.frames, vec![(2, "B".to_string())]);
}

#[test]
fn what_stands_behind_a_needle_is_left() {
    assert_eq!(take_through("ab> cd", "> "), Some(("ab> ".to_string(), "cd".to_string())));
    assert_eq!(take_through("abc", "> "), None);
}

#[test]
fn a_generation_ends_with_its_report() {
    let mut g = Generation::new();
    let fed = g.feed("A frame\x1b[?2026l");
    assert_eq!(fed.frames, vec![(1, "A frame".to_string())]);
    assert!(fed.left.is_none());
    let fed = g.feed("done\ntotal time: 1ms\n> ");
    assert!(fed.frames.is_empty());
    assert_eq!(fed.left.as_deref(), Some("> "));
    assert_eq!(extract_final(&g.text), "done");
}

#[test]
fn reasoning_is_cleaned() {
    assert_eq!(clean_reasoning("<|channel>thought\n hm "), "hm");
}

#[test]
fn requests_are_read() {
    let ok = read_chat(br#"{"stream":true,"messages":[{"role":"user","content":"hi"}]}"#).unwrap();
    assert_eq!((ok.prompt.as_str(), ok.stream), ("hi", true));
    assert_eq!(read_chat(b"{").unwrap_err(), BadRequest::NotJson);
    assert_eq!(read_chat(br#"{"messages":[]}"#).unwrap_err(), BadRequest::NoPrompt);
}

#[test]
fn answers_are_framed() {
    assert_eq!(sse_data("x"), "data: x\n\n");
    assert_eq!(sse_event("canvas", "x"), "event: canvas\ndata: x\n\n");
    let events = answer_events("id", "m", "Red and");
    assert!(events.last().unwrap().ends_with("[DONE]\n\n"));
    assert!(events.iter().any(|e| e.contains(r#""content":"Red ""#)), "{events:?}");
    assert!(canvas_event(3, "p").contains("3"));
    let c: serde_json::Value = serde_json::from_str(&completion("id", "m", "yes")).unwrap();
    assert_eq!(c["choices"][0]["message"]["content"], "yes");
    assert_eq!(c["model"], "m");
}

#[test]
fn arguments_are_read() {
    let argv: Vec<String> = ["-m", "/x/model.gguf", "--port", "9000", "-ngl", "7"]
        .iter()
        .map(|s| s.to_string())
        .collect();
    let a = parse_args(&argv, &EnvVars { vars: vec![] }, "/bin/cli");
    assert_eq!((a.model.as_str(), a.port, a.ngl.as_str(), a.cli.as_str()), ("/x/model.gguf", 9000, "7", "/bin/cli"));
    assert!(can_start(&a));
    assert!(cli_args(&a).windows(2).any(|w| w == ["-m", "/x/model.gguf"]));
    assert_eq!(model_name("/x/model.gguf"), "model");
}

#[test]
fn stripping_twice_is_stripping_once() {
    for s in ["ab\r\n", "\x1b[1mcaf\u{e9}\x1b[0m", "\x1b[\u{e9}x", "\x1b]0;t\x07y\x1b"] {
        let once = strip_ansi(s);
        assert!(!once.contains('\x1b') && !once.contains('\r'));
        assert_eq!(strip_ansi(&once), once);
    }
    // The lead byte of a letter ends the sequence; what is left is no letter.
    assert_eq!(strip_ansi("\x1b[\u{e9}x"), "\u{fffd}x");
    assert_eq!(strip_ansi("na\u{ef}ve \u{2713}"), "na\u{ef}ve \u{2713}");
}
