use inference_router::api::body_peek::{extract_model, model_of};
use inference_router::api::json::Json;
use inference_router::api::loop_guard::cross_turn::{
    collect_tool_events, corrective_text, detect_repeated_suffix, guard_document, guard_request,
    tool_sequence, truncate, ToolEvent,
};
use inference_router::api::loop_guard::detector::{z_function, Detector};
use inference_router::api::fields::{read_fields, read_items};
use inference_router::api::loop_guard::endpoint::{ChoiceSnapshot, EndpointKind};
use inference_router::api::loop_guard::session::{
    first_step, snippet_text, stream_error, ChoiceState, Config, FieldKind, FirstAnswer, FirstStep,
    Look, NextStep, Outcome, StreamSession,
};
use inference_router::api::loop_guard::sse::{
    extract_chat, extract_completion, extract_llama_cpp, is_done, read_integer, read_switch,
    trim_ascii, ChoiceDelta, EventParser,
};
use inference_router::api::loop_guard::watch::{Seen, StreamEvent, Watch};
use inference_router::config::settings::{
    StreamingLoopAction, StreamingLoopSettings, ToolLoopSettings,
};

fn text(s: &str) -> Json {
    Json::Str(s.to_string())
}

fn object(entries: Vec<(&str, Json)>) -> Json {
    Json::Object(entries.into_iter().map(|(k, v)| (k.to_string(), v)).collect())
}

fn message(role: &str, content: &str) -> Json {
    object(vec![("role", text(role)), ("content", text(content))])
}

fn string_at<'a>(j: &'a Json, key: &str) -> &'a str {
    j.text_at(key).unwrap().as_str()
}

// ----- request bodies -----

#[test]
fn extracts_model_from_chat_body() {
    let body = br#"{"model":"qwen3-30b","messages":[{"role":"user","content":"hi"}]}"#;
    assert_eq!(extract_model(body), Some("qwen3-30b".into()));
}

#[test]
fn extracts_model_from_completion_body() {
    let body = br#"{"model":"llama-3","prompt":"Hello","max_tokens":10}"#;
    assert_eq!(extract_model(body), Some("llama-3".into()));
}

#[test]
fn returns_none_for_non_json() {
    assert_eq!(extract_model(b"not json at all"), None);
    assert_eq!(extract_model(b""), None);
}

#[test]
fn returns_none_when_model_missing() {
    let body = br#"{"messages":[{"role":"user","content":"hi"}]}"#;
    assert_eq!(extract_model(body), None);
}

#[test]
fn returns_none_when_model_not_string() {
    let body = br#"{"model":123}"#;
    assert_eq!(extract_model(body), None);
}

#[test]
fn the_model_is_read_from_a_document() {
    assert_eq!(model_of(&object(vec![("model", text("m"))])), Some("m".to_string()));
    assert_eq!(model_of(&Json::Null), None);
}

// ----- tool loops -----

fn tool_cycle(call_id: &str, arguments: &str, output: &str) -> Vec<Json> {
    tool_cycle_named(call_id, "edit_file", arguments, output)
}

fn tool_cycle_named(call_id: &str, name: &str, arguments: &str, output: &str) -> Vec<Json> {
    vec![
        object(vec![
            ("role", text("assistant")),
            ("content", Json::Null),
            (
                "tool_calls",
                Json::Array(vec![object(vec![
                    ("id", text(call_id)),
                    ("type", text("function")),
                    (
                        "function",
                        object(vec![("name", text(name)), ("arguments", text(arguments))]),
                    ),
                ])]),
            ),
        ]),
        object(vec![
            ("role", text("tool")),
            ("tool_call_id", text(call_id)),
            ("content", text(output)),
        ]),
    ]
}

fn check_repeated_cycles() {
    let mut messages = vec![message("user", "fix it")];
    messages.extend(tool_cycle("a", r#"{"path":"/tmp/a","old":"x"}"#, "no changes"));
    messages.extend(tool_cycle("b", r#"{ "old" : "x", "path" : "/tmp/a" }"#, "no changes"));
    messages.extend(tool_cycle("c", r#"{"path":"/tmp/a","old":"x"}"#, "no changes"));

    let events = collect_tool_events(&messages, 80);
    let detection = detect_repeated_suffix(&events, 3).unwrap();
    assert_eq!(detection.period, 1);
    assert_eq!(detection.repeats, 3);
    assert_eq!(detection.block[0].name, "edit_file");
}

fn check_user_reset() {
    let mut messages = vec![message("user", "fix it")];
    messages.extend(tool_cycle("a", r#"{"path":"/tmp/a"}"#, "no changes"));
    messages.push(message("user", "try that same edit again"));
    messages.extend(tool_cycle("b", r#"{"path":"/tmp/a"}"#, "no changes"));
    messages.push(message("user", "try that same edit a third time"));
    messages.extend(tool_cycle("c", r#"{"path":"/tmp/a"}"#, "no changes"));

    let events = collect_tool_events(&messages, 80);
    assert_eq!(events.len(), 1);
    assert!(detect_repeated_suffix(&events, 3).is_none());
}

fn check_full_sequence() {
    let mut messages = vec![message("user", "fix it")];
    messages.extend(tool_cycle_named("a", "read_file", r#"{"path":"/tmp/a"}"#, "old contents"));
    messages.extend(tool_cycle_named(
        "b",
        "edit_file",
        r#"{"path":"/tmp/a","old":"x","new":"x"}"#,
        "no changes",
    ));
    messages.extend(tool_cycle_named("c", "read_file", r#"{"path":"/tmp/a"}"#, "old contents"));
    messages.extend(tool_cycle_named(
        "d",
        "edit_file",
        r#"{"path":"/tmp/a","old":"x","new":"x"}"#,
        "no changes",
    ));

    let events = collect_tool_events(&messages, 80);
    let detection = detect_repeated_suffix(&events, 2).unwrap();
    assert_eq!(detection.period, 2);
    assert_eq!(tool_sequence(&detection.block), "read_file -> edit_file");
    let told = corrective_text(&detection);
    assert!(told.contains("read_file -> edit_file"));
    assert!(told.contains("read_file: old contents"));
    assert!(told.contains("edit_file: no changes"));
}

fn check_different_outputs() {
    let mut messages = vec![message("user", "fix it")];
    messages.extend(tool_cycle("a", r#"{"path":"/tmp/a"}"#, "first error"));
    messages.extend(tool_cycle("b", r#"{"path":"/tmp/a"}"#, "second error"));
    messages.extend(tool_cycle("c", r#"{"path":"/tmp/a"}"#, "third error"));

    let events = collect_tool_events(&messages, 80);
    assert!(detect_repeated_suffix(&events, 3).is_none());
}

fn cycle_json(id: &str) -> String {
    format!(
        r#"{{"role":"assistant","content":null,"tool_calls":[{{"id":"{id}","type":"function","function":{{"name":"edit_file","arguments":"{{\"path\":\"/tmp/a\"}}"}}}}]}},{{"role":"tool","tool_call_id":"{id}","content":"oldString and newString are identical"}}"#
    )
}

fn check_guard_injects() {
    let body = format!(
        r#"{{"model":"fake","messages":[{{"role":"user","content":"fix it"}},{},{},{}]}}"#,
        cycle_json("a"),
        cycle_json("b"),
        cycle_json("c")
    );
    let guarded = guard_request(
        "/v1/chat/completions",
        body.as_bytes(),
        &ToolLoopSettings::default(),
    )
    .unwrap();
    let guarded: serde_json::Value = serde_json::from_slice(&guarded).unwrap();
    let messages = guarded["messages"].as_array().unwrap();
    assert_eq!(messages.len(), 8);
    let last = messages.last().unwrap();
    assert_eq!(last["role"], "user");
    let content = last["content"].as_str().unwrap();
    assert!(content.contains("automated proxy notice"));
    assert!(content.contains("oldString and newString are identical"));
}

fn check_other_paths() {
    let body = br#"{"model":"fake","messages":[]}"#;
    assert!(guard_request("/v1/completions", body, &ToolLoopSettings::default()).is_none());
}

#[test]
fn cross_turn_detects_repeated_openai_tool_cycles_at_suffix() {
    check_repeated_cycles();
}

#[test]
fn cross_turn_user_message_resets_autonomous_tail() {
    check_user_reset();
}

#[test]
fn cross_turn_repeated_multi_tool_cycle_names_full_sequence() {
    check_full_sequence();
}

#[test]
fn cross_turn_different_tool_outputs_do_not_loop() {
    check_different_outputs();
}

#[test]
fn cross_turn_guard_injects_corrective_message() {
    check_guard_injects();
}

#[test]
fn cross_turn_ignores_non_chat_paths() {
    check_other_paths();
}

#[test]
fn cross_turn_tests_detects_repeated_openai_tool_cycles_at_suffix() {
    check_repeated_cycles();
}

#[test]
fn cross_turn_tests_user_message_resets_autonomous_tail() {
    check_user_reset();
}

#[test]
fn cross_turn_tests_repeated_multi_tool_cycle_names_full_sequence() {
    check_full_sequence();
}

#[test]
fn cross_turn_tests_different_tool_outputs_do_not_loop() {
    check_different_outputs();
}

#[test]
fn cross_turn_tests_guard_injects_corrective_message() {
    check_guard_injects();
}

#[test]
fn cross_turn_tests_ignores_non_chat_paths() {
    check_other_paths();
}

#[test]
fn a_guard_that_is_switched_off_changes_nothing() {
    let off = ToolLoopSettings { enabled: false, ..ToolLoopSettings::default() };
    let body = format!(
        r#"{{"messages":[{},{},{}]}}"#,
        cycle_json("a"),
        cycle_json("b"),
        cycle_json("c")
    );
    assert!(guard_request("/v1/chat/completions", body.as_bytes(), &off).is_none());
    assert!(guard_request("/v1/chat/completions", b"{", &ToolLoopSettings::default()).is_none());
    assert!(guard_document(Json::Null, &ToolLoopSettings::default()).is_none());
}

#[test]
fn older_function_calls_are_counted_too() {
    let call = || {
        object(vec![
            ("role", text("assistant")),
            (
                "function_call",
                object(vec![("name", text("look")), ("arguments", text(" not json "))]),
            ),
        ])
    };
    let answer = |out: &str| {
        object(vec![("role", text("function")), ("name", text("look")), ("content", text(out))])
    };
    let messages = vec![call(), answer(" a "), call(), answer("a")];
    let events = collect_tool_events(&messages, 80);
    assert_eq!(events.len(), 2);
    assert_eq!(events[0].arguments, "not json");
    assert_eq!(events[0].output, "a");
    let found = detect_repeated_suffix(&events, 2).unwrap();
    assert_eq!((found.period, found.repeats), (1, 2));
}

#[test]
fn the_count_goes_as_far_back_as_the_copies_go() {
    let event = |name: &str| ToolEvent {
        name: name.to_string(),
        arguments: String::new(),
        output: String::new(),
    };
    let events: Vec<ToolEvent> = ["x", "a", "b", "a", "b", "a", "b"].iter().map(|n| event(n)).collect();
    let found = detect_repeated_suffix(&events, 2).unwrap();
    assert_eq!((found.period, found.repeats), (2, 3));
    assert_eq!(
        corrective_text(&found),
        "[INTERRUPT \u{2014} automated proxy notice] The recent conversation repeated the same tool cycle 3 times. Do not repeat this tool sequence with the same arguments: a -> b. Use a different concrete action, explain the blocker, or ask for the missing information. Last tool result(s): a:  | b: "
    );
}

#[test]
fn long_outputs_are_cut_between_characters() {
    assert_eq!(truncate("short", 240), "short");
    assert_eq!(truncate("aé", 2), "a...");
    assert_eq!(truncate("aé", 3), "aé");
    assert_eq!(truncate("ab😀c", 5), "ab...");
}

// ----- the detector -----

fn check_tandem() {
    let cases = [
        ("aaa", 3, 1),
        ("ababab", 3, 2),
        ("abcabcabc", 3, 3),
        ("aaaaaaaaaa", 10, 1),
        ("xyzxyzxyzxyzxyzxyzxyzxyzxyzxyz", 10, 3),
    ];
    for (input, repeats, want) in cases {
        let mut d = Detector::new(64 * 1024, repeats);
        d.append(input.as_bytes());
        assert_eq!(d.scan(), want, "{input}");
    }
}

fn check_not_at_suffix() {
    let mut d = Detector::new(1024, 3);
    d.append(b"abcabcabc-tail-different");
    assert_eq!(d.scan(), 0);
}

fn check_prose() {
    let prose = "I'm picturing the layout. I'm realizing the core issue is alignment. \
            I'm settling on a vertical flow. The key insight is that branches nest. \
            I'm picturing how loops fit. I'm realizing branches need their own block.";
    let mut d = Detector::new(64 * 1024, 3);
    d.append(prose.as_bytes());
    assert_eq!(d.scan(), 0);
}

fn check_extent() {
    let mut d = Detector::new(64 * 1024, 3);
    d.append("preamble: ".as_bytes());
    d.append("XYZAB".repeat(25).as_bytes());
    assert_eq!(d.loop_extent(5), 25);
}

fn check_z() {
    let got = z_function(b"aabaabxaab");
    assert_eq!(got, vec![10, 1, 0, 3, 1, 0, 0, 3, 1, 0]);
}

#[test]
fn detector_exact_k_fold_tandem() {
    check_tandem();
}

#[test]
fn detector_not_at_suffix() {
    check_not_at_suffix();
}

#[test]
fn detector_similar_prose_is_not_a_loop() {
    check_prose();
}

#[test]
fn detector_loop_extent() {
    check_extent();
}

#[test]
fn detector_z_function_spot_check() {
    check_z();
}

#[test]
fn detector_tests_exact_k_fold_tandem() {
    check_tandem();
}

#[test]
fn detector_tests_not_at_suffix() {
    check_not_at_suffix();
}

#[test]
fn detector_tests_similar_prose_is_not_a_loop() {
    check_prose();
}

#[test]
fn detector_tests_loop_extent() {
    check_extent();
}

#[test]
fn detector_tests_z_function_spot_check() {
    check_z();
}

#[test]
fn the_detector_keeps_the_last_bytes_only() {
    let mut one = Detector::new(4, 2);
    one.append(b"abcdef");
    assert_eq!(one.len(), 4);
    assert_eq!(one.snippet(2, 0), b"ef".to_vec());
    assert_eq!(one.snippet(3, 2), b"de".to_vec());
    let mut two = Detector::new(4, 2);
    two.append(b"abc");
    two.append(b"def");
    assert_eq!(two.snippet(4, 0), one.snippet(4, 0));
    two.reset();
    assert_eq!(two.len(), 0);
    assert_eq!(two.snippet(1, 0), Vec::<u8>::new());
    assert_eq!(two.loop_extent(0), 0);
    assert_eq!(two.loop_extent(1), 0);
}

// ----- endpoints -----

fn check_chat_corrective() {
    let doc = object(vec![("messages", Json::Array(vec![message("user", "hi")]))]);
    let partial = vec![ChoiceSnapshot {
        index: 0,
        content: "answer".into(),
        reasoning_content: "thinking".into(),
    }];
    let doc = EndpointKind::Chat.inject_corrective(doc, 0, Some(&partial));
    let msgs = doc.items_at("messages").unwrap();
    assert_eq!(msgs.len(), 3);
    assert_eq!(string_at(&msgs[1], "role"), "assistant");
    assert_eq!(string_at(&msgs[1], "content"), "<think>thinking</think>answer");
    assert!(string_at(&msgs[2], "content").contains("INTERRUPT"));
}

fn check_completion_corrective() {
    let doc = object(vec![("prompt", text("Once"))]);
    let doc = EndpointKind::Completion.inject_corrective(doc, 0, None);
    let prompt = string_at(&doc, "prompt");
    assert!(prompt.starts_with("Once\n\n[[INTERRUPT"));
    assert!(prompt.ends_with("]\n\n"));
}

#[test]
fn endpoint_chat_corrective_appends_partial_and_user_message() {
    check_chat_corrective();
}

#[test]
fn endpoint_completion_corrective_wraps_interrupt_like_go_version() {
    check_completion_corrective();
}

#[test]
fn endpoint_tests_chat_corrective_appends_partial_and_user_message() {
    check_chat_corrective();
}

#[test]
fn endpoint_tests_completion_corrective_wraps_interrupt_like_go_version() {
    check_completion_corrective();
}

#[test]
fn endpoints_are_told_by_their_paths() {
    assert_eq!(EndpointKind::detect("/v1/chat/completions"), Some(EndpointKind::Chat));
    assert_eq!(EndpointKind::detect("/v1/completions"), Some(EndpointKind::Completion));
    assert_eq!(EndpointKind::detect("/completion"), Some(EndpointKind::LlamaCpp));
    assert_eq!(EndpointKind::detect("/v1/embeddings"), None);
    assert_eq!(EndpointKind::LlamaCpp.name(), "llama.cpp /completion");
}

#[test]
fn a_halted_stream_says_why() {
    let chat = EndpointKind::Chat.format_halt_delta(2, 5);
    let chat = String::from_utf8(chat).unwrap();
    assert!(chat.starts_with("data: {"));
    assert!(chat.ends_with("}\n\ndata: [DONE]\n\n"));
    assert!(chat.contains("[loop detected after 2 attempt(s) (period=5), generation halted]"));
    let native = String::from_utf8(EndpointKind::LlamaCpp.format_halt_delta(1, 3)).unwrap();
    assert!(!native.contains("[DONE]"));
    assert!(native.contains("\"stop\":true"));
    let plain = String::from_utf8(EndpointKind::Completion.format_halt_delta(1, 3)).unwrap();
    assert!(plain.contains("\"text\":\"\\n\\n[loop detected after 1 attempt(s) (period=3), halted]\\n\""));
}

// ----- events -----

#[test]
fn extracts_chat_content_reasoning_thinking_and_tools() {
    let got = extract_chat(
            br#"{"choices":[{"index":0,"delta":{"content":"C","reasoning_content":"R","thinking":"T","tool_calls":[{"index":0,"function":{"name":"read","arguments":"{\"path\":\"/x\"}"}}]}}]}"#,
        );
    assert_eq!(got.len(), 1);
    assert_eq!(got[0].index, 0);
    assert_eq!(got[0].content, "C");
    assert_eq!(got[0].reasoning_content, "RT");
    assert!(String::from_utf8_lossy(&got[0].tool_calls).contains(r#""name":"read""#));
    assert_eq!(
        String::from_utf8_lossy(&got[0].detector_bytes()),
        format!("RTC{}", String::from_utf8_lossy(&got[0].tool_calls))
    );
}

#[test]
fn parses_multiline_sse_event() {
    let mut p = EventParser::new();
    let events = p.push(b": keepalive\n\ndata: {\"a\":1}\ndata: {\"b\":2}\n\n");
    assert_eq!(events, vec![b"{\"a\":1}\n{\"b\":2}".to_vec()]);
}

#[test]
fn done_sentinel() {
    assert!(is_done(b" [DONE]\n"));
    assert!(!is_done(b"[done]"));
}

#[test]
fn events_do_not_depend_on_the_pieces() {
    let stream = b"data: one\r\n\r\ndata: two\n\ndata: three";
    let mut whole = EventParser::new();
    let mut events = whole.push(stream);
    events.extend(whole.finish());
    let mut piecewise = EventParser::new();
    let mut got = Vec::new();
    for b in stream {
        got.extend(piecewise.push(&[*b]));
    }
    got.extend(piecewise.finish());
    assert_eq!(events, got);
    assert_eq!(events, vec![b"one".to_vec(), b"two".to_vec(), b"three".to_vec()]);
}

#[test]
fn other_events_are_read() {
    let got = extract_completion(br#"{"choices":[{"index":1,"text":"hi"}]}"#);
    assert_eq!((got[0].index, got[0].content.as_str()), (1, "hi"));
    let got = extract_llama_cpp(br#"{"content":"x","stop":true}"#);
    assert_eq!((got[0].content.as_str(), got[0].stop), ("x", true));
    assert!(extract_chat(b"no json").is_empty());
    assert!(extract_llama_cpp(b"{}").is_empty());
}

#[test]
fn plain_values_are_read_from_their_texts() {
    assert_eq!(read_integer(b"-12"), Some(-12));
    assert_eq!(read_integer(b"9223372036854775808"), None);
    assert_eq!(read_integer(b"1.5"), None);
    assert_eq!(read_switch(b"true"), Some(true));
    assert_eq!(read_switch(b"yes"), None);
    assert_eq!(trim_ascii(b" \tx y\n"), b"x y".to_vec());
}

// ----- sessions -----

#[test]
fn choice_snapshot_truncates_loop_region() {
    let mut choice = ChoiceState::new(64 * 1024, 4);
    choice.append_tracked(FieldKind::Content, b"go");
    for _ in 0..12 {
        choice.append_tracked(FieldKind::Content, b"XYZABXYZAB");
    }
    let period = choice.detector.scan();
    assert_eq!(period, 5);
    let snap = choice.snapshot(4, period);
    assert_eq!(snap.content, "go");
}

#[test]
fn a_snapshot_keeps_the_parts_apart() {
    let mut choice = ChoiceState::new(1024, 2);
    choice.append_tracked(FieldKind::Reasoning, b"why");
    choice.append_untracked(b"{call}");
    choice.append_tracked(FieldKind::Content, "caf\u{e9}".as_bytes());
    let all = choice.snapshot(2, 0);
    assert_eq!((all.reasoning_content.as_str(), all.content.as_str()), ("why", "caf\u{e9}"));
    let cut = choice.snapshot(2, 3);
    assert_eq!((cut.reasoning_content.as_str(), cut.content.as_str()), ("why", ""));
}

fn guarded(action: StreamingLoopAction, max_retries: usize) -> StreamSession {
    let cfg = StreamingLoopSettings {
        repeats: 3,
        action,
        max_retries,
        ..StreamingLoopSettings::default()
    };
    StreamSession::new(
        "/v1/chat/completions",
        br#"{"stream":true,"messages":[{"role":"user","content":"hi"}]}"#,
        &cfg,
    )
    .unwrap()
}

fn delta(index: i64, content: &str) -> ChoiceDelta {
    ChoiceDelta {
        index,
        content: content.to_string(),
        reasoning_content: String::new(),
        tool_calls: Vec::new(),
        stop: false,
    }
}

#[test]
fn only_streams_are_guarded() {
    let on = StreamingLoopSettings::default();
    let off = StreamingLoopSettings { enabled: false, ..on };
    assert!(StreamSession::new("/v1/chat/completions", br#"{"stream":true}"#, &on).is_some());
    assert!(StreamSession::new("/v1/chat/completions", br#"{"stream":true}"#, &off).is_none());
    assert!(StreamSession::new("/v1/chat/completions", br#"{"stream":false}"#, &on).is_none());
    assert!(StreamSession::new("/v1/chat/completions", br#"{}"#, &on).is_none());
    assert!(StreamSession::new("/v1/chat/completions", b"x", &on).is_none());
    assert!(StreamSession::new("/v1/embeddings", br#"{"stream":true}"#, &on).is_none());
}

#[test]
fn a_configuration_has_its_minimums() {
    let s = StreamingLoopSettings {
        window_bytes: 1,
        repeats: 0,
        check_interval_ms: 0,
        ..StreamingLoopSettings::default()
    };
    let c = Config::from_settings(&s);
    assert_eq!((c.window, c.repeats, c.check_interval_ms), (1024, 2, 1));
    assert_eq!(Config::from_settings(&StreamingLoopSettings::default()), Config::default());
}

#[test]
fn the_lowest_choice_with_a_loop_is_reported() {
    let mut s = guarded(StreamingLoopAction::Heal, 1);
    assert_eq!(s.scan_all(), (0, 0));
    s.hear_all(&vec![delta(7, "ababab"), delta(2, "fine"), delta(4, "xxx")]);
    assert_eq!(s.scan_all(), (4, 1));
    match s.look(false) {
        Look::Loop { choice_index, period, snippet } => {
            assert_eq!((choice_index, period, snippet), (4, 1, b"x".to_vec()));
        }
        other => panic!("{other:?}"),
    }
}

#[test]
fn a_loop_is_healed_until_the_retries_are_used_up() {
    let mut s = guarded(StreamingLoopAction::Heal, 1);
    s.feed_detectors(br#"{"choices":[{"index":0,"delta":{"content":"well xyxyxy"}}]}"#);
    let (choice_index, period) = s.scan_all();
    assert_eq!((choice_index, period), (0, 2));
    assert!(matches!(s.after(Outcome::LoopDetected { choice_index, period }), NextStep::Retry));
    assert_eq!(s.scan_all(), (0, 0));
    let msgs = s.req_doc.items_at("messages").unwrap();
    assert_eq!(msgs.len(), 3);
    assert_eq!(string_at(&msgs[1], "content"), "well ");
    let body: serde_json::Value = serde_json::from_slice(&s.request_body()).unwrap();
    assert_eq!(body["messages"][1]["content"], "well ");
    match s.after(Outcome::LoopDetected { choice_index, period }) {
        NextStep::Halt(bytes) => {
            assert_eq!(bytes, EndpointKind::Chat.format_halt_delta(2, 2));
        }
        other => panic!("{other:?}"),
    }
}

#[test]
fn other_outcomes_change_nothing() {
    let mut s = guarded(StreamingLoopAction::Abort, 5);
    assert!(matches!(s.after(Outcome::FinishedNaturally), NextStep::Stop));
    assert!(matches!(s.after(Outcome::ClientDisconnected), NextStep::Stop));
    assert!(matches!(s.after(Outcome::UpstreamError), NextStep::Stop));
    assert!(matches!(s.after(Outcome::IdleTimeout), NextStep::Recycle));
    assert!(matches!(
        s.after(Outcome::LoopDetected { choice_index: 0, period: 1 }),
        NextStep::Halt(_)
    ));
    assert_eq!(s.attempt, 0);
}

#[test]
fn a_loop_is_noted_once_where_it_is_only_noted() {
    let mut s = guarded(StreamingLoopAction::Log, 1);
    assert!(matches!(s.look(false), Look::Quiet));
    s.hear(&delta(0, "zzz"));
    assert!(matches!(s.look(false), Look::Note { choice_index: 0, period: 1 }));
    assert!(matches!(s.look(true), Look::Quiet));
}

#[test]
fn throughput_is_taken_down_once() {
    let mut s = guarded(StreamingLoopAction::Heal, 1);
    let mut p = EventParser::new();
    let piece = b"data: {\"choices\":[{\"index\":0,\"delta\":{\"content\":\"a\"}}]}\n\ndata: {\"timings\":{\"predicted_per_second\":12.5}}\n\ndata: [DONE]\n\n";
    let t = s.take_in(&mut p, piece).unwrap();
    assert_eq!((t.decode.as_str(), t.prefill.as_str()), ("12.5", "0"));
    assert!(s.take_in(&mut p, piece).is_none());
    assert_eq!(s.choices.len(), 1);
    assert_eq!(s.choices[0].state.said.len(), 2);
}

#[test]
fn first_answers_lead_to_first_steps() {
    assert_eq!(first_step(FirstAnswer::TimedOut), FirstStep::Restart);
    assert_eq!(first_step(FirstAnswer::Failed), FirstStep::TellFailure);
    assert_eq!(first_step(FirstAnswer::Status(200)), FirstStep::Watch);
    assert_eq!(first_step(FirstAnswer::Status(201)), FirstStep::PassOn);
}

#[test]
fn a_recycled_instance_ends_its_stream_with_an_error() {
    let out = String::from_utf8(stream_error("m", "wait")).unwrap();
    assert!(out.starts_with("data: {\"error\":{"));
    assert!(out.contains("\"type\":\"router_recycle\""));
    assert!(out.ends_with("}\n\ndata: [DONE]\n\n"));
}

#[test]
fn snippets_need_not_be_whole_characters() {
    assert_eq!(snippet_text(b"abc", 3), "abc");
    assert_eq!(snippet_text(b"abcd", 3), "abc...");
    assert_eq!(snippet_text("\u{e9}x".as_bytes(), 1), "\u{fffd}...");
}

#[test]
fn an_attempt_is_watched_until_it_is_over() {
    assert!(Watch::begin(404).is_none());
    let mut w = Watch::begin(200).unwrap();
    let mut s = guarded(StreamingLoopAction::Heal, 1);
    let piece = b"data: {\"choices\":[{\"index\":0,\"delta\":{\"content\":\"xyxyxy\"}}]}\n\n";
    let (t, seen) = s.watch(&mut w, StreamEvent::Piece(piece.to_vec()));
    assert!(t.is_none() && matches!(seen, Seen::GoOn));
    match s.watch(&mut w, StreamEvent::Tick).1 {
        Seen::Over { outcome, snippet } => {
            assert_eq!(outcome, Outcome::LoopDetected { choice_index: 0, period: 2 });
            assert_eq!(snippet, b"xy".to_vec());
        }
        other => panic!("{other:?}"),
    }
    let ends = [
        (StreamEvent::End, Outcome::FinishedNaturally),
        (StreamEvent::TimedOut, Outcome::IdleTimeout),
        (StreamEvent::Failed, Outcome::UpstreamError),
        (StreamEvent::ClientGone, Outcome::ClientDisconnected),
    ];
    for (e, want) in ends {
        match s.watch(&mut w, e).1 {
            Seen::Over { outcome, .. } => assert_eq!(outcome, want),
            other => panic!("{other:?}"),
        }
    }
}

#[test]
fn a_noted_loop_does_not_end_an_attempt() {
    let mut w = Watch::begin(200).unwrap();
    let mut s = guarded(StreamingLoopAction::Log, 1);
    s.hear(&delta(0, "zzz"));
    assert!(matches!(s.watch(&mut w, StreamEvent::Tick).1, Seen::Note { .. }));
    assert!(matches!(s.watch(&mut w, StreamEvent::Tick).1, Seen::GoOn));
}

#[test]
fn the_rest_of_a_stream_is_heard_at_its_end() {
    let mut w = Watch::begin(200).unwrap();
    let mut s = guarded(StreamingLoopAction::Heal, 1);
    let piece = b"data: {\"timings\":{\"prompt_per_second\":3}}".to_vec();
    assert!(s.watch(&mut w, StreamEvent::Piece(piece)).0.is_none());
    let (t, _) = s.watch(&mut w, StreamEvent::End);
    assert_eq!(t.unwrap().prefill, "3");
}

#[test]
fn choices_may_be_given_by_position() {
    let got = extract_chat(br#"{"choices":[[3,["C","R","T"]],{"delta":["D"]}]}"#);
    assert_eq!(got.len(), 2);
    assert_eq!(got[0].index, 3);
    assert_eq!(got[0].content, "C");
    assert_eq!(got[0].reasoning_content, "RT");
    assert!(got[0].tool_calls.is_empty());
    assert_eq!(got[1].index, 0);
    assert_eq!(got[1].content, "D");
    assert!(extract_chat(br#"{"choices":[[3,["C"],0]]}"#).is_empty());

    let got = extract_completion(br#"{"choices":[[2,"hi"]]}"#);
    assert_eq!(got.len(), 1);
    assert_eq!(got[0].index, 2);
    assert_eq!(got[0].content, "hi");
    assert!(extract_completion(br#"{"choices":[[2,"hi",0]]}"#).is_empty());
}

#[test]
fn each_kind_knows_its_done_mark() {
    let stop = br#"{"content":"","stop":true}"#;
    assert!(EndpointKind::LlamaCpp.is_done(stop));
    assert!(!EndpointKind::LlamaCpp.is_done(br#"{"content":"x","stop":false}"#));
    assert!(!EndpointKind::LlamaCpp.is_done(b"not json"));
    assert!(!EndpointKind::Chat.is_done(stop));
    assert!(!EndpointKind::Completion.is_done(stop));
    for kind in [EndpointKind::Chat, EndpointKind::Completion, EndpointKind::LlamaCpp] {
        assert!(kind.is_done(b" [DONE]\n"));
    }
}

#[test]
fn the_last_native_event_is_still_heard() {
    let mut s = guarded(StreamingLoopAction::Heal, 1);
    s.kind = EndpointKind::LlamaCpp;
    let last = br#"{"content":"z","stop":true,"timings":{"predicted_per_second":7.5}}"#;
    assert!(s.kind.is_done(last));
    let t = s.feed_events(&vec![last.to_vec(), b"[DONE]".to_vec()]).unwrap();
    assert_eq!(t.decode, "7.5");
    assert_eq!(s.choices[0].state.said.len(), 1);
}

#[test]
fn a_known_field_that_is_told_twice_spoils_the_event() {
    assert!(extract_llama_cpp(br#"{"content":"a","content":"b"}"#).is_empty());
    assert!(extract_chat(br#"{"choices":[{"delta":{"content":"a","content":"b"}}]}"#).is_empty());
    assert!(extract_completion(br#"{"choices":[],"choices":[{"text":"a"}]}"#).is_empty());
    // A name may be written with escapes.
    assert!(extract_llama_cpp(br#"{"content":"a","c\u006fntent":"b"}"#).is_empty());
    // Other fields may be told as often as they like.
    let got = extract_llama_cpp(br#"{"x":1,"content":"a","x":2}"#);
    assert_eq!(got.len(), 1);
    assert_eq!(got[0].content, "a");
}

#[test]
fn fields_that_are_passed_over_need_not_be_text() {
    let got = extract_llama_cpp(b"{\"x\":\"\xff\",\"content\":\"a\"}");
    assert_eq!(got.len(), 1);
    let got = extract_completion(b"{\"choices\":[{\"why\":\"\xff\",\"text\":\"a\"}]}");
    assert_eq!(got.len(), 1);
    assert!(extract_llama_cpp(b"{\"content\":\"\xff\"}").is_empty());
    assert!(extract_llama_cpp(b"{\"\xff\":1,\"content\":\"a\"}").is_empty());
}

#[test]
fn fields_and_items_keep_their_order() {
    let f = read_fields(br#" { "b" : [1, {"x":2}] , "a":null,"b":-1.5e3 } "#).unwrap();
    let f: Vec<(&str, &[u8])> = f.iter().map(|(k, v)| (k.as_str(), v.as_slice())).collect();
    assert_eq!(f, [("b", &br#"[1, {"x":2}]"#[..]), ("a", b"null"), ("b", b"-1.5e3")]);
    assert_eq!(read_fields(b"{ }").unwrap().len(), 0);
    for bad in ["", "[]", "{", "{,}", r#"{"a":1,}"#, r#"{"a" 1}"#, r#"{a:1}"#, r#"{"a":1}x"#] {
        assert!(read_fields(bad.as_bytes()).is_none(), "{bad}");
    }
    let items = read_items(br#"[ "a" ,true,[ ]]"#).unwrap();
    assert_eq!(items, [&br#""a""#[..], b"true", b"[ ]"]);
    assert_eq!(read_items(b" [ ] ").unwrap().len(), 0);
    for bad in ["", "{}", "[", "[,]", "[1,]", "[1 2]", "[1]]", "[01]"] {
        assert!(read_items(bad.as_bytes()).is_none(), "{bad}");
    }
}

#[test]
fn numbers_in_a_request_are_written_as_they_were_read() {
    let on = StreamingLoopSettings::default();
    let mut x: u64 = 88172645463325252;
    for _ in 0..500 {
        x ^= x << 13;
        x ^= x >> 7;
        x ^= x << 17;
        let tail = x >> 11;
        let body = format!(
            "{{\"stream\":true,\"x\":[0.{tail},{tail},-{tail},{tail}.5e-7,1.{tail}e12,{x}000]}}"
        );
        let s = StreamSession::new("/v1/chat/completions", body.as_bytes(), &on).unwrap();
        let once: serde_json::Value = serde_json::from_str(&body).unwrap();
        assert_eq!(String::from_utf8(s.request_body()).unwrap(), once.to_string());
    }
}
