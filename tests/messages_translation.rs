use lm_gateway::messages::{
    done_frame, frame, from_anthropic, map_stop_reason, to_anthropic, translate_sse_event,
    StreamTranslator, TranslateError, DEFAULT_MAX_TOKENS,
};
use lm_gateway::{Json, JsonNumber};

fn js(x: &str) -> Json {
    Json::Str(x.to_string())
}

fn jo(pairs: Vec<(&str, Json)>) -> Json {
    Json::Object(pairs.into_iter().map(|(k, v)| (k.to_string(), v)).collect())
}

fn ju(n: u64) -> Json {
    Json::Number(JsonNumber::Unsigned(n))
}

fn msg(role: &str, content: &str) -> Json {
    jo(vec![("role", js(role)), ("content", js(content))])
}

fn text_at<'a>(v: &'a Json, path: &[&str]) -> Option<&'a str> {
    let mut cur = v;
    for key in path {
        cur = cur.get(key)?;
    }
    cur.as_str()
}

fn first_choice(v: &Json) -> &Json {
    match v.get("choices") {
        Some(Json::Array(items)) => &items[0],
        other => panic!("no choices: {:?}", other),
    }
}

fn messages_of(v: &Json) -> &Vec<Json> {
    match v.get("messages") {
        Some(Json::Array(items)) => items,
        other => panic!("no messages: {:?}", other),
    }
}

#[test]
fn to_anthropic_extracts_system_message_to_top_level() {
    let req = jo(vec![
        ("model", js("haiku-4-5-20251001")),
        ("messages", Json::Array(vec![msg("system", "You are a helpful assistant."), msg("user", "Hello")])),
    ]);
    let out = to_anthropic(req).unwrap();
    assert_eq!(text_at(&out, &["system"]), Some("You are a helpful assistant."));
    let messages = messages_of(&out);
    assert_eq!(messages.len(), 1, "system message should be removed from messages array");
    assert_eq!(text_at(&messages[0], &["role"]), Some("user"));
}

#[test]
fn to_anthropic_concatenates_multiple_system_messages() {
    let req = jo(vec![
        ("model", js("haiku-4-5-20251001")),
        (
            "messages",
            Json::Array(vec![msg("system", "Part one."), msg("system", "Part two."), msg("user", "Hello")]),
        ),
    ]);
    let out = to_anthropic(req).unwrap();
    assert_eq!(text_at(&out, &["system"]), Some("Part one.\n\nPart two."));
}

#[test]
fn to_anthropic_defaults_max_tokens_when_absent() {
    let req = jo(vec![
        ("model", js("haiku-4-5-20251001")),
        ("messages", Json::Array(vec![msg("user", "Hi")])),
    ]);
    let out = to_anthropic(req).unwrap();
    assert_eq!(out.get("max_tokens").and_then(|v| v.as_u64()), Some(DEFAULT_MAX_TOKENS));
    assert_eq!(DEFAULT_MAX_TOKENS, 8192);
    assert!(out.get("system").is_none());
}

#[test]
fn to_anthropic_uses_caller_max_tokens() {
    let req = jo(vec![
        ("model", js("haiku-4-5-20251001")),
        ("max_tokens", ju(256)),
        ("messages", Json::Array(vec![msg("user", "Hi")])),
    ]);
    let out = to_anthropic(req).unwrap();
    assert_eq!(out.get("max_tokens").and_then(|v| v.as_u64()), Some(256));
}

#[test]
fn to_anthropic_forwards_temperature() {
    let req = jo(vec![
        ("model", js("haiku-4-5-20251001")),
        ("messages", Json::Array(vec![msg("user", "Hi")])),
        ("temperature", Json::Number(JsonNumber::Decimal("0.3".to_string()))),
    ]);
    let out = to_anthropic(req).unwrap();
    match out.get("temperature") {
        Some(Json::Number(JsonNumber::Decimal(t))) => {
            let value: f64 = t.parse().unwrap();
            assert!((value - 0.3).abs() < f64::EPSILON);
        }
        other => panic!("temperature not forwarded: {:?}", other),
    }
}

#[test]
fn to_anthropic_renames_stop() {
    let req = jo(vec![
        ("model", js("m")),
        ("messages", Json::Array(vec![])),
        ("stop", Json::Array(vec![js("END")])),
    ]);
    let out = to_anthropic(req).unwrap();
    assert!(out.get("stop").is_none());
    match out.get("stop_sequences") {
        Some(Json::Array(items)) => assert_eq!(items[0].as_str(), Some("END")),
        other => panic!("stop not renamed: {:?}", other),
    }
}

#[test]
fn to_anthropic_errors_without_model() {
    let req = jo(vec![("messages", Json::Array(vec![]))]);
    assert!(to_anthropic(req).is_err());
}

#[test]
fn to_anthropic_errors_without_messages() {
    let req = jo(vec![("model", js("haiku-4-5-20251001"))]);
    assert!(to_anthropic(req).is_err());
    let req = jo(vec![("model", js("m"))]);
    assert_eq!(to_anthropic(req).unwrap_err(), TranslateError::MissingMessages);
}

#[test]
fn messages_style_request_scenario() {
    let req = jo(vec![
        ("model", js("X")),
        ("max_tokens", ju(256)),
        ("messages", Json::Array(vec![msg("system", "A"), msg("system", "B"), msg("user", "Hi")])),
    ]);
    let out = to_anthropic(req).unwrap();
    assert_eq!(text_at(&out, &["system"]), Some("A\n\nB"));
    assert_eq!(out.get("max_tokens").and_then(|v| v.as_u64()), Some(256));
    let messages = messages_of(&out);
    assert_eq!(messages.len(), 1);
    assert_eq!(text_at(&messages[0], &["role"]), Some("user"));
    assert_eq!(text_at(&out, &["model"]), Some("X"));
}

#[test]
fn non_system_messages_keep_order_and_roles() {
    let req = jo(vec![
        ("model", js("X")),
        (
            "messages",
            Json::Array(vec![
                msg("user", "one"),
                msg("system", "S"),
                msg("assistant", "two"),
                msg("user", "three"),
            ]),
        ),
    ]);
    let out = to_anthropic(req).unwrap();
    let messages = messages_of(&out);
    let seen: Vec<(&str, &str)> = messages
        .iter()
        .map(|m| (text_at(m, &["role"]).unwrap(), text_at(m, &["content"]).unwrap()))
        .collect();
    assert_eq!(seen, vec![("user", "one"), ("assistant", "two"), ("user", "three")]);
    assert_eq!(text_at(&out, &["system"]), Some("S"));
}

fn response(id: &str, blocks: Vec<Json>, stop: &str, input: u64, output: u64) -> Json {
    jo(vec![
        ("id", js(id)),
        ("model", js("haiku-4-5-20251001")),
        ("content", Json::Array(blocks)),
        ("stop_reason", js(stop)),
        ("usage", jo(vec![("input_tokens", ju(input)), ("output_tokens", ju(output))])),
    ])
}

fn text_block(text: &str) -> Json {
    jo(vec![("type", js("text")), ("text", js(text))])
}

#[test]
fn from_anthropic_maps_end_turn_to_stop() {
    let out = from_anthropic(response("msg_123", vec![text_block("Hello!")], "end_turn", 10, 5)).unwrap();
    let choice = first_choice(&out);
    assert_eq!(text_at(choice, &["finish_reason"]), Some("stop"));
    assert_eq!(text_at(choice, &["message", "content"]), Some("Hello!"));
    let usage = out.get("usage").unwrap();
    assert_eq!(usage.get("prompt_tokens").and_then(|v| v.as_u64()), Some(10));
    assert_eq!(usage.get("completion_tokens").and_then(|v| v.as_u64()), Some(5));
    assert_eq!(usage.get("total_tokens").and_then(|v| v.as_u64()), Some(15));
}

#[test]
fn from_anthropic_maps_max_tokens_stop_reason_to_length() {
    let out = from_anthropic(response("msg_456", vec![text_block("…")], "max_tokens", 100, 1024)).unwrap();
    assert_eq!(text_at(first_choice(&out), &["finish_reason"]), Some("length"));
}

#[test]
fn from_anthropic_errors_when_no_text_block_present() {
    let block = jo(vec![
        ("type", js("tool_use")),
        ("id", js("toolu_1")),
        ("name", js("calculator")),
        ("input", jo(vec![])),
    ]);
    assert!(from_anthropic(response("msg_789", vec![block], "tool_use", 10, 5)).is_err());
}

#[test]
fn from_anthropic_preserves_message_id() {
    let out = from_anthropic(response("msg_abc", vec![text_block("Hi")], "end_turn", 1, 1)).unwrap();
    assert_eq!(text_at(&out, &["id"]), Some("msg_abc"));
}

#[test]
fn messages_style_response_scenario() {
    let resp = jo(vec![
        ("id", js("msg_1")),
        ("model", js("M")),
        ("content", Json::Array(vec![text_block("Hi")])),
        ("stop_reason", js("max_tokens")),
        ("usage", jo(vec![("input_tokens", ju(3)), ("output_tokens", ju(4))])),
    ]);
    let out = from_anthropic(resp).unwrap();
    assert_eq!(text_at(first_choice(&out), &["finish_reason"]), Some("length"));
    assert_eq!(out.get("usage").and_then(|u| u.get("total_tokens")).and_then(|v| v.as_u64()), Some(7));
    assert_eq!(text_at(&out, &["id"]), Some("msg_1"));
    assert_eq!(text_at(&out, &["model"]), Some("M"));
    assert_eq!(text_at(&out, &["object"]), Some("chat.completion"));
    assert_eq!(text_at(first_choice(&out), &["message", "role"]), Some("assistant"));
}

#[test]
fn stop_reasons_map_to_canonical_names() {
    assert_eq!(map_stop_reason("end_turn"), "stop");
    assert_eq!(map_stop_reason("max_tokens"), "length");
    assert_eq!(map_stop_reason("tool_use"), "tool_use");
}

fn chunk_delta(chunk: &Json) -> &Json {
    first_choice(chunk).get("delta").unwrap()
}

#[test]
fn translate_message_start_sets_role_and_captures_model() {
    let mut model = String::from("unknown");
    let data = jo(vec![("type", js("message_start")), ("message", jo(vec![("model", js("sonnet-3-5-20241022"))]))]);
    let out = translate_sse_event("message_start", Some(data), "id-1", &mut model).unwrap();
    assert_eq!(model, "sonnet-3-5-20241022");
    assert_eq!(text_at(chunk_delta(&out), &["role"]), Some("assistant"));
    assert_eq!(text_at(chunk_delta(&out), &["content"]), Some(""));
    assert_eq!(text_at(&out, &["id"]), Some("id-1"));
    assert_eq!(text_at(&out, &["object"]), Some("chat.completion.chunk"));
}

#[test]
fn translate_content_block_delta_emits_text() {
    let mut model = String::from("haiku-3-5");
    let data = jo(vec![
        ("type", js("content_block_delta")),
        ("index", ju(0)),
        ("delta", jo(vec![("type", js("text_delta")), ("text", js("Hello!"))])),
    ]);
    let out = translate_sse_event("content_block_delta", Some(data), "id-2", &mut model).unwrap();
    assert_eq!(text_at(chunk_delta(&out), &["content"]), Some("Hello!"));
    assert_eq!(text_at(&out, &["model"]), Some("haiku-3-5"));
}

#[test]
fn translate_message_delta_maps_stop_reasons() {
    for (anthropic, openai) in [("end_turn", "stop"), ("max_tokens", "length")] {
        let mut model = String::from("m");
        let data = jo(vec![("type", js("message_delta")), ("delta", jo(vec![("stop_reason", js(anthropic))]))]);
        let out = translate_sse_event("message_delta", Some(data), "id-3", &mut model).unwrap();
        assert_eq!(text_at(first_choice(&out), &["finish_reason"]), Some(openai));
    }
}

#[test]
fn translate_skips_ping_and_housekeeping_events() {
    let mut model = String::new();
    for event in ["ping", "content_block_start", "content_block_stop", "message_stop"] {
        assert!(
            translate_sse_event(event, Some(jo(vec![])), "id", &mut model).is_none(),
            "{event} should be skipped"
        );
    }
}

#[test]
fn stream_translation_scenario() {
    let mut tr = StreamTranslator::new("chatcmpl-1".to_string());
    let upstream = "event: message_start\n\
data: {\"message\":{\"model\":\"M\"}}\n\
\n\
event: content_block_delta\n\
data: {\"delta\":{\"text\":\"Hi\"}}\n\
\n\
event: message_delta\n\
data: {\"delta\":{\"stop_reason\":\"end_turn\"}}\n\
\n";
    let bytes = upstream.as_bytes();
    let mut items = tr.feed(&bytes[..10]);
    items.extend(tr.feed(&bytes[10..]));
    assert_eq!(items.len(), 3);
    assert_eq!(items[0].event, "message_start");
    assert_eq!(items[1].event, "content_block_delta");
    assert_eq!(items[2].event, "message_delta");
    assert_eq!(items[1].payload, b"{\"delta\":{\"text\":\"Hi\"}}".to_vec());

    let parsed = [
        jo(vec![("message", jo(vec![("model", js("M"))]))]),
        jo(vec![("delta", jo(vec![("text", js("Hi"))]))]),
        jo(vec![("delta", jo(vec![("stop_reason", js("end_turn"))]))]),
    ];
    let mut frames = Vec::new();
    for (item, data) in items.iter().zip(parsed) {
        frames.push(tr.translate(item, Some(data)).unwrap());
    }
    assert_eq!(frames.len(), 3);
    assert_eq!(text_at(chunk_delta(&frames[0]), &["role"]), Some("assistant"));
    assert_eq!(text_at(chunk_delta(&frames[1]), &["content"]), Some("Hi"));
    assert_eq!(text_at(first_choice(&frames[2]), &["finish_reason"]), Some("stop"));
    for f in &frames {
        assert_eq!(text_at(f, &["model"]), Some("M"));
        assert_eq!(text_at(f, &["id"]), Some("chatcmpl-1"));
    }
    assert_eq!(tr.model(), "M");
    assert_eq!(done_frame(), "data: [DONE]\n\n");
}

#[test]
fn partial_line_is_kept_until_complete() {
    let mut tr = StreamTranslator::new("x".to_string());
    assert!(tr.feed(b"event: ping\r\ndata: {}").is_empty());
    let items = tr.feed(b"\r\n\r\n");
    assert_eq!(items.len(), 1);
    assert_eq!(items[0].event, "ping");
    assert_eq!(items[0].payload, b"{}".to_vec());
    assert!(tr.translate(&items[0], Some(jo(vec![]))).is_none());
    assert_eq!(tr.model(), "unknown");
}

#[test]
fn blank_line_clears_the_event() {
    let mut tr = StreamTranslator::new("x".to_string());
    let items = tr.feed(b"event: message_start\n\ndata: {}\n");
    assert_eq!(items.len(), 1);
    assert_eq!(items[0].event, "");
}

#[test]
fn frames_wrap_payloads() {
    assert_eq!(frame("{\"a\":1}"), "data: {\"a\":1}\n\n");
}

#[test]
fn chunk_boundaries_do_not_change_items() {
    let upstream: &[u8] = b"event: message_start\r\ndata: {\"a\":1}\r\n\r\nevent: content_block_delta\ndata: {\"b\":2}\n\n";
    let mut whole = StreamTranslator::new("w".to_string());
    let expected: Vec<(String, Vec<u8>)> =
        whole.feed(upstream).into_iter().map(|d| (d.event, d.payload)).collect();
    assert_eq!(expected.len(), 2);
    for cut in 0..=upstream.len() {
        let mut split = StreamTranslator::new("s".to_string());
        let mut got: Vec<(String, Vec<u8>)> =
            split.feed(&upstream[..cut]).into_iter().map(|d| (d.event, d.payload)).collect();
        got.extend(split.feed(&upstream[cut..]).into_iter().map(|d| (d.event, d.payload)));
        assert_eq!(got, expected, "split at {cut}");
    }
}
