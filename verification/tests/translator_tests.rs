use fy::config::{ApiFormat, ProviderConfig};
use fy::json::{Json, Number};
use fy::translator::{
    absorb_stream_event, api_format_name, build_request_body, classify_stream_event, extract_output,
    extract_stream_delta, extract_stream_error, finish_translation, render_prompt, StreamEvent,
    TranslateError,
};

fn json_of(v: &serde_json::Value) -> Json {
    match v {
        serde_json::Value::Null => Json::Null,
        serde_json::Value::Bool(b) => Json::Bool(*b),
        serde_json::Value::Number(n) => {
            if let Some(u) = n.as_u64() {
                Json::Num(Number::PosInt(u))
            } else if let Some(i) = n.as_i64() {
                Json::Num(Number::NegInt(i))
            } else {
                Json::Num(Number::Float(n.as_f64().unwrap().to_bits()))
            }
        }
        serde_json::Value::String(s) => Json::Str(s.clone()),
        serde_json::Value::Array(a) => Json::Array(a.iter().map(json_of).collect()),
        serde_json::Value::Object(o) => {
            Json::Object(o.iter().map(|(k, v)| (k.clone(), json_of(v))).collect())
        }
    }
}

fn parse(text: &str) -> Json {
    json_of(&serde_json::from_str::<serde_json::Value>(text).unwrap())
}

fn provider(format: ApiFormat) -> ProviderConfig {
    ProviderConfig {
        name: "OpenAI".into(),
        api_key: "".into(),
        base_url: "https://api.openai.com/v1".into(),
        model: "gpt-4.1-mini".into(),
        api_format: format,
        stream: true,
        system_prompt: "Translate into {target_language}.".into(),
        user_prompt: "{text}".into(),
        temperature_bits: 0.2f32.to_bits(),
        max_output_tokens: 2048,
        request_timeout_seconds: 60,
        extra_params: Vec::new(),
    }
}

fn text_of(v: Option<&Json>) -> Option<String> {
    match v {
        Some(Json::Str(s)) => Some(s.clone()),
        _ => None,
    }
}

#[test]
fn renders_both_prompt_placeholders() {
    assert_eq!(
        render_prompt("Translate {text} to {target_language}", "hello", "zh-CN"),
        "Translate hello to zh-CN"
    );
}

#[test]
fn target_language_is_filled_in_before_text() {
    assert_eq!(
        render_prompt("{target_language}:{text}", "{target_language}", "{text}"),
        "{target_language}:{target_language}"
    );
    assert_eq!(render_prompt("{text}{text}", "ab", "en"), "abab");
    assert_eq!(render_prompt("plain", "ab", "en"), "plain");
}

#[test]
fn appends_arbitrary_parameters() {
    let mut provider = provider(ApiFormat::Responses);
    provider.extra_params = vec![
        ("seed".into(), Json::Num(Number::PosInt(42))),
        ("top_p".into(), Json::Num(Number::Float(0.8f64.to_bits()))),
    ];
    let body = build_request_body(&provider, "system", "user");
    assert_eq!(body.get("top_p"), Some(&Json::Num(Number::Float(0.8f64.to_bits()))));
    assert_eq!(body.get("seed"), Some(&Json::Num(Number::PosInt(42))));
    assert_eq!(body.get("stream"), Some(&Json::Bool(true)));
}

#[test]
fn request_bodies_follow_the_api_format() {
    let body = build_request_body(&provider(ApiFormat::Responses), "sys", "usr");
    assert_eq!(text_of(body.get("instructions")).as_deref(), Some("sys"));
    assert_eq!(text_of(body.get("input")).as_deref(), Some("usr"));
    assert_eq!(body.get("max_output_tokens"), Some(&Json::Num(Number::PosInt(2048))));
    assert_eq!(
        body.get("temperature"),
        Some(&Json::Num(Number::Float32(0.2f32.to_bits())))
    );

    let body = build_request_body(&provider(ApiFormat::ChatCompletions), "sys", "usr");
    let messages = body.get("messages").unwrap();
    let Json::Array(items) = messages else { panic!("messages is not an array") };
    assert_eq!(items.len(), 2);
    assert_eq!(text_of(items[0].get("role")).as_deref(), Some("system"));
    assert_eq!(text_of(items[1].get("content")).as_deref(), Some("usr"));
    assert_eq!(body.get("max_tokens"), Some(&Json::Num(Number::PosInt(2048))));

    let body = build_request_body(&provider(ApiFormat::Completions), "sys", "usr");
    assert_eq!(text_of(body.get("prompt")).as_deref(), Some("sys\n\nusr"));
    assert_eq!(text_of(body.get("model")).as_deref(), Some("gpt-4.1-mini"));
}

#[test]
fn extracts_all_supported_response_formats() {
    let responses = parse(
        r#"{"output": [{"content": [{"type": "output_text", "text": "one"}, {"type": "output_text", "text": "two"}]}]}"#,
    );
    let chat = parse(r#"{"choices": [{"message": {"content": "chat"}}]}"#);
    let completions = parse(r#"{"choices": [{"text": "completion"}]}"#);
    assert_eq!(
        extract_output(ApiFormat::Responses, &responses).as_deref(),
        Some("onetwo")
    );
    assert_eq!(
        extract_output(ApiFormat::ChatCompletions, &chat).as_deref(),
        Some("chat")
    );
    assert_eq!(
        extract_output(ApiFormat::Completions, &completions).as_deref(),
        Some("completion")
    );
}

#[test]
fn responses_output_text_wins_and_empty_outputs_give_nothing() {
    let both = parse(r#"{"output_text": "direct", "output": [{"content": [{"text": "x"}]}]}"#);
    assert_eq!(extract_output(ApiFormat::Responses, &both).as_deref(), Some("direct"));
    let none = parse(r#"{"output": [{"content": "no"}, {"other": 1}]}"#);
    assert_eq!(extract_output(ApiFormat::Responses, &none), None);
    let empty_text = parse(r#"{"output": [{"content": [{"text": ""}]}]}"#);
    assert_eq!(extract_output(ApiFormat::Responses, &empty_text).as_deref(), Some(""));
    let keyed = parse(r#"{"choices": {"0": {"text": "keyed"}}}"#);
    assert_eq!(extract_output(ApiFormat::Completions, &keyed).as_deref(), Some("keyed"));
    assert_eq!(extract_output(ApiFormat::ChatCompletions, &parse(r#"{"choices": []}"#)), None);
}

#[test]
fn extracts_all_supported_stream_deltas() {
    let responses = parse(r#"{"type": "response.output_text.delta", "delta": "one"}"#);
    let chat = parse(r#"{"choices": [{"delta": {"content": "two"}}]}"#);
    let completions = parse(r#"{"choices": [{"text": "three"}]}"#);
    assert_eq!(
        extract_stream_delta(ApiFormat::Responses, &responses).as_deref(),
        Some("one")
    );
    assert_eq!(
        extract_stream_delta(ApiFormat::ChatCompletions, &chat).as_deref(),
        Some("two")
    );
    assert_eq!(
        extract_stream_delta(ApiFormat::Completions, &completions).as_deref(),
        Some("three")
    );
    assert_eq!(
        extract_stream_delta(
            ApiFormat::Responses,
            &parse(r#"{"type": "response.reasoning_summary_text.delta", "delta": "hidden"}"#)
        ),
        None
    );
}

#[test]
fn extracts_stream_errors() {
    assert_eq!(
        extract_stream_error(&parse(r#"{"type": "error", "message": "failed"}"#)).as_deref(),
        Some("failed")
    );
    assert_eq!(
        extract_stream_error(&parse(
            r#"{"type": "response.failed", "response": {"error": {"message": "rejected"}}}"#
        ))
        .as_deref(),
        Some("rejected")
    );
}

#[test]
fn stream_error_forms() {
    assert_eq!(
        extract_stream_error(&parse(r#"{"error": "plain"}"#)).as_deref(),
        Some("plain")
    );
    assert_eq!(
        extract_stream_error(&parse(r#"{"error": {"message": "inner"}}"#)).as_deref(),
        Some("inner")
    );
    assert_eq!(
        extract_stream_error(&parse(r#"{"error": {"message": 3}, "type": "error", "message": "m"}"#))
            .as_deref(),
        Some("m")
    );
    assert_eq!(extract_stream_error(&parse(r#"{"type": "done"}"#)), None);
}

#[test]
fn stream_events_are_classified() {
    let failed = classify_stream_event(
        ApiFormat::ChatCompletions,
        &parse(r#"{"error": {"message": "bad"}, "choices": [{"delta": {"content": "x"}}]}"#),
    );
    assert!(matches!(failed, StreamEvent::Failed(ref m) if m == "bad"));
    let delta = classify_stream_event(
        ApiFormat::ChatCompletions,
        &parse(r#"{"choices": [{"delta": {"content": "x"}}]}"#),
    );
    assert!(matches!(delta, StreamEvent::Delta(ref t) if t == "x"));
    let nothing = classify_stream_event(ApiFormat::Completions, &parse(r#"{"choices": []}"#));
    assert!(matches!(nothing, StreamEvent::Nothing));
}

#[test]
fn blank_replies_are_no_translation() {
    assert_eq!(finish_translation(" \n".into()), Err(TranslateError::EmptyReply));
    assert_eq!(finish_translation("你好".into()), Ok("你好".to_string()));
}

#[test]
fn format_names() {
    assert_eq!(api_format_name(ApiFormat::Responses), "responses");
    assert_eq!(api_format_name(ApiFormat::ChatCompletions), "chat_completions");
    assert_eq!(api_format_name(ApiFormat::Completions), "completions");
}

#[test]
fn streamed_events_join_into_the_translation() {
    let mut translated = String::new();
    let one = parse(r#"{"choices": [{"delta": {"content": "你"}}]}"#);
    let two = parse(r#"{"choices": [{"delta": {"content": "好"}}]}"#);
    let empty = parse(r#"{"choices": []}"#);
    let failed = parse(r#"{"error": {"message": "boom"}, "choices": [{"delta": {"content": "x"}}]}"#);
    assert!(matches!(absorb_stream_event(ApiFormat::ChatCompletions, &mut translated, &one), StreamEvent::Delta(t) if t == "你"));
    assert!(matches!(absorb_stream_event(ApiFormat::ChatCompletions, &mut translated, &empty), StreamEvent::Nothing));
    assert!(matches!(absorb_stream_event(ApiFormat::ChatCompletions, &mut translated, &two), StreamEvent::Delta(t) if t == "好"));
    assert!(matches!(absorb_stream_event(ApiFormat::ChatCompletions, &mut translated, &failed), StreamEvent::Failed(m) if m == "boom"));
    assert_eq!(translated, "你好");
}
