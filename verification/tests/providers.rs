//! The providers: what is sent to them, and how their answers are read.
use simpleclaw::config::{
    GeminiProviderConfig, MoonshotProviderConfig, OpenAiCodexProviderConfig, ProviderAuthMode,
    ProviderEntryConfig, ProviderKind, ProvidersConfig,
};
use simpleclaw::error::FrameworkError;
use simpleclaw::json::Json;
use simpleclaw::providers::gemini;
use simpleclaw::providers::gemini::{GeminiProvider, GeminiStreamAccumulator};
use simpleclaw::providers::moonshot_compatible;
use simpleclaw::providers::moonshot_compatible::MoonshotCompatibleProvider;
use simpleclaw::providers::openai_codex;
use simpleclaw::providers::openai_codex::{CodexStreamAccumulator, OpenAiCodexProvider};
use simpleclaw::providers::registry::{AnyProvider, ProviderFactory, ProviderRegistry};
use simpleclaw::providers::stream;
use simpleclaw::providers::stream::{CollectStep, StreamCollector};
use simpleclaw::providers::types::{
    provider_response_to_stream, Message, ProviderResponse, Role, StreamEvent, ToolCall,
    ToolDefinition, ToolResult,
};
use simpleclaw::secrets::{Secret, SecretResolver};

fn json(source: &str) -> Json {
    Json::parse(source).expect("test document should parse")
}

fn child<'a>(value: &'a Json, key: &str) -> &'a Json {
    value.get(key).expect("member should exist")
}

fn item(value: &Json, index: usize) -> &Json {
    &value.as_array().expect("value should be an array")[index]
}

fn text_of<'a>(value: &'a Json, key: &str) -> &'a str {
    value.text_at(key).expect("member should be a text")
}

fn clock_call() -> ToolCall {
    ToolCall {
        id: Some("call-1".to_owned()),
        name: "clock".to_owned(),
        args_json: r#"{"timezone":"UTC"}"#.to_owned(),
    }
}

#[test]
fn encodes_assistant_function_call_part() {
    let history = vec![Message::assistant_tool_calls(vec![ToolCall {
        id: Some("call-1".to_owned()),
        name: "memorize".to_owned(),
        args_json: r#"{"fact":"x"}"#.to_owned(),
    }])];
    let contents = gemini::build_gemini_contents(&history);
    assert_eq!(contents.len(), 1);
    assert_eq!(text_of(&contents[0], "role"), "model");
    let call = child(item(child(&contents[0], "parts"), 0), "functionCall");
    assert_eq!(text_of(call, "name"), "memorize");
    assert_eq!(text_of(call, "id"), "call-1");
    assert_eq!(child(call, "args").render(), json(r#"{"fact":"x"}"#).render());
}

#[test]
fn encodes_tool_function_response_part() {
    let history = vec![Message::tool_results(vec![ToolResult {
        call_id: Some("call-1".to_owned()),
        name: "memorize".to_owned(),
        response: json(r#"{"status":"ok","content":"memorized"}"#),
    }])];
    let contents = gemini::build_gemini_contents(&history);
    assert_eq!(contents.len(), 1);
    assert_eq!(text_of(&contents[0], "role"), "user");
    let response = child(item(child(&contents[0], "parts"), 0), "functionResponse");
    assert_eq!(text_of(response, "name"), "memorize");
    assert_eq!(text_of(response, "id"), "call-1");
    assert_eq!(
        child(response, "response").render(),
        json(r#"{"status":"ok","content":"memorized"}"#).render()
    );
}

#[test]
fn preserves_plain_text_messages() {
    let history = vec![Message::text(Role::User, "hello")];
    let contents = gemini::build_gemini_contents(&history);
    assert_eq!(contents.len(), 1);
    assert_eq!(text_of(&contents[0], "role"), "user");
    assert_eq!(text_of(item(child(&contents[0], "parts"), 0), "text"), "hello");
}

#[test]
fn summarizes_json_error_body() {
    let body = r#"{"error":{"code":400,"message":"Request contains an invalid argument.","status":"INVALID_ARGUMENT"}}"#;

    assert_eq!(
        gemini::summarize_gemini_error_body(body),
        "INVALID_ARGUMENT: Request contains an invalid argument."
    );
}

#[test]
fn summarizes_plain_text_error_body() {
    assert_eq!(
        gemini::summarize_gemini_error_body("bad request"),
        "bad request".to_owned()
    );
}

#[test]
fn preview_text_truncates_by_character_count() {
    assert_eq!(gemini::preview_text("abcdef", 4), "abcd");
}

#[test]
fn parses_provider_response_text_and_tool_calls() {
    let response = gemini::parse_provider_response(&json(
        r#"{"candidates": [{"content": {"parts": [
            { "text": "hello" },
            { "functionCall": { "name": "clock", "id": "call-1", "args": { "timezone": "UTC" } } }
        ]}}]}"#,
    ));

    assert_eq!(
        response,
        ProviderResponse {
            output_text: Some("hello".to_owned()),
            tool_calls: vec![clock_call()],
        }
    );
}

#[test]
fn stream_accumulator_handles_split_frames_and_buffers_tool_calls_until_finish() {
    let mut accumulator = GeminiStreamAccumulator::default();
    let mut events = Vec::new();
    accumulator
        .push_bytes(
            b"data: {\"candidates\":[{\"content\":{\"parts\":[{\"text\":\"hel\"}]}}]}\n\ndata: {\"candidates\":[{\"content\":{\"parts\":[{\"text\":\"lo\"},{\"functionCall\":{\"name\":\"clock\",\"id\":\"call-1\",\"args\":{\"timezone\":\"UTC\"}}}]}}]}",
            &mut events,
        )
        .expect("first chunk should parse");
    accumulator
        .push_bytes(b"\n\n", &mut events)
        .expect("second chunk should parse");
    accumulator
        .finish(&mut events)
        .expect("finish should flush remaining events");

    assert_eq!(
        events,
        vec![
            StreamEvent::TextDelta("hel".to_owned()),
            StreamEvent::TextDelta("lo".to_owned()),
            StreamEvent::ToolCallDelta {
                name: "clock".to_owned(),
            },
            StreamEvent::ToolCallComplete(clock_call()),
            StreamEvent::Done,
        ]
    );
}

#[test]
fn stream_accumulator_preserves_duplicate_idless_tool_calls() {
    let mut accumulator = GeminiStreamAccumulator::default();
    let mut events = Vec::new();
    accumulator
        .push_bytes(
            br#"data: {"candidates":[{"content":{"parts":[{"functionCall":{"name":"clock","args":{"timezone":"UTC"}}}]}}]}

data: {"candidates":[{"content":{"parts":[{"functionCall":{"name":"clock","args":{"timezone":"UTC"}}}]}}]}

"#,
            &mut events,
        )
        .expect("stream frames should parse");
    accumulator
        .finish(&mut events)
        .expect("finish should flush remaining events");

    let idless = || {
        StreamEvent::ToolCallComplete(ToolCall {
            id: None,
            name: "clock".to_owned(),
            args_json: r#"{"timezone":"UTC"}"#.to_owned(),
        })
    };
    assert_eq!(
        events,
        vec![
            StreamEvent::ToolCallDelta {
                name: "clock".to_owned(),
            },
            StreamEvent::ToolCallDelta {
                name: "clock".to_owned(),
            },
            idless(),
            idless(),
            StreamEvent::Done,
        ]
    );
}

#[test]
fn stream_accumulator_reports_invalid_json() {
    let mut accumulator = GeminiStreamAccumulator::default();
    let mut events = Vec::new();
    let err = accumulator.push_bytes(b"data: not-json\n\n", &mut events);

    assert!(err.is_err());
}

#[test]
fn gemini_stream_reads_the_same_however_it_is_cut() {
    let whole = "data: {\"candidates\":[{\"content\":{\"parts\":[{\"text\":\"h\u{e9}llo\"}]}}]}\r\n\r\ndata: [DONE]\n\n";
    let mut one = GeminiStreamAccumulator::default();
    let mut together = Vec::new();
    one.push_text(whole, &mut together).expect("whole stream should parse");
    one.finish(&mut together).expect("finish should succeed");
    let mut other = GeminiStreamAccumulator::default();
    let mut apart = Vec::new();
    for c in whole.chars() {
        let piece = c.to_string();
        other.push_text(&piece, &mut apart).expect("piece should parse");
    }
    other.finish(&mut apart).expect("finish should succeed");
    assert_eq!(together, apart);
    assert_eq!(together[0], StreamEvent::TextDelta("h\u{e9}llo".to_owned()));
}

#[test]
fn gemini_settings_make_endpoints_and_keys() {
    let mut secret = Secret::<String>::from_name("gemini_key");
    let resolver = SecretResolver::from_entries(
        vec![("gemini_key".to_owned(), "k-1".to_owned())],
        "/secrets.yaml",
    );
    secret
        .resolve(&resolver, None, "providers.gemini.api_key")
        .expect("secret should resolve");
    let provider = GeminiProvider::from_config(GeminiProviderConfig {
        api_base: "https://example.test/v1".to_owned(),
        model: "gem".to_owned(),
        api_key: Some(secret),
    });
    assert_eq!(provider.api_key().expect("key should be there"), "k-1");
    assert!(provider.endpoint().contains("https://example.test/v1"));
    assert!(provider.endpoint().contains("gem"));
    assert_ne!(provider.endpoint(), provider.stream_endpoint());
    let bare = GeminiProvider::from_config(GeminiProviderConfig {
        api_base: "https://example.test/v1".to_owned(),
        model: "gem".to_owned(),
        api_key: None,
    });
    assert!(bare.api_key().is_err());
}

#[test]
fn gemini_request_declares_tools() {
    let tools = vec![ToolDefinition {
        name: "clock".to_owned(),
        description: "Current timestamp".to_owned(),
        input_schema_json: r#"{"type":"object"}"#.to_owned(),
    }];
    let body = gemini::build_request_body("sys", &[Message::text(Role::User, "hi")], &tools);
    let rendered = body.render();
    assert!(rendered.contains("\"clock\""));
    assert!(rendered.contains("\"sys\""));
    assert!(rendered.contains("\"hi\""));
}

#[test]
fn encodes_assistant_tool_calls() {
    let history = vec![Message::assistant_tool_calls(vec![clock_call()])];

    let messages = moonshot_compatible::build_messages("sys", &history);
    assert_eq!(messages.len(), 2);
    assert_eq!(text_of(&messages[1], "role"), "assistant");
    let call = item(child(&messages[1], "tool_calls"), 0);
    assert_eq!(text_of(call, "type"), "function");
    assert_eq!(text_of(child(call, "function"), "name"), "clock");
}

#[test]
fn encodes_tool_results() {
    let history = vec![Message::tool_results(vec![ToolResult {
        call_id: Some("call-1".to_owned()),
        name: "clock".to_owned(),
        response: json(r#"{"status":"ok","content":"2026-01-01T00:00:00Z"}"#),
    }])];

    let messages = moonshot_compatible::build_messages("", &history);
    assert_eq!(messages.len(), 1);
    assert_eq!(text_of(&messages[0], "role"), "tool");
    assert_eq!(text_of(&messages[0], "tool_call_id"), "call-1");
}

#[test]
fn preserves_text_messages() {
    let history = vec![Message::text(Role::User, "hello")];
    let messages = moonshot_compatible::build_messages("", &history);
    assert_eq!(messages.len(), 1);
    assert_eq!(text_of(&messages[0], "role"), "user");
    assert_eq!(text_of(&messages[0], "content"), "hello");
}

#[test]
fn moonshot_reads_its_answers() {
    let response = moonshot_compatible::parse_provider_response(&json(
        r#"{"choices":[{"message":{"content":"hi there","tool_calls":[
            {"id":"call-1","type":"function","function":{"name":"clock","arguments":"{\"timezone\":\"UTC\"}"}}
        ]}}]}"#,
    ));
    assert_eq!(response.output_text.as_deref(), Some("hi there"));
    assert_eq!(response.tool_calls, vec![clock_call()]);
    let none = moonshot_compatible::parse_provider_response(&json("{}"));
    assert_eq!(none.output_text, None);
    assert!(none.tool_calls.is_empty());
}

#[test]
fn moonshot_wants_a_key() {
    let config = |api_key: Option<String>| MoonshotProviderConfig {
        mode: ProviderAuthMode::ApiKey,
        api_base: "https://moon.test/v1/".to_owned(),
        model: "kimi".to_owned(),
        api_key,
    };
    let provider =
        MoonshotCompatibleProvider::from_moonshot_config("default", config(Some("key".to_owned())))
            .expect("provider with a key should be made");
    assert!(provider.endpoint().starts_with("https://moon.test/v1"));
    assert_eq!(provider.bearer_token(), "key");
    let body = provider.request_body("sys", &[Message::text(Role::User, "hi")], &[]);
    assert_eq!(text_of(&body, "model"), "kimi");
    assert!(MoonshotCompatibleProvider::from_moonshot_config("default", config(None)).is_err());
    assert!(provider.request_failed("down").message().contains("down"));
    assert!(provider.returned_error("bad").message().contains("bad"));
    assert!(provider.invalid_response("odd").message().contains("odd"));
}

#[test]
fn build_input_encodes_native_tool_roundtrip() {
    let history = vec![
        Message::assistant_tool_calls(vec![clock_call()]),
        Message::tool_results(vec![ToolResult {
            call_id: Some("call-1".to_owned()),
            name: "clock".to_owned(),
            response: json(r#"{"status":"ok","content":"2026-01-01T00:00:00Z"}"#),
        }]),
    ];

    let input = openai_codex::build_input(&history);
    assert_eq!(input.len(), 2);
    assert_eq!(text_of(&input[0], "type"), "function_call");
    assert_eq!(text_of(&input[1], "type"), "function_call_output");
    assert!(child(&input[1], "output").is_string());
}

#[test]
fn build_input_sanitizes_names_ids_and_arguments() {
    let history = vec![
        Message::assistant_tool_calls(vec![ToolCall {
            id: Some(" call id / 1 ".to_owned()),
            name: "clock/time".to_owned(),
            args_json: "not json".to_owned(),
        }]),
        Message::tool_results(vec![ToolResult {
            call_id: Some(" call id / 1 ".to_owned()),
            name: "clock/time".to_owned(),
            response: json(r#"{"ok":true}"#),
        }]),
    ];

    let input = openai_codex::build_input(&history);
    assert_eq!(text_of(&input[0], "name"), "clock_time");
    assert_eq!(text_of(&input[0], "call_id"), "call_id___1");
    assert_eq!(text_of(&input[0], "arguments"), "{}");
    assert_eq!(text_of(&input[1], "call_id"), "call_id___1");
    assert!(child(&input[1], "output").is_string());
}

#[test]
fn normalize_tool_result_output_preserves_array_of_objects() {
    let value = json(r#"[{"type":"text","text":"ok"}]"#);
    let normalized = openai_codex::normalize_tool_result_output(&value);
    assert!(normalized.as_array().is_some());
    assert_eq!(text_of(item(&normalized, 0), "type"), "text");
}

#[test]
fn parse_provider_response_extracts_tool_calls() {
    let response = json(
        r#"{"output": [{"type": "function_call", "call_id": "call-1", "name": "memory", "arguments": "{\"query\":\"ping\"}"}]}"#,
    );

    let parsed = openai_codex::parse_provider_response(&response);
    assert_eq!(parsed.tool_calls.len(), 1);
    assert_eq!(parsed.tool_calls[0].name, "memory");
    assert_eq!(parsed.tool_calls[0].id.as_deref(), Some("call-1"));
}

#[test]
fn parse_provider_response_extracts_output_text() {
    let response = json(
        r#"{"output": [{"type": "message", "content": [{"type":"output_text","text":"hello"}]}]}"#,
    );

    let parsed = openai_codex::parse_provider_response(&response);
    assert_eq!(parsed.output_text.as_deref(), Some("hello"));
}

#[test]
fn parse_sse_provider_response_reads_delta_and_tool_call() {
    let payload = r#"data: {"type":"response.output_text.delta","delta":"Hello"}

data: {"type":"response.output_item.done","item":{"type":"function_call","call_id":"call_1","name":"clock","arguments":"{\"timezone\":\"UTC\"}"}}
data: {"type":"response.done","response":{"output_text":"Hello","output":[{"type":"function_call","call_id":"call_1","name":"clock","arguments":"{\"timezone\":\"UTC\"}"}]}}
data: [DONE]
"#;

    let parsed = openai_codex::parse_sse_provider_response(payload).expect("sse should parse");
    assert_eq!(parsed.output_text.as_deref(), Some("Hello"));
    assert_eq!(parsed.tool_calls.len(), 1);
    assert_eq!(parsed.tool_calls[0].name, "clock");
}

#[test]
fn build_tools_coerces_non_object_schema() {
    let tools = vec![ToolDefinition {
        name: "clock".to_owned(),
        description: "clock".to_owned(),
        input_schema_json: "null".to_owned(),
    }];

    let built = openai_codex::build_tools(&tools);
    assert_eq!(text_of(child(&built[0], "parameters"), "type"), "object");
}

#[test]
fn build_tools_drops_invalid_tool_name() {
    let tools = vec![ToolDefinition {
        name: "!!!".to_owned(),
        description: "bad".to_owned(),
        input_schema_json: "{}".to_owned(),
    }];
    let built = openai_codex::build_tools(&tools);
    assert!(built.is_empty());
}

#[test]
fn build_tools_coerces_required_to_string_array() {
    let tools = vec![ToolDefinition {
        name: "clock".to_owned(),
        description: "clock".to_owned(),
        input_schema_json: r#"{
                "type":"object",
                "properties":{"timezone":{"type":"string"}},
                "required":["timezone", 1, null]
            }"#
        .to_owned(),
    }];

    let built = openai_codex::build_tools(&tools);
    assert_eq!(
        child(child(&built[0], "parameters"), "required").render(),
        r#"["timezone"]"#
    );
}

#[test]
fn parse_sse_provider_response_tolerates_empty_stream() {
    let parsed = openai_codex::parse_sse_provider_response("event: ping\n\n")
        .expect("empty stream is tolerated");
    assert!(parsed.output_text.is_none());
    assert!(parsed.tool_calls.is_empty());
}

#[test]
fn parse_sse_provider_response_dedupes_tool_calls_by_id() {
    let payload = r#"data: {"type":"response.output_item.added","item":{"type":"function_call","call_id":"call_1","name":"clock","arguments":"{\"timezone\":\"UTC\"}"}}
data: {"type":"response.done","response":{"output":[{"type":"function_call","call_id":"call_1","name":"clock","arguments":"{\"timezone\":\"America/Chicago\"}"}]}}
data: [DONE]
"#;

    let parsed = openai_codex::parse_sse_provider_response(payload).expect("sse should parse");
    assert_eq!(parsed.tool_calls.len(), 1);
    assert_eq!(parsed.tool_calls[0].id.as_deref(), Some("call_1"));
    assert_eq!(
        parsed.tool_calls[0].args_json,
        r#"{"timezone":"America/Chicago"}"#
    );
}

#[test]
fn parse_sse_provider_response_uses_output_text_done_without_delta() {
    let payload = r#"data: {"type":"response.output_text.done","text":"Hello from done"}
data: [DONE]
"#;
    let parsed = openai_codex::parse_sse_provider_response(payload).expect("sse should parse");
    assert_eq!(parsed.output_text.as_deref(), Some("Hello from done"));
}

#[test]
fn build_request_body_includes_tools_without_variant_downgrade() {
    let input = vec![json(
        r#"{"type":"message","role":"user","content":[{"type":"input_text","text":"hi"}]}"#,
    )];
    let tools = vec![json(
        r#"{"type":"function","name":"clock","parameters":{"type":"object","properties":{}}}"#,
    )];

    let body = openai_codex::build_request_body("model-a", "inst", input, tools, true);
    assert!(body.get("tools").is_some());
    assert_eq!(child(&body, "parallel_tool_calls").as_bool(), Some(true));
    assert_eq!(child(&body, "stream").as_bool(), Some(true));
    assert_eq!(child(&body, "store").as_bool(), Some(false));
    assert_eq!(text_of(child(&body, "text"), "verbosity"), "medium");
    assert_eq!(text_of(child(&body, "reasoning"), "effort"), "high");
}

#[test]
fn codex_stream_reads_the_same_however_it_is_cut() {
    let whole = "data: {\"type\":\"response.output_text.delta\",\"delta\":\"H\u{e9}\"}\n\ndata: [DONE]\n";
    let mut one = CodexStreamAccumulator::default();
    let mut together = Vec::new();
    one.push_bytes(whole.as_bytes(), &mut together).expect("whole stream should parse");
    one.finish(&mut together).expect("finish should succeed");
    let mut other = CodexStreamAccumulator::default();
    let mut apart = Vec::new();
    for c in whole.chars() {
        let piece = c.to_string();
        other.push_text(&piece, &mut apart).expect("piece should parse");
    }
    other.finish(&mut apart).expect("finish should succeed");
    assert_eq!(together, apart);
    assert_eq!(together[0], StreamEvent::TextDelta("H\u{e9}".to_owned()));
}

#[test]
fn codex_stream_errors_are_told() {
    let mut accumulator = CodexStreamAccumulator::default();
    let mut events = Vec::new();
    let result = accumulator.push_bytes(
        b"data: {\"type\":\"response.failed\",\"response\":{\"error\":{\"message\":\"quota\"}}}\n\n",
        &mut events,
    );
    let told = match result {
        Err(error) => error.message(),
        Ok(()) => format!("{events:?}"),
    };
    assert!(told.contains("quota"));
}

#[test]
fn codex_bodies_are_decoded_or_refused() {
    let parsed = openai_codex::decode_responses_body(Ok(
        r#"{"output":[{"type":"message","content":[{"type":"output_text","text":"hello"}]}]}"#
            .to_owned(),
    ))
    .expect("document should decode");
    assert_eq!(parsed.output_text.as_deref(), Some("hello"));
    assert!(openai_codex::decode_responses_body(Err("cut off".to_owned())).is_err());
    assert!(openai_codex::decode_responses_body(Ok("neither".to_owned())).is_err());
    assert!(openai_codex::refused("429", r#"{"error":{"message":"slow down"}}"#)
        .message()
        .contains("slow down"));
    assert_eq!(
        openai_codex::summarize_openai_codex_error(r#"{"error":{"message":"slow down"}}"#),
        "slow down"
    );
}

#[test]
fn codex_requests_carry_the_token() {
    let context = openai_codex::build_request_context(
        Ok(Some("tok".to_owned())),
        Ok(Some("acct".to_owned())),
        None,
        "",
        &[Message::text(Role::User, "hi")],
        &[],
    )
    .expect("context should be built");
    assert_eq!(context.access_token, "tok");
    assert_eq!(context.account_id.as_deref(), Some("acct"));
    assert_eq!(context.instructions, openai_codex::DEFAULT_CODEX_INSTRUCTIONS);
    let headers = openai_codex::request_headers("tok", Some("acct"), false);
    assert!(headers.iter().any(|(_, value)| value == "Bearer tok"));
    assert!(headers.iter().any(|(_, value)| value == "acct"));
    let provider = OpenAiCodexProvider::from_config(OpenAiCodexProviderConfig {
        model: "m-1".to_owned(),
    });
    let body = provider.request_body(context, false);
    assert_eq!(text_of(&body, "model"), "m-1");
    assert!(openai_codex::build_request_context(Ok(None), Ok(None), None, "", &[], &[]).is_err());
}

#[test]
fn codex_identifiers_are_cut_and_cleaned() {
    assert_eq!(openai_codex::sanitize_identifier("a b", "x"), "a_b");
    assert_eq!(openai_codex::sanitize_identifier("   ", "fallback"), "fallback");
    let long = "a".repeat(80);
    assert_eq!(openai_codex::sanitize_identifier(&long, "x").len(), 64);
    assert_eq!(openai_codex::normalize_tool_arguments("{\"a\":1}"), "{\"a\":1}");
    assert_eq!(openai_codex::normalize_tool_arguments("[1]"), "{}");
}

#[test]
fn provider_response_to_stream_emits_text_tool_calls_and_done() {
    let response = ProviderResponse {
        output_text: Some("hello".to_owned()),
        tool_calls: vec![clock_call()],
    };

    let events: Vec<StreamEvent> = provider_response_to_stream(response);

    assert_eq!(
        events,
        vec![
            StreamEvent::TextDelta("hello".to_owned()),
            StreamEvent::ToolCallComplete(clock_call()),
            StreamEvent::Done,
        ]
    );
}

#[test]
fn generate_provider_response_streams_accumulated_text_and_tool_calls() {
    let stream_events = vec![
        StreamEvent::TextDelta("hel".to_owned()),
        StreamEvent::TextDelta("lo".to_owned()),
        StreamEvent::ToolCallComplete(clock_call()),
        StreamEvent::Done,
    ];
    let mut collector = StreamCollector::new();
    let mut observed = Vec::new();
    for event in stream_events {
        match collector.push(event) {
            CollectStep::Text(text) => observed.push(text),
            CollectStep::ToolStatus(_) => {}
            CollectStep::Finished => break,
            CollectStep::Failed(error) => panic!("stream should not fail: {}", error.message()),
        }
    }
    let response = collector.into_response();

    assert_eq!(response.output_text.as_deref(), Some("hello"));
    assert_eq!(response.tool_calls.len(), 1);
    assert_eq!(observed, vec!["hel".to_owned(), "lo".to_owned()]);
}

#[test]
fn generate_provider_response_returns_stream_errors() {
    let err = stream::response_from_events(vec![StreamEvent::Error("boom".to_owned())])
        .expect_err("streaming response should fail");

    assert!(matches!(err, FrameworkError::Provider(message) if message == "boom"));
}

#[test]
fn streaming_an_answer_keeps_it() {
    let response = ProviderResponse {
        output_text: Some("hello".to_owned()),
        tool_calls: vec![clock_call()],
    };
    let back = stream::response_from_events(provider_response_to_stream(ProviderResponse {
        output_text: Some("hello".to_owned()),
        tool_calls: vec![clock_call()],
    }))
    .expect("stream should be read back");
    assert_eq!(back, response);
}

#[test]
fn registry_makes_each_kind_of_provider() {
    let registry = ProviderRegistry::new();
    for kind in [ProviderKind::Gemini, ProviderKind::Moonshot, ProviderKind::OpenAiCodex] {
        let metadata = registry.metadata_for_kind(kind).expect("kind should be registered");
        assert!(metadata.supports_native_tools);
        assert_eq!(metadata.kind, kind);
    }
    assert_eq!(ProviderKind::OpenAiCodex.as_str(), "openai_codex");
    let made = registry
        .create_provider(
            "codex",
            &ProviderEntryConfig::OpenAiCodex(OpenAiCodexProviderConfig {
                model: "m".to_owned(),
            }),
        )
        .expect("provider should be made");
    assert!(matches!(made, AnyProvider::OpenAiCodex(_)));
}

#[test]
fn factory_finds_providers_by_key() {
    let config = ProvidersConfig {
        entries: vec![(
            "codex".to_owned(),
            ProviderEntryConfig::OpenAiCodex(OpenAiCodexProviderConfig {
                model: "m".to_owned(),
            }),
        )],
    };
    let factory = ProviderFactory::from_config(&config).expect("factory should be made");
    assert!(factory.get("codex").is_ok());
    assert!(factory.supports_native_tools("codex"));
    assert!(!factory.supports_native_tools("other"));
    let err = factory.get("other").err().expect("unknown key should fail");
    assert!(err.message().contains("unknown provider key 'other'"));
    let parts = ProviderFactory::from_parts(vec![("a".to_owned(), 7u32, false)]);
    assert_eq!(parts.get("a").expect("part should be found"), &7);
    assert!(!parts.supports_native_tools("a"));
}

#[test]
fn bodies_are_answers_or_errors() {
    let gemini = GeminiProvider::from_config(GeminiProviderConfig {
        model: "gemini-test".to_owned(),
        api_base: "https://gemini".to_owned(),
        api_key: None,
    });
    let body = r#"{"candidates":[{"content":{"parts":[{"text":"hello"}]}}]}"#;
    let answer = gemini.response_of_body(body).expect("body should be read");
    assert_eq!(answer.output_text.as_deref(), Some("hello"));
    let error = gemini.response_of_body("<html>").expect_err("body is no document");
    assert!(error.message().contains("invalid gemini response: "));
    let config = MoonshotProviderConfig {
        mode: ProviderAuthMode::ApiKey,
        api_base: "https://moon.test/v1".to_owned(),
        model: "kimi".to_owned(),
        api_key: Some("key".to_owned()),
    };
    let moonshot = MoonshotCompatibleProvider::from_moonshot_config("default", config)
        .expect("provider with a key should be made");
    let body = r#"{"choices":[{"message":{"content":"hello"}}]}"#;
    let answer = moonshot.response_of_body(body).expect("body should be read");
    assert_eq!(answer.output_text.as_deref(), Some("hello"));
    let error = moonshot.response_of_body("<html>").expect_err("body is no document");
    assert!(error.message().contains("invalid moonshot response: "));
}
