//! Replies, secrets, logs, the loop of an agent, and the texts they are made of.
use simpleclaw::dispatch::{
    is_authorized, native_action, DispatchAction, DispatcherKind, ToolExecutionResult,
    ToolExecutionStatus,
};
use simpleclaw::error::FrameworkError;
use simpleclaw::json::Json;
use simpleclaw::order;
use simpleclaw::order::Newest;
use simpleclaw::paths;
use simpleclaw::providers::types::{Message, ProviderResponse, Role, ToolCall, ToolDefinition};
use simpleclaw::react;
use simpleclaw::react::{sanitize_log_preview, LoopAction, ReactLoopState};
use simpleclaw::reply_policy::is_no_reply;
use simpleclaw::secrets::{parse_secret_reference, Secret, SecretResolver};
use simpleclaw::telemetry;
use simpleclaw::telemetry::REDACTED;
use simpleclaw::text;
use simpleclaw::time::Timestamp;

#[test]
fn sanitize_log_preview_redacts_json_secret_keys() {
    let preview = sanitize_log_preview(
        r#"{"query":"ping","api_key":"abc123","nested":{"refresh_token":"xyz"}}"#,
        512,
    );
    assert!(preview.contains("\"query\":\"ping\""));
    assert!(preview.contains(REDACTED));
    assert!(!preview.contains("abc123"));
    assert!(!preview.contains("xyz"));
}

#[test]
fn sanitize_log_preview_redacts_plaintext_secret_patterns() {
    let preview = sanitize_log_preview(
        "token=abc123 authorization:secret-value Authorization:Bearer super-secret",
        512,
    );
    assert!(!preview.contains("abc123"));
    assert!(!preview.contains("secret-value"));
    assert!(!preview.contains("super-secret"));
    assert!(preview.contains(REDACTED));
}

#[test]
fn sanitize_log_preview_truncates_long_output() {
    let preview = sanitize_log_preview("abcdefghijklmnopqrstuvwxyz", 10);
    assert_eq!(preview, "abcdefghij...[truncated]");
}

#[test]
fn sanitize_log_preview_flattens_newlines() {
    let preview = sanitize_log_preview("first line\nsecond\tline\r\nthird", 512);
    assert_eq!(preview, "first line second line third");
}

#[test]
fn redaction_keeps_what_is_not_secret() {
    assert_eq!(telemetry::redact_plain_text("all is well"), "all is well");
    assert!(telemetry::is_sensitive_key("API_KEY"));
    assert!(!telemetry::is_sensitive_key("query"));
    let redacted = telemetry::redact_json_value(
        Json::parse(r#"{"a":[{"password":"p"}],"b":"c"}"#).expect("document should parse"),
    );
    assert!(!redacted.render().contains("\"p\""));
    assert!(redacted.render().contains("\"c\""));
}

#[test]
fn later_trace_ids_are_new() {
    let mut counter = telemetry::TraceCounter::new();
    let first = telemetry::next_trace_id(&mut counter, 1_772_582_400_000);
    let second = telemetry::next_trace_id(&mut counter, 1_772_582_400_000);
    let third = telemetry::next_trace_id(&mut counter, 1);
    assert_eq!(first, "trc-1772582400000-1");
    assert_eq!(second, "trc-1772582400000-2");
    assert_eq!(third, "trc-1-3");
    let mut last = telemetry::TraceCounter { next: u64::MAX };
    assert_eq!(telemetry::next_trace_id(&mut last, 0), "trc-0-18446744073709551615");
    assert_eq!(last.next, 0);
}

#[test]
fn matches_exact_sentinel() {
    assert!(is_no_reply("NO_REPLY"));
}

#[test]
fn matches_trimmed_sentinel() {
    assert!(is_no_reply("  NO_REPLY\n"));
}

#[test]
fn does_not_match_other_text() {
    assert!(!is_no_reply("NO_REPLY please"));
}

#[test]
fn does_not_match_different_case() {
    assert!(!is_no_reply("no_reply"));
}

#[test]
fn parse_secret_reference_accepts_valid_pattern() {
    let parsed = parse_secret_reference("provider.api_key", "${secret:gemini_api_key}")
        .expect("valid reference should parse");
    assert_eq!(parsed, "gemini_api_key");
}

#[test]
fn parse_secret_reference_rejects_plaintext() {
    let err = parse_secret_reference("provider.api_key", "raw-api-key").unwrap_err();
    assert!(err.message().contains("provider.api_key"));
}

#[test]
fn parse_secret_reference_rejects_invalid_name() {
    let err = parse_secret_reference("provider.api_key", "${secret:bad name}").unwrap_err();
    assert!(err.message().contains("invalid secret reference"));
}

#[test]
fn secret_deserialize_accepts_valid_pattern() {
    let secret = Secret::<String>::from_reference("${secret:gemini_api_key}")
        .expect("secret should parse");
    assert_eq!(secret.name(), "gemini_api_key");
    assert_eq!(secret.exposed(), None);
}

#[test]
fn secret_deserialize_rejects_plaintext() {
    let err = Secret::<String>::from_reference("plaintext")
        .err()
        .expect("plain text should be refused");
    assert!(err.message().contains("must use secret reference syntax"));
}

#[test]
fn secret_serialize_preserves_reference_format() {
    let secret = Secret::<String>::from_name("gemini_api_key");
    assert!(secret.to_reference().contains("${secret:gemini_api_key}"));
    assert_eq!(secret.into_name(), "gemini_api_key");
}

#[test]
fn resolver_prefers_env_over_file() {
    let key = "SIMPLECLAW_TEST_SECRET_RESOLVER_PREFERS_ENV";
    let content = format!("{key}: file-value\n");
    let resolver =
        SecretResolver::new(Some(&content), "secrets.yaml").expect("resolver should load");
    let value = resolver
        .resolve(key, Some("env-value".to_owned()))
        .expect("secret should resolve");
    assert_eq!(value, "env-value");
}

#[test]
fn resolver_reads_file_when_env_missing() {
    let key = "simpleclaw_test_secret_file_only";
    let content = format!("{key}: file-value\n");
    let resolver =
        SecretResolver::new(Some(&content), "secrets.yaml").expect("resolver should load");
    let value = resolver.resolve(key, None).expect("secret should resolve");
    assert_eq!(value, "file-value");
}

#[test]
fn resolver_errors_when_missing_everywhere() {
    let key = "SIMPLECLAW_TEST_SECRET_DOES_NOT_EXIST";
    let resolver = SecretResolver::new(None, "secrets.yaml").expect("resolver should load");

    let err = resolver.resolve(key, None).unwrap_err();
    assert!(err.message().contains("not found"));
}

#[test]
fn secret_resolve_populates_exposed_value() {
    let key = "SIMPLECLAW_TEST_SECRET_TYPED_RESOLVE";
    let resolver = SecretResolver::new(None, "secrets.yaml").expect("resolver should load");
    let mut secret = Secret::<String>::from_name(key);

    secret
        .resolve(
            &resolver,
            Some("resolved".to_owned()),
            "providers.entries.default.api_key",
        )
        .expect("typed secret should resolve");
    assert_eq!(secret.exposed(), Some("resolved"));
    assert_eq!(secret.debug_text(), "Secret([redacted])");
}

#[test]
fn resolver_refuses_empty_and_malformed_secrets() {
    let resolver =
        SecretResolver::new(Some("blank: \"  \"\n"), "secrets.yaml").expect("resolver should load");
    assert!(resolver.resolve("blank", None).is_err());
    assert!(SecretResolver::new(Some("- not\n- a map\n"), "secrets.yaml").is_err());
}

fn result(name: &str) -> ToolExecutionResult {
    ToolExecutionResult {
        name: name.to_owned(),
        args_json: "{}".to_owned(),
        output: "ok".to_owned(),
        status: ToolExecutionStatus::Success,
        elapsed_ms: 1,
        tool_call_id: None,
        nested_tool_calls: Vec::new(),
    }
}

#[test]
fn the_loop_ends_with_an_answer_or_when_steps_run_out() {
    let mut state = ReactLoopState::new(2, vec![Message::text(Role::User, "hi")]);
    assert!(matches!(state.next_turn(), LoopAction::Ask));
    let calls = vec![ToolCall { id: None, name: "clock".to_owned(), args_json: "{}".to_owned() }];
    match state.answered(DispatchAction::ToolCalls(calls)) {
        LoopAction::Execute(calls) => assert_eq!(calls.len(), 1),
        other => panic!("tools should run: {other:?}"),
    }
    let next = state.executed(
        vec![result("clock")],
        vec![Message::text(Role::Assistant, "calling"), Message::text(Role::Tool, "noon")],
    );
    assert!(matches!(next, LoopAction::Ask));
    assert_eq!(state.history().len(), 3);
    let mut answered = ReactLoopState::new(1, Vec::new());
    assert!(matches!(answered.next_turn(), LoopAction::Ask));
    match answered.answered(DispatchAction::FinalResponse("done".to_owned())) {
        LoopAction::Finish(outcome) => assert_eq!(outcome.reply, "done"),
        other => panic!("the answer should end the loop: {other:?}"),
    }
    let mut exhausted = ReactLoopState::new(0, Vec::new());
    assert!(matches!(exhausted.next_turn(), LoopAction::Finish(_)));
}

#[test]
fn a_model_that_cannot_be_asked_ends_the_loop() {
    let mut state = ReactLoopState::new(3, vec![Message::text(Role::User, "hi")]);
    assert!(matches!(state.next_turn(), LoopAction::Ask));
    match state.failed(FrameworkError::Provider("no route".to_owned())) {
        LoopAction::Fail(error) => {
            assert_eq!(error, FrameworkError::Provider("no route".to_owned()));
        }
        other => panic!("the run should fail: {other:?}"),
    }
    assert_eq!(state.history().len(), 1);
}

#[test]
fn tools_are_handed_over_natively_only() {
    let definitions = || {
        vec![ToolDefinition {
            name: "clock".to_owned(),
            description: String::new(),
            input_schema_json: "{}".to_owned(),
        }]
    };
    assert_eq!(react::tool_specs(DispatcherKind::Native, definitions()), definitions());
    assert!(react::tool_specs(DispatcherKind::Xml, definitions()).is_empty());
}

#[test]
fn a_turn_without_a_message_has_no_reactions() {
    let definition = |name: &str| ToolDefinition {
        name: name.to_owned(),
        description: String::new(),
        input_schema_json: "{}".to_owned(),
    };
    let with = react::turn_definitions(vec![definition("react"), definition("clock")], true);
    assert_eq!(with.len(), 2);
    let without = react::turn_definitions(vec![definition("react"), definition("clock")], false);
    assert_eq!(without.len(), 1);
    assert_eq!(without[0].name, "clock");
    assert!(matches!(react::resolve_dispatcher(true), DispatcherKind::Native));
    assert!(matches!(react::resolve_dispatcher(false), DispatcherKind::Xml));
    assert!(react::effective_system_prompt("sys", "more").contains("sys"));
    assert!(react::effective_system_prompt("sys", "more").contains("more"));
}

#[test]
fn paths_are_normalized() {
    assert_eq!(paths::normalize_absolute_path("/a/./b/../c").display(), "/a/c");
    assert_eq!(paths::normalize_absolute_path("/../x").display(), "/x");
    assert_eq!(paths::join("/a", "b"), "/a/b");
    assert_eq!(paths::join("/a/", "b"), "/a/b");
    assert_eq!(paths::join("/a", "/b"), "/b");
    let path = paths::normalize_absolute_path("/a/b/c");
    let root = paths::normalize_absolute_path("/a");
    assert_eq!(path.strip_prefix(&root), Some(vec!["b".to_owned(), "c".to_owned()]));
    assert_eq!(root.strip_prefix(&path), None);
}

#[test]
fn times_are_read_back_as_written() {
    let point = Timestamp { secs: 1_772_582_400, nanos: 5_000_000 };
    assert!(point.is_valid());
    let written = point.to_rfc3339();
    assert!(written.starts_with("2026-03-04T00:00:00"));
    assert_eq!(Timestamp::from_rfc3339(&written), Ok(point));
    assert!(Timestamp::from_rfc3339("yesterday").is_err());
    let later = Timestamp { secs: 61, nanos: 0 };
    assert_eq!(later.start_of_minute(), 60);
    let earlier = Timestamp { secs: -1, nanos: 0 };
    assert_eq!(earlier.start_of_minute(), -60);
}

#[test]
fn things_are_put_in_order() {
    let at = |secs: i64| Newest(Timestamp { secs, nanos: 0 });
    let sorted = order::sort_ranked(vec![(at(1), "a"), (at(3), "b"), (at(1), "c"), (at(2), "d")]);
    let names: Vec<&str> = sorted.into_iter().map(|(_, name)| name).collect();
    assert_eq!(names, vec!["b", "d", "a", "c"]);
    let texts = order::sort_texts(vec!["b".to_owned(), "a".to_owned(), "ab".to_owned()]);
    assert_eq!(texts, vec!["a".to_owned(), "ab".to_owned(), "b".to_owned()]);
}

#[test]
fn texts_are_taken_apart() {
    assert_eq!(text::lines_of("a\r\nb\nc"), vec!["a", "b", "c"]);
    assert_eq!(text::words_of("  a  b\tc "), vec!["a", "b", "c"]);
    assert_eq!(text::replaced("aXbX", "X", "--"), "a--b--");
    assert_eq!(text::matches_of("aaaa", "aa"), 2);
    assert_eq!(text::clipped_marked("h\u{e9}llo", 2, "..."), "h\u{e9}...");
    assert_eq!(text::decimal_of(0), "0");
    assert_eq!(text::decimal_of_i64(-12), "-12");
    assert_eq!(text::number_in("+42", 100), Some(42));
    assert_eq!(text::number_in("101", 100), None);
    assert_eq!(text::number_in("4x", 100), None);
    assert_eq!(text::trimmed("\u{a0} a \n"), "a");
}

#[test]
fn documents_are_read_and_written() {
    let document = Json::parse(r#"{"b":[1,true,null],"a":"x"}"#).expect("document should parse");
    assert_eq!(document.render(), r#"{"a":"x","b":[1,true,null]}"#);
    assert_eq!(document.text_at("a"), Some("x"));
    assert_eq!(document.array_at("b").map(|items| items.len()), Some(3));
    assert_eq!(document.array_at("b").and_then(|items| items[0].as_u64()), Some(1));
    assert!(Json::parse("{").is_err());
    let built = Json::object().with("n", Json::signed(-3)).with("t", Json::text("q\"")).with(
        "n",
        Json::unsigned(4),
    );
    assert_eq!(built.render(), r#"{"n":4,"t":"q\""}"#);
}

#[test]
fn native_answers_call_tools_first() {
    let call = || ToolCall {
        id: None,
        name: "clock".to_owned(),
        args_json: "{}".to_owned(),
    };
    let both = ProviderResponse {
        output_text: Some("let me look".to_owned()),
        tool_calls: vec![call()],
    };
    assert_eq!(native_action(both), DispatchAction::ToolCalls(vec![call()]));
    let said = ProviderResponse { output_text: Some("noon".to_owned()), tool_calls: Vec::new() };
    assert_eq!(native_action(said), DispatchAction::FinalResponse("noon".to_owned()));
    let blank = ProviderResponse { output_text: Some(" \n".to_owned()), tool_calls: Vec::new() };
    assert_eq!(native_action(blank), DispatchAction::Empty);
    let none = ProviderResponse { output_text: None, tool_calls: Vec::new() };
    assert_eq!(native_action(none), DispatchAction::Empty);
}

#[test]
fn only_owners_use_sensitive_tools() {
    let owners = vec!["owner".to_owned()];
    for name in ["exec", "process", "forget", "summon", "edit", "memorize"] {
        assert!(is_authorized(name, "owner", &owners));
        assert!(!is_authorized(name, "stranger", &owners));
        assert!(!is_authorized(name, "owner", &Vec::new()));
    }
    assert!(is_authorized("read", "stranger", &owners));
}
