//! What holds of every input, on some.
use simpleclaw::config::{GatewayChannelKind, ToolSandboxConfig};
use simpleclaw::dispatch::{ToolExecutionResult, ToolExecutionStatus};
use simpleclaw::error::SandboxCapability;
use simpleclaw::json::Json;
use simpleclaw::providers::openai_codex::{build_input, build_tools};
use simpleclaw::providers::types::{Message, ToolCall, ToolDefinition, ToolResult};
use simpleclaw::run::cron_scheduler::{inbound_for_job, parse_source_channel};
use simpleclaw::run::inbound::{ack_reaction, InboundAction, InboundFacts, InboundFlow};
use simpleclaw::run::transparency::{
    render_tool_call_transparency, tool_summary_groups, transparency_summary,
};
use simpleclaw::telemetry::{redact_sensitive_values, sanitize_preview};
use simpleclaw::time::Timestamp;
use simpleclaw::tools::common::{parse_exec_command_arg, parse_forget_args, parse_memorize_args};
use simpleclaw::tools::cron::{should_fire, CronJob};
use simpleclaw::tools::file_access::{classify_file_tool_access, expand_env_vars, FileToolRoute};
use simpleclaw::tools::list::{ListEntry, ListWalk};
use simpleclaw::tools::read::render_file_output;
use simpleclaw::tools::search::EntryKind;
use simpleclaw::tools::web_fetch::render_fetch_response;

fn call(name: &str, status: ToolExecutionStatus, nested: Vec<ToolExecutionResult>) -> ToolExecutionResult {
    ToolExecutionResult {
        name: name.to_owned(),
        args_json: "{}".to_owned(),
        output: String::new(),
        status,
        elapsed_ms: 1,
        tool_call_id: None,
        nested_tool_calls: nested,
    }
}

#[test]
fn a_call_and_its_result_share_an_id() {
    let history = vec![
        Message::assistant_tool_calls(vec![ToolCall {
            id: Some("id with spaces!".to_owned()),
            name: "read".to_owned(),
            args_json: "{}".to_owned(),
        }]),
        Message::tool_results(vec![ToolResult {
            call_id: Some("id with spaces!".to_owned()),
            name: "read".to_owned(),
            response: Json::text("x"),
        }]),
    ];
    let items = build_input(&history);
    assert_eq!(items.len(), 2);
    assert_eq!(items[0].text_at("call_id"), items[1].text_at("call_id"));
    assert!(items[0].text_at("call_id").is_some());
}

#[test]
fn tool_schemas_are_sent_as_objects() {
    for schema in ["{}", "[]", "7", "not json", r#"{"type":"string"}"#] {
        let tools = build_tools(&[ToolDefinition {
            name: "t".to_owned(),
            description: "d".to_owned(),
            input_schema_json: schema.to_owned(),
        }]);
        let parameters = tools[0].get("parameters").expect("schema should be sent");
        assert_eq!(parameters.text_at("type"), Some("object"));
        assert!(parameters.get("properties").is_some_and(Json::is_object));
    }
}

#[test]
fn redacting_twice_changes_nothing() {
    let once = redact_sensitive_values(r#"{"a":{"Token":"x","b":[{"password":1}]},"c":"d"}"#);
    assert_eq!(redact_sensitive_values(&once), once);
    assert!(once.contains("\"c\":\"d\""));
    let preview = sanitize_preview("one\ntwo\t three and more", 7);
    assert!(!preview.contains('\n') && !preview.contains('\t'));
    assert!(preview.chars().count() <= 7 + "...[truncated]".len());
}

#[test]
fn importance_lies_between_one_and_five() {
    for (given, kept) in [("0", 1), ("3", 3), ("9", 5), ("999", 5)] {
        let (_, _, importance) =
            parse_memorize_args(&format!("{{\"fact\":\"f\",\"importance\":{given}}}"));
        assert_eq!(importance, kept, "importance {given}");
    }
}

#[test]
fn forgetting_has_to_be_asked_for() {
    assert!(!parse_forget_args("commit").commit);
    assert!(!parse_forget_args(r#"{"query":"q"}"#).commit);
    assert!(!parse_forget_args(r#"{"query":"q","commit":"yes"}"#).commit);
    assert!(parse_forget_args(r#"{"query":"q","commit":true}"#).commit);
    assert_eq!(parse_exec_command_arg(r#"{"command":"ls"}"#), "ls");
    assert_eq!(parse_exec_command_arg("ls"), "ls");
}

fn job(schedule: &str) -> CronJob {
    CronJob {
        id: "j".to_owned(),
        agent_id: "a".to_owned(),
        schedule: schedule.to_owned(),
        description: "d".to_owned(),
        prompt: "p".to_owned(),
        guard_command: None,
        workspace_root: "/w".to_owned(),
        channel_id: "c".to_owned(),
        guild_id: None,
        source_channel: "discord".to_owned(),
        is_dm: false,
        created_by: "u".to_owned(),
        created_at: Timestamp { secs: 0, nanos: 0 },
        last_fired_at: None,
        guard_timeout_seconds: 10,
        enabled: true,
    }
}

#[test]
fn a_job_that_never_ran_is_due_in_its_minute_only() {
    let noon = 1_772_625_600;
    assert!(should_fire(&job("0 12 * * *"), Timestamp { secs: noon + 20, nanos: 0 }));
    assert!(!should_fire(&job("0 12 * * *"), Timestamp { secs: noon + 80, nanos: 0 }));
    assert!(!should_fire(&job("0 12 * * *"), Timestamp { secs: noon - 20, nanos: 0 }));
}

#[test]
fn messages_of_jobs_are_the_frameworks_own() {
    let message = inbound_for_job(&job("* * * * *"), "t".to_owned()).expect("channel is known");
    assert!(ack_reaction(&message, true).is_none());
    let facts = InboundFacts::of(&message, true, false, false, false, false, false);
    let (_, action) = InboundFlow::start(facts, "sorry");
    assert_eq!(action, InboundAction::ExecuteTurn { with_stream: false });
    let kind = GatewayChannelKind::Discord;
    assert_eq!(parse_source_channel(kind.as_str()), Some(kind));
}

#[test]
fn every_call_is_counted_and_the_reply_stays() {
    let calls = vec![
        call("read", ToolExecutionStatus::Success, Vec::new()),
        call(
            "task",
            ToolExecutionStatus::Success,
            vec![
                call("read", ToolExecutionStatus::ToolError, Vec::new()),
                call("exec", ToolExecutionStatus::Accepted, Vec::new()),
            ],
        ),
    ];
    let summary = transparency_summary(&calls, true, false, false, 0, 0);
    let counted: usize = summary.tool_groups.iter().map(|group| group.ok + group.accepted + group.err).sum();
    assert_eq!(counted, 4);
    let shown = render_tool_call_transparency(
        "the reply",
        &calls,
        true,
        false,
        false,
        0,
        0,
        GatewayChannelKind::Discord,
    );
    assert!(shown.starts_with("the reply"));
    assert!(shown.len() > "the reply".len());
    let plain = render_tool_call_transparency(
        "the reply",
        &calls,
        false,
        false,
        false,
        0,
        0,
        GatewayChannelKind::Discord,
    );
    assert_eq!(plain, "the reply");
    assert_eq!(tool_summary_groups(&Vec::new()).len(), 0);
}

#[test]
fn paths_outside_need_approval() {
    let route = classify_file_tool_access(
        "/etc/passwd",
        "/tmp/ws",
        "/tmp/persona",
        &ToolSandboxConfig::default(),
        SandboxCapability::Read,
        &Ok("/".to_owned()),
    )
    .expect("path should be classified");
    assert!(matches!(
        route,
        FileToolRoute::NeedsApproval { capability: SandboxCapability::Read, .. }
    ));
    let env = vec![("A".to_owned(), "b".to_owned())];
    assert_eq!(expand_env_vars("no dollars here", &env), "no dollars here");
    assert_eq!(expand_env_vars("$A/${A}/$B", &env), "b/b/");
}

#[test]
fn lists_show_at_most_a_hundred_files() {
    let mut walk = ListWalk::start(&Vec::new()).expect("patterns are good");
    let (dir, _) = walk.step().expect("the root is looked at first");
    let entries: Vec<Result<ListEntry, String>> = (0..150)
        .map(|i| {
            Ok(ListEntry { name: format!("f{i:03}.txt"), kind: Ok(EntryKind::File) })
        })
        .collect();
    walk.saw(dir, &entries, "/w").expect("entries can be read");
    assert_eq!(walk.render("/w").matches(".txt").count(), 100);
}

#[test]
fn reading_on_misses_nothing() {
    let content: String = (1..=25).map(|i| format!("line {i}\n")).collect();
    let mut seen = 0;
    let mut offset = 1;
    while offset <= 25 {
        let shown = render_file_output("/f", &content, offset, 10).expect("lines are there");
        seen += shown.matches(": line ").count();
        offset += 10;
    }
    assert_eq!(seen, 25);
    let lines = |offset: usize, limit: usize| -> Vec<String> {
        render_file_output("/f", &content, offset, limit)
            .expect("lines are there")
            .lines()
            .filter(|line| line.contains(": line "))
            .map(str::to_owned)
            .collect()
    };
    let mut pages = lines(4, 3);
    pages.extend(lines(7, 5));
    assert_eq!(pages, lines(4, 8));
}

#[test]
fn fetched_texts_are_bounded() {
    let long = "x".repeat(500);
    let shown = render_fetch_response("http://a.test", 200, &long, 100).expect("page is there");
    assert_eq!(shown.chars().count(), 100);
    assert!(render_fetch_response("http://a.test", 199, &long, 100).is_err());
    assert!(render_fetch_response("http://a.test", 300, &long, 100).is_err());
}
