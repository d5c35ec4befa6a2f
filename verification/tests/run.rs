//! Running the service: messages, sessions, jobs, logs and the harness for round trips.
use simpleclaw::channels::{CompletionRoute, InboundMessage, InboundMessageKind};
use simpleclaw::config::{CronToolConfig, GatewayChannelKind};
use simpleclaw::dispatch::{ToolExecutionResult, ToolExecutionStatus};
use simpleclaw::json::Json;
use simpleclaw::error::FrameworkError;
use simpleclaw::providers::registry::ProviderFactory;
use simpleclaw::providers::stream::{CollectStep, StreamCollector};
use simpleclaw::providers::types::{Message, StreamEvent, ToolResult};
use simpleclaw::react::RunOutcome;
use simpleclaw::run::composition::{
    agent_workspace_memory_paths, assemble_runtime_state, AgentLoad, SharedSettings,
};
use simpleclaw::run::cron_scheduler::{
    guard_result, inbound_for_job, parse_source_channel, GuardRun, JobTick, TickAction, TickEnd,
    TickEvent,
};
use simpleclaw::run::daemon::{
    exit_polls, follow_from, pid_line, read_pid, resolve_agent, start_step, started_lines,
    status_lines, stop_step, MemoryMode, PidFile, StartStep, StopAction, StopState,
};
use simpleclaw::run::inbound::{
    ack_reaction, remembered, remembered_reply, InboundAction, InboundEvent, InboundFacts,
    InboundFlow, StoredRole, TurnEnd, INBOUND_ACK_REACTION,
};
use simpleclaw::run::logging::{
    collect_log_history, dated_log_name, prune_daily_logs, rotate_step, stale_day, LogDay,
    RotateStep, RotatingLogState,
};
use simpleclaw::run::session::{DispatchStep, SessionLines, WorkerTable};
use simpleclaw::run::transparency::{
    render_for_style, render_tool_call_transparency, ToolSummaryGroup, TransparencyRenderStyle,
    TransparencySummary,
};
use simpleclaw::sandbox::{
    artifact_candidates, build_runtime_config, build_write_allow_paths, guest_exit_code,
    host_run_result, resolve_guest_artifact_path, waited_code, GuestEnd, HostOutcome,
    SandboxPolicy, WaitEnd,
};
use simpleclaw::telemetry::{next_trace_id, TraceCounter};
use simpleclaw::testing::{
    effective_agents, first_inbound, CaptureChannel, EphemeralPaths, ProviderScriptStep,
    ScriptedProvider, ScriptedToolCall, TestAgentConfig, TestHarnessConfig,
};
use simpleclaw::time::Timestamp;
use simpleclaw::tools::cron::{
    create_request, created_json, delete_id, like_pattern, new_job, parse_row, parse_schedule,
    row_of_job, should_fire, CronAction, CronArgs, CronJob, CronTool, RowError,
};

fn render(reply: &str, calls: &[ToolExecutionResult], tool_calls_enabled: bool) -> String {
    render_tool_call_transparency(
        reply,
        calls,
        tool_calls_enabled,
        false,
        false,
        0,
        0,
        GatewayChannelKind::Discord,
    )
}

#[test]
fn off_mode_returns_reply_unchanged() {
    let rendered = render("base reply", &[], false);
    assert_eq!(rendered, "base reply");
}

#[test]
fn enabled_mode_with_no_calls_returns_reply_unchanged() {
    let rendered = render("base reply", &[], true);
    assert_eq!(rendered, "base reply");
}

#[test]
fn enabled_mode_renders_grouped_status_chips() {
    let calls = vec![ToolExecutionResult {
        name: "clock".to_owned(),
        args_json: "{}".to_owned(),
        output: "2026-03-08T12:00:00Z".to_owned(),
        status: ToolExecutionStatus::Success,
        elapsed_ms: 4,
        tool_call_id: None,
        nested_tool_calls: Vec::new(),
    }];
    let rendered = render("base reply", &calls, true);
    assert!(rendered.contains("\n-# tools [clock `ok×1`]"));
    assert!(!rendered.contains("okx1"));
}

#[test]
fn repeated_calls_are_aggregated_with_ok_and_err_counts() {
    let calls = vec![
        ToolExecutionResult {
            name: "clock".to_owned(),
            args_json: r#"{"timezone":"UTC"}"#.to_owned(),
            output: "2026-03-08T12:00:00Z".to_owned(),
            status: ToolExecutionStatus::Success,
            elapsed_ms: 4,
            tool_call_id: None,
            nested_tool_calls: Vec::new(),
        },
        ToolExecutionResult {
            name: "clock".to_owned(),
            args_json: r#"{"timezone":"Invalid/Zone"}"#.to_owned(),
            output: "tool_error: invalid timezone".to_owned(),
            status: ToolExecutionStatus::ToolError,
            elapsed_ms: 9,
            tool_call_id: None,
            nested_tool_calls: Vec::new(),
        },
    ];
    let rendered = render("base reply", &calls, true);
    assert!(rendered.contains("-# tools [clock `ok×1` `err×1`]"));
    assert!(!rendered.contains("okx1"));
    assert!(!rendered.contains("errx1"));
}

#[test]
fn grouped_summary_preserves_first_seen_tool_order() {
    let calls = vec![ToolExecutionResult {
        name: "web_fetch".to_owned(),
        args_json: "{}".to_owned(),
        output: "ok".to_owned(),
        status: ToolExecutionStatus::ToolError,
        elapsed_ms: 11,
        tool_call_id: None,
        nested_tool_calls: vec![ToolExecutionResult {
            name: "clock".to_owned(),
            args_json: "{}".to_owned(),
            output: "ok".to_owned(),
            status: ToolExecutionStatus::Success,
            elapsed_ms: 1,
            tool_call_id: None,
            nested_tool_calls: Vec::new(),
        }],
    }];
    let rendered = render("base reply", &calls, true);
    assert!(rendered.contains("-# tools [web\\_fetch `err×1`] [clock `ok×1`]"));
}

#[test]
fn discord_subtext_escapes_underscores() {
    let calls = vec![ToolExecutionResult {
        name: "web_fetch".to_owned(),
        args_json: "{}".to_owned(),
        output: "ok".to_owned(),
        status: ToolExecutionStatus::Success,
        elapsed_ms: 1,
        tool_call_id: None,
        nested_tool_calls: Vec::new(),
    }];
    let rendered = render("base reply", &calls, true);
    assert!(rendered.contains("-# tools [web\\_fetch `ok×1`]"));
    assert!(!rendered.contains("-# tools [web_fetch `ok×1`]"));
}

#[test]
fn plain_footer_style_is_available_for_channel_fallbacks() {
    let summary = TransparencySummary {
        tool_groups: vec![ToolSummaryGroup {
            name: "clock".to_owned(),
            ok: 1,
            accepted: 0,
            err: 0,
        }],
        memory_hits: None,
    };
    let rendered =
        render_for_style("base reply", &summary, TransparencyRenderStyle::PlainFooter);
    assert_eq!(rendered, "base reply\n---\ntools: [clock ok×1]");
}

#[test]
fn nested_calls_are_included_in_grouped_summary() {
    let calls = vec![ToolExecutionResult {
        name: "summon".to_owned(),
        args_json: r#"{"agent":"research"}"#.to_owned(),
        output: "delegated".to_owned(),
        status: ToolExecutionStatus::Success,
        elapsed_ms: 14,
        tool_call_id: None,
        nested_tool_calls: vec![ToolExecutionResult {
            name: "clock".to_owned(),
            args_json: "{}".to_owned(),
            output: "2026-03-08T12:00:00Z".to_owned(),
            status: ToolExecutionStatus::Success,
            elapsed_ms: 3,
            tool_call_id: None,
            nested_tool_calls: Vec::new(),
        }],
    }];
    let rendered = render("base reply", &calls, true);
    assert!(rendered.contains("-# tools [summon `ok×1`] [clock `ok×1`]"));
}

#[test]
fn deep_nesting_is_counted_in_flattened_grouping() {
    let calls = vec![ToolExecutionResult {
        name: "task".to_owned(),
        args_json: "{}".to_owned(),
        output: "ok".to_owned(),
        status: ToolExecutionStatus::Success,
        elapsed_ms: 10,
        tool_call_id: None,
        nested_tool_calls: vec![ToolExecutionResult {
            name: "summon".to_owned(),
            args_json: "{}".to_owned(),
            output: "ok".to_owned(),
            status: ToolExecutionStatus::Success,
            elapsed_ms: 9,
            tool_call_id: None,
            nested_tool_calls: vec![ToolExecutionResult {
                name: "exec".to_owned(),
                args_json: "{}".to_owned(),
                output: "ok".to_owned(),
                status: ToolExecutionStatus::Success,
                elapsed_ms: 7,
                tool_call_id: None,
                nested_tool_calls: Vec::new(),
            }],
        }],
    }];
    let rendered = render("base reply", &calls, true);
    assert!(rendered.contains("-# tools [task `ok×1`] [summon `ok×1`] [exec `ok×1`]"));
}

#[test]
fn memory_recall_transparency_renders_used_with_hits() {
    let rendered = render_tool_call_transparency(
        "base reply",
        &[],
        false,
        true,
        true,
        0,
        2,
        GatewayChannelKind::Discord,
    );
    assert!(rendered.contains("-# recall `short=0 long=2`"));
}

#[test]
fn memory_recall_transparency_renders_short_and_long_hits() {
    let rendered = render_tool_call_transparency(
        "base reply",
        &[],
        false,
        true,
        true,
        1,
        2,
        GatewayChannelKind::Discord,
    );
    assert!(rendered.contains("-# recall `short=1 long=2`"));
}

#[test]
fn memory_recall_transparency_omits_line_when_not_used() {
    let rendered = render_tool_call_transparency(
        "base reply",
        &[],
        false,
        true,
        false,
        0,
        0,
        GatewayChannelKind::Discord,
    );
    assert_eq!(rendered, "base reply");
}

#[test]
fn memory_recall_line_can_render_with_tool_summary() {
    let calls = vec![ToolExecutionResult {
        name: "clock".to_owned(),
        args_json: "{}".to_owned(),
        output: "ok".to_owned(),
        status: ToolExecutionStatus::Success,
        elapsed_ms: 1,
        tool_call_id: None,
        nested_tool_calls: Vec::new(),
    }];
    let rendered = render_tool_call_transparency(
        "base reply",
        &calls,
        true,
        true,
        true,
        1,
        1,
        GatewayChannelKind::Discord,
    );
    assert!(rendered.contains("-# tools [clock `ok×1`] • recall `short=1 long=1`"));
    assert!(!rendered.contains("\n-# memory"));
}

fn inbound_message() -> InboundMessage {
    InboundMessage {
        trace_id: next_trace_id(&mut TraceCounter::new(), 1_772_582_400_000),
        source_channel: GatewayChannelKind::Discord,
        target_agent_id: "default".to_owned(),
        session_key: "agent:default:discord:chan-1".to_owned(),
        source_message_id: Some("msg-1".to_owned()),
        channel_id: "chan-1".to_owned(),
        guild_id: None,
        is_dm: false,
        user_id: "user-1".to_owned(),
        username: "kaleb".to_owned(),
        mentioned_bot: true,
        invoke: true,
        content: "hello".to_owned(),
        kind: InboundMessageKind::Text,
    }
}

fn facts(inbound: &InboundMessage, known_agent: bool) -> InboundFacts {
    InboundFacts::of(inbound, known_agent, false, false, true, false, false)
}

fn replied(reply: &str) -> TurnEnd {
    TurnEnd::Replied(RunOutcome {
        reply: reply.to_owned(),
        tool_calls: Vec::new(),
        memory_recall_used: false,
        memory_recall_short_hits: 0,
        memory_recall_long_hits: 0,
    })
}

/// What happened while a message was handled.
struct Seen {
    typing: usize,
    streams_begun: usize,
    turns: usize,
    finalized: Vec<String>,
    sent: Vec<String>,
}

/// Handles a message: each outside step succeeds or fails as told, and the turn ends as told.
fn handle(
    facts: InboundFacts,
    end: TurnEnd,
    typing_ok: bool,
    stream_ok: bool,
    finalize_ok: bool,
) -> Seen {
    let mut seen = Seen {
        typing: 0,
        streams_begun: 0,
        turns: 0,
        finalized: Vec::new(),
        sent: Vec::new(),
    };
    let mut end = Some(end);
    let told = |ok: bool| {
        if ok {
            InboundEvent::Succeeded
        } else {
            InboundEvent::Failed
        }
    };
    let (mut flow, mut action) = InboundFlow::start(facts, "safe fallback");
    for _ in 0..10 {
        let event = match action {
            InboundAction::BroadcastTyping => {
                seen.typing += 1;
                told(typing_ok)
            }
            InboundAction::BeginStream => {
                seen.streams_begun += 1;
                told(stream_ok)
            }
            InboundAction::ExecuteTurn { .. } => {
                seen.turns += 1;
                InboundEvent::TurnEnded(end.take().expect("there should be one turn"))
            }
            InboundAction::FinalizeStream(text) => {
                seen.finalized.push(text);
                told(finalize_ok)
            }
            InboundAction::SendMessage(text) => {
                seen.sent.push(text);
                told(true)
            }
            InboundAction::Finish => return seen,
            InboundAction::Synthesize(_)
            | InboundAction::PrepareVoiceMessage
            | InboundAction::SendVoiceMessage => panic!("nothing should be spoken"),
        };
        let (next_flow, next_action) = flow.step(event);
        flow = next_flow;
        action = next_action;
    }
    panic!("handling should end");
}

#[test]
fn dispatch_inbound_adds_seen_reaction_for_invoke_messages() {
    let inbound = inbound_message();
    let reaction = ack_reaction(&inbound, true).expect("reaction should be added");
    assert_eq!(reaction.0, inbound.channel_id);
    assert_eq!(reaction.1, inbound.source_message_id.unwrap_or_default());
    assert_eq!(reaction.2, INBOUND_ACK_REACTION);
}

#[test]
fn dispatch_inbound_skips_seen_reaction_for_passive_messages() {
    let mut inbound = inbound_message();
    inbound.invoke = false;
    assert!(ack_reaction(&inbound, true).is_none());
}

#[test]
fn dispatch_inbound_skips_seen_reaction_for_system_messages() {
    let mut inbound = inbound_message();
    inbound.user_id = "system".to_owned();
    assert!(ack_reaction(&inbound, true).is_none());
}

#[test]
fn messages_that_are_not_queued_get_no_reaction() {
    assert!(ack_reaction(&inbound_message(), false).is_none());
    let mut nameless = inbound_message();
    nameless.source_message_id = None;
    assert!(ack_reaction(&nameless, true).is_none());
}

#[test]
fn handle_inbound_once_replies_with_route_error_for_unknown_agent() {
    let inbound = inbound_message();
    let seen = handle(facts(&inbound, false), replied("unused"), true, true, true);
    assert_eq!(seen.sent.len(), 1);
    assert_eq!(
        seen.sent[0],
        "I couldn't route that message due to a configuration error."
    );
}

#[test]
fn handle_inbound_once_records_passive_context_without_outbound_reply() {
    let mut inbound = inbound_message();
    inbound.invoke = false;
    let seen = handle(facts(&inbound, true), TurnEnd::ContextRecorded, true, true, true);
    assert_eq!(seen.turns, 1);
    let stored = remembered(&inbound);
    assert_eq!(stored.session_id, inbound.session_key);
    assert_eq!(stored.role, StoredRole::User);
    assert_eq!(stored.role.as_str(), "user");
    assert_eq!(stored.content, inbound.content);
    assert!(seen.sent.is_empty());
    assert_eq!(seen.typing, 0);
}

#[test]
fn replies_are_remembered_as_the_agents() {
    let stored = remembered_reply(&inbound_message(), "hello back");
    assert_eq!(stored.role, StoredRole::Assistant);
    assert_eq!(stored.role.as_str(), "assistant");
    assert_eq!(stored.content, "hello back");
    assert_eq!(stored.username, None);
}

#[test]
fn handle_inbound_once_continues_after_typing_failure_and_sends_reply() {
    let seen = handle(
        facts(&inbound_message(), true),
        replied("hello back"),
        false,
        true,
        true,
    );
    assert_eq!(seen.typing, 1);
    assert_eq!(seen.finalized, vec!["hello back".to_owned()]);
    assert!(seen.sent.is_empty());
}

#[test]
fn handle_inbound_once_streams_deltas_and_tool_statuses_through_channel_stream() {
    let mut collector = StreamCollector::new();
    let mut deltas = Vec::new();
    let mut statuses = Vec::new();
    for event in [
        StreamEvent::TextDelta("hello".to_owned()),
        StreamEvent::ToolCallDelta {
            name: "grep".to_owned(),
        },
        StreamEvent::TextDelta(" world".to_owned()),
        StreamEvent::Done,
    ] {
        match collector.push(event) {
            CollectStep::Text(delta) => deltas.push(delta),
            CollectStep::ToolStatus(status) => statuses.push(status),
            CollectStep::Finished => {}
            CollectStep::Failed(error) => panic!("stream should not fail: {}", error.message()),
        }
    }
    let reply = collector.into_response().output_text.expect("there should be an answer");
    let seen = handle(facts(&inbound_message(), true), replied(&reply), true, true, true);

    assert_eq!(seen.streams_begun, 1);
    assert_eq!(deltas, vec!["hello".to_owned(), " world".to_owned()]);
    assert_eq!(statuses, vec![Some("Using tool `grep`".to_owned())]);
    assert_eq!(seen.finalized, vec!["hello world".to_owned()]);
    assert!(seen.sent.is_empty());
}

#[test]
fn handle_inbound_once_falls_back_to_final_reply_when_stream_setup_fails() {
    let seen = handle(
        facts(&inbound_message(), true),
        replied("hello back"),
        true,
        false,
        true,
    );
    assert_eq!(seen.streams_begun, 1);
    assert_eq!(seen.finalized, Vec::<String>::new());
    assert_eq!(seen.sent.len(), 1);
    assert_eq!(seen.sent[0], "hello back");
}

#[test]
fn handle_inbound_once_streams_safe_error_reply_on_provider_failure() {
    let seen = handle(facts(&inbound_message(), true), TurnEnd::Failed, true, true, true);
    assert_eq!(seen.streams_begun, 1);
    assert_eq!(seen.finalized, vec!["safe fallback".to_owned()]);
}

#[test]
fn handle_inbound_once_logs_stream_finalize_failure_without_retrying_send() {
    let seen = handle(
        facts(&inbound_message(), true),
        replied("hello back"),
        true,
        true,
        false,
    );
    assert_eq!(seen.finalized, vec!["hello back".to_owned()]);
    assert!(seen.sent.is_empty());
}

#[test]
fn spoken_replies_go_out_as_voice() {
    let inbound = inbound_message();
    let facts = InboundFacts::of(&inbound, true, true, true, true, false, false);
    let (flow, action) = InboundFlow::start(facts, "safe fallback");
    assert_eq!(action, InboundAction::BroadcastTyping);
    let (flow, action) = flow.step(InboundEvent::Succeeded);
    assert_eq!(action, InboundAction::ExecuteTurn { with_stream: false });
    let (flow, action) = flow.step(InboundEvent::TurnEnded(replied("hi")));
    assert_eq!(action, InboundAction::Synthesize("hi".to_owned()));
    let (flow, action) = flow.step(InboundEvent::Succeeded);
    assert_eq!(action, InboundAction::PrepareVoiceMessage);
    let (flow, action) = flow.step(InboundEvent::Failed);
    assert_eq!(action, InboundAction::SendMessage("hi".to_owned()));
    let (_, action) = flow.step(InboundEvent::Succeeded);
    assert_eq!(action, InboundAction::Finish);
}

#[test]
fn session_workers_serialize_messages_for_same_key() {
    let mut table = WorkerTable::new();
    let (first, first_is_new) = table.worker_for_key("session-a");
    let (second, second_is_new) = table.worker_for_key("session-a");
    assert!(first_is_new);
    assert!(!second_is_new);
    assert_eq!(first, second);
    assert_eq!(table.worker_count(), 1);

    let mut lines = SessionLines::new();
    lines.queue("session-a", 1);
    lines.queue("session-a", 2);
    assert_eq!(lines.begin("session-a"), Some(1));
    assert_eq!(
        lines.begin("session-a"),
        None,
        "second message should not start before first is released"
    );
    lines.done("session-a");
    assert_eq!(lines.begin("session-a"), Some(2));
    lines.done("session-a");
    assert_eq!(lines.begin("session-a"), None);
}

#[test]
fn session_workers_run_different_keys_concurrently() {
    let mut table = WorkerTable::new();
    let (first, first_is_new) = table.worker_for_key("session-a");
    let (second, second_is_new) = table.worker_for_key("session-b");
    assert!(first_is_new && second_is_new);
    assert_ne!(first, second);
    assert_eq!(table.worker_count(), 2);

    let mut lines = SessionLines::new();
    lines.queue("session-a", 1);
    lines.queue("session-b", 2);
    assert_eq!(lines.begin("session-a"), Some(1));
    assert_eq!(
        lines.begin("session-b"),
        Some(2),
        "both session workers should run concurrently"
    );
}

#[test]
fn sessions_are_handled_in_order() {
    let mut lines = SessionLines::new();
    lines.done("s");
    assert_eq!(lines.begin("s"), None);
    for i in 0..5 {
        lines.queue("s", i);
        lines.queue("other", 10 + i);
    }
    let mut handled = Vec::new();
    while let Some(i) = lines.begin("s") {
        assert_eq!(lines.begin("s"), None);
        if i == 1 {
            lines.queue("s", 5);
        }
        handled.push(i);
        lines.done("s");
    }
    assert_eq!(handled, vec![0, 1, 2, 3, 4, 5]);
    assert_eq!(lines.begin("other"), Some(10));
}

#[test]
fn session_worker_expires_when_idle_and_respawns() {
    let mut table = WorkerTable::new();
    let (first, _) = table.worker_for_key("session-a");
    table.remove_worker_if_matches("session-a", first);
    assert_eq!(table.worker_count(), 0);
    let (second, is_new) = table.worker_for_key("session-a");
    assert!(is_new);
    assert_ne!(first, second);
    table.remove_worker_if_matches("session-a", first);
    assert_eq!(table.worker_count(), 1);
}

#[test]
fn a_message_is_offered_to_two_workers() {
    let mut table = WorkerTable::new();
    let (first, _) = table.worker_for_key("s");
    assert_eq!(table.after_attempt("s", first, 0, false), DispatchStep::Retry);
    let (second, is_new) = table.worker_for_key("s");
    assert!(is_new);
    assert_eq!(table.after_attempt("s", second, 1, false), DispatchStep::Dropped);
    let (third, _) = table.worker_for_key("s");
    assert_eq!(table.after_attempt("s", third, 0, true), DispatchStep::Queued);
    assert_eq!(table.worker_count(), 1);
}

fn sample_job(schedule: &str, last_fired_at: Option<Timestamp>) -> CronJob {
    CronJob {
        id: "job-1".to_owned(),
        agent_id: "agent-a".to_owned(),
        schedule: schedule.to_owned(),
        description: "runs".to_owned(),
        prompt: "run".to_owned(),
        guard_command: None,
        workspace_root: "/tmp".to_owned(),
        channel_id: "channel-1".to_owned(),
        guild_id: None,
        source_channel: "discord".to_owned(),
        is_dm: false,
        created_by: "owner".to_owned(),
        created_at: Timestamp { secs: 1_772_582_400, nanos: 0 },
        last_fired_at,
        guard_timeout_seconds: 10,
        enabled: true,
    }
}

fn minute_start() -> i64 {
    let since_epoch = std::time::SystemTime::now()
        .duration_since(std::time::UNIX_EPOCH)
        .expect("clock should be after epoch");
    let secs = since_epoch.as_secs() as i64;
    secs - secs % 60
}

#[test]
fn should_fire_when_interval_elapsed_since_last_fired() {
    let now = Timestamp { secs: minute_start() + 30, nanos: 0 };
    let last = Timestamp { secs: now.secs - 120, nanos: 0 };
    let job = sample_job("*/1 * * * *", Some(last));

    assert!(should_fire(&job, now));
}

#[test]
fn should_not_fire_when_already_fired_this_minute() {
    let now = Timestamp { secs: minute_start() + 30, nanos: 0 };
    let last = Timestamp { secs: minute_start() + 10, nanos: 0 };
    let job = sample_job("*/1 * * * *", Some(last));

    assert!(!should_fire(&job, now));
}

#[test]
fn should_fire_without_last_fired_when_schedule_matches_current_minute() {
    let aligned = minute_start();
    let job = sample_job("* * * * *", None);

    assert!(should_fire(&job, Timestamp { secs: aligned + 10, nanos: 0 }));
}

#[test]
fn jobs_with_invalid_schedules_never_fire() {
    let now = Timestamp { secs: minute_start() + 30, nanos: 0 };
    assert!(!should_fire(&sample_job("whenever", None), now));
    let (_, action) = JobTick::start(sample_job("whenever", None), now, 10, "t".to_owned());
    assert_eq!(action, TickAction::Finish(TickEnd::NotDue));
}

#[test]
fn ticks_run_guards_or_send() {
    let now = Timestamp { secs: minute_start() + 10, nanos: 0 };
    let (_, action) = JobTick::start(sample_job("* * * * *", None), now, 10, "t".to_owned());
    assert!(matches!(action, TickAction::Send(_)));
    let mut guarded = sample_job("* * * * *", None);
    guarded.guard_command = Some("test -f x".to_owned());
    match JobTick::start(guarded, now, 10, "t".to_owned()).1 {
        TickAction::RunGuard { command, workspace_root, .. } => {
            assert_eq!(command, "test -f x");
            assert_eq!(workspace_root, "/tmp");
        }
        other => panic!("guard should run: {other:?}"),
    }
    assert!(matches!(guard_result(GuardRun::Exited { success: true }, 10), Ok(true)));
    assert!(matches!(guard_result(GuardRun::Exited { success: false }, 10), Ok(false)));
    assert!(guard_result(GuardRun::TimedOut, 10).is_err());
    assert!(guard_result(GuardRun::FailedToStart("no bash".to_owned()), 10).is_err());
    assert_eq!(parse_source_channel("discord"), Some(GatewayChannelKind::Discord));
    assert_eq!(parse_source_channel("pigeon"), None);
    let message = inbound_for_job(&sample_job("* * * * *", None), "trace".to_owned())
        .expect("job should be sent");
    assert_eq!(message.content, "run");
    assert_eq!(message.trace_id, "trace");
    assert!(message.invoke);
}

fn guarded_tick() -> JobTick {
    let mut job = sample_job("* * * * *", None);
    job.guard_command = Some("test -f x".to_owned());
    job.guard_timeout_seconds = 0;
    let now = Timestamp { secs: minute_start(), nanos: 0 };
    let (tick, action) = JobTick::start_given(job, true, now, 0, "t".to_owned());
    assert_eq!(
        action,
        TickAction::RunGuard {
            command: "test -f x".to_owned(),
            workspace_root: "/tmp".to_owned(),
            timeout_seconds: 1,
        }
    );
    tick
}

#[test]
fn guards_hold_jobs_back() {
    let refused = TickEvent::Guarded(Ok(GuardRun::Exited { success: false }));
    assert_eq!(guarded_tick().step(refused).1, TickAction::Finish(TickEnd::Refused));
    let late = TickEvent::Guarded(Ok(GuardRun::TimedOut));
    assert_eq!(
        guarded_tick().step(late).1,
        TickAction::Finish(TickEnd::GuardFailed(FrameworkError::Tool(
            "cron guard command timed out after 1s".to_owned()
        )))
    );
    let unprepared = TickEvent::Guarded(Err(FrameworkError::Tool("no sandbox".to_owned())));
    assert_eq!(
        guarded_tick().step(unprepared).1,
        TickAction::Finish(TickEnd::GuardFailed(FrameworkError::Tool("no sandbox".to_owned())))
    );
    let passed = TickEvent::Guarded(Ok(GuardRun::Exited { success: true }));
    assert!(matches!(guarded_tick().step(passed).1, TickAction::Send(_)));
}

#[test]
fn jobs_are_marked_once_sent() {
    let now = Timestamp { secs: minute_start(), nanos: 0 };
    let job = sample_job("* * * * *", None);
    let id = job.id.clone();
    let (tick, _) = JobTick::start_given(job, true, now, 10, "t".to_owned());
    let (tick, action) = tick.step(TickEvent::Sent(true));
    assert_eq!(action, TickAction::MarkFired { job_id: id, at: now });
    assert_eq!(tick.step(TickEvent::Marked).1, TickAction::Finish(TickEnd::Fired));
    let job = sample_job("* * * * *", None);
    let (tick, _) = JobTick::start_given(job, true, now, 10, "t".to_owned());
    assert_eq!(tick.step(TickEvent::Sent(false)).1, TickAction::Finish(TickEnd::NotSent));
    let mut job = sample_job("* * * * *", None);
    job.source_channel = "pigeon".to_owned();
    let (_, action) = JobTick::start_given(job, true, now, 10, "t".to_owned());
    assert_eq!(action, TickAction::Finish(TickEnd::UnknownChannel));
}

#[test]
fn jobs_are_kept_in_rows() {
    let job = sample_job("* * * * *", Some(Timestamp { secs: 1_772_582_460, nanos: 7 }));
    let row = row_of_job(&job);
    assert_eq!(parse_row(row), Ok(sample_job(
        "* * * * *",
        Some(Timestamp { secs: 1_772_582_460, nanos: 7 }),
    )));
    let mut broken = row_of_job(&job);
    broken.created_at = "someday".to_owned();
    assert!(matches!(parse_row(broken), Err(RowError::CreatedAt(_))));
    let mut broken = row_of_job(&job);
    broken.last_fired_at = Some("someday".to_owned());
    assert!(matches!(parse_row(broken), Err(RowError::LastFiredAt(_))));
    let mut late = sample_job("* * * * *", None);
    late.created_at = Timestamp { secs: 253_402_300_800, nanos: 0 };
    assert_eq!(row_of_job(&late).created_at, "+10000-01-01T00:00:00+00:00");
}

#[test]
fn input_schema_avoids_conditional_keywords() {
    let tool = CronTool {
        config: CronToolConfig { max_jobs_per_agent: None, guard_timeout_seconds: None },
    };
    let schema = tool.input_schema_json();

    assert!(!schema.contains("\"allOf\""));
    assert!(!schema.contains("\"if\""));
    assert!(!schema.contains("\"then\""));
    assert_eq!(tool.name(), "cron");
}

fn cron_args(action: CronAction) -> CronArgs {
    CronArgs {
        action,
        schedule: Some("*/5 * * * *".to_owned()),
        description: Some("check".to_owned()),
        prompt: Some("look".to_owned()),
        guard_command: None,
        id: None,
        query: None,
    }
}

fn completion_route() -> CompletionRoute {
    CompletionRoute {
        trace_id: "t".to_owned(),
        source_channel: GatewayChannelKind::Discord,
        target_agent_id: "default".to_owned(),
        session_key: "s".to_owned(),
        source_message_id: Some("m".to_owned()),
        channel_id: "c".to_owned(),
        guild_id: Some("g".to_owned()),
        is_dm: false,
    }
}

#[test]
fn jobs_are_created_with_names_of_their_own() {
    let request = create_request(&cron_args(CronAction::Create), true).expect("request is good");
    let config = CronToolConfig { max_jobs_per_agent: Some(2), guard_timeout_seconds: None };
    let now = Timestamp { secs: 1_772_582_400, nanos: 0 };
    let job = new_job(
        request,
        config,
        &completion_route(),
        "default",
        "/work",
        "owner",
        1,
        now,
    )
    .expect("job should be created");
    assert_eq!(job.id.len(), 36);
    assert_eq!(job.channel_id, "c");
    assert!(created_json(&job).render().contains(&job.id));
    let again = create_request(&cron_args(CronAction::Create), true).expect("request is good");
    assert!(new_job(
        again,
        CronToolConfig { max_jobs_per_agent: Some(2), guard_timeout_seconds: None },
        &completion_route(),
        "default",
        "/work",
        "owner",
        2,
        now,
    )
    .is_err());
}

#[test]
fn jobs_want_schedules_prompts_and_a_route() {
    let mut args = cron_args(CronAction::Create);
    args.schedule = Some("sometimes".to_owned());
    assert!(create_request(&args, true).is_err());
    let mut args = cron_args(CronAction::Create);
    args.prompt = Some("  ".to_owned());
    assert!(create_request(&args, true).is_err());
    assert!(create_request(&cron_args(CronAction::Create), false).is_err());
    assert!(delete_id(&cron_args(CronAction::Delete)).is_err());
    let mut args = cron_args(CronAction::Delete);
    args.id = Some("job-1".to_owned());
    assert_eq!(delete_id(&args).expect("id is there"), "job-1");
    assert_eq!(parse_schedule("*/5 * * * *").expect("schedule is good"), "0 */5 * * * *");
    assert!(like_pattern("a%b").contains("a"));
}

#[test]
fn agent_workspace_memory_paths_uses_simpleclaw_memory_layout() {
    let workspace = std::path::PathBuf::from("/tmp/workspace");
    let (memory_dir, short_term_path, long_term_path) =
        agent_workspace_memory_paths("/tmp/workspace");
    let memory_dir = std::path::PathBuf::from(memory_dir);

    assert_eq!(memory_dir, workspace.join(".simpleclaw").join("memory"));
    assert_eq!(
        std::path::PathBuf::from(short_term_path),
        memory_dir.join("short_term_memory.db")
    );
    assert_eq!(
        std::path::PathBuf::from(long_term_path),
        memory_dir.join("long_term_memory.db")
    );
}

fn default_agent() -> AgentLoad {
    AgentLoad {
        id: "default".to_owned(),
        workspace: "/work".to_owned(),
        provider: None,
        memory: Ok(()),
        system_prompt: Ok("prompt".to_owned()),
        skill_tools: Ok(0),
    }
}

fn shared_settings() -> SharedSettings {
    SharedSettings {
        default_provider: "default".to_owned(),
        owner_ids: vec!["owner".to_owned()],
        app_base_dir: "/base".to_owned(),
        safe_error_reply: "Sorry, something went wrong.".to_owned(),
    }
}

fn providers(include_default: bool) -> ProviderFactory<u8> {
    ProviderFactory::from_parts(if include_default {
        vec![("default".to_owned(), 1u8, true)]
    } else {
        Vec::new()
    })
}

#[test]
fn assemble_runtime_state_builds_runtime_directory_and_safe_reply() {
    let agents = vec![default_agent()];
    let state = assemble_runtime_state(&agents, &shared_settings(), &providers(true))
        .expect("runtime state should assemble");

    assert_eq!(state.runtimes.len(), 1);
    assert!(state.config("default").is_some());
    assert_eq!(state.safe_error_reply, shared_settings().safe_error_reply);
    let config = state.config("default").expect("agent should run");
    assert!(agents[config.place].memory.is_ok());
    assert_eq!(config.agent_id, "default");
    assert_eq!(config.provider_key, "default");
    assert_eq!(config.system_prompt, "prompt");
    assert_eq!(config.owner_ids, vec!["owner".to_owned()]);
    assert_eq!(config.workspace_root, "/work");
    assert_eq!(config.app_base_dir, "/base");
    assert!(state.config("other").is_none());
}

#[test]
fn every_agent_runs_once() {
    let mut other = default_agent();
    other.id = "other".to_owned();
    let mut again = default_agent();
    again.system_prompt = Ok("second prompt".to_owned());
    let agents = vec![default_agent(), other, again];
    let state = assemble_runtime_state(&agents, &shared_settings(), &providers(true))
        .expect("runtime state should assemble");
    assert_eq!(state.runtimes.len(), 2);
    let config = state.config("default").expect("agent should run");
    assert_eq!(config.place, 2);
    assert_eq!(config.system_prompt, "second prompt");
    assert_eq!(state.config("other").expect("agent should run").place, 1);
}

#[test]
fn assemble_runtime_state_rejects_empty_provider_key() {
    let mut agent = default_agent();
    agent.provider = Some("   ".to_owned());
    let err = assemble_runtime_state(&vec![agent], &shared_settings(), &providers(true))
        .err()
        .expect("empty provider key should fail");

    assert!(err.message().contains("empty provider key"));
}

#[test]
fn assemble_runtime_state_rejects_missing_provider_registration() {
    let err = assemble_runtime_state(&vec![default_agent()], &shared_settings(), &providers(false))
        .err()
        .expect("missing provider should fail");

    assert!(err.message().contains("unknown provider key 'default'"));
}

#[test]
fn assembling_looks_at_memories_first() {
    let mut keyless = default_agent();
    keyless.provider = Some(String::new());
    let mut forgetful = default_agent();
    forgetful.memory = Err("no disk".to_owned());
    let err = assemble_runtime_state(&vec![keyless, forgetful], &shared_settings(), &providers(true))
        .err()
        .expect("memory should fail");
    assert!(err.message().contains("no disk"));
    let mut promptless = default_agent();
    promptless.system_prompt = Err("gone".to_owned());
    let err = assemble_runtime_state(&vec![promptless], &shared_settings(), &providers(true))
        .err()
        .expect("prompt should fail");
    assert!(err.message().contains("failed to assemble layered system prompt for agent 'default'"));
    let mut unskilled = default_agent();
    unskilled.skill_tools = Err("gone".to_owned());
    let err = assemble_runtime_state(&vec![unskilled], &shared_settings(), &providers(true))
        .err()
        .expect("skills should fail");
    assert!(err.message().contains("failed to load skill tools for agent 'default'"));
}

#[test]
fn prune_daily_logs_keeps_latest_two_days() {
    let day = |day: u32| LogDay { year: 2026, month: 3, day };
    let first = dated_log_name(Some("service.log"), day(4));
    let second = dated_log_name(Some("service.log"), day(5));
    let third = dated_log_name(Some("service.log"), day(6));
    assert_eq!(first, "service.log.2026-03-04");

    let removed = prune_daily_logs(
        "service.log",
        &vec![third.clone(), first.clone(), "service.log".to_owned(), second.clone()],
        2,
    );

    assert!(removed.contains(&first));
    assert!(!removed.contains(&second));
    assert!(!removed.contains(&third));
    assert_eq!(removed, vec![first]);
}

#[test]
fn collect_log_history_orders_days_then_active() {
    let old = dated_log_name(Some("x.log"), LogDay { year: 2026, month: 3, day: 5 });
    let new = dated_log_name(Some("x.log"), LogDay { year: 2026, month: 3, day: 6 });

    let history = collect_log_history(
        "x.log",
        &vec!["x.log".to_owned(), new.clone(), "x.log.notes".to_owned(), old.clone()],
        true,
    );
    assert_eq!(history, vec![old, new, "x.log".to_owned()]);
    assert!(collect_log_history("y.log", &vec!["x.log".to_owned()], false).is_empty());
}

#[test]
fn logs_are_put_away_when_a_day_ends() {
    let day = |day: u32| LogDay { year: 2026, month: 3, day };
    assert_eq!(stale_day(true, 10, day(4), day(5)), Some(day(4)));
    assert_eq!(stale_day(true, 0, day(4), day(5)), None);
    assert_eq!(stale_day(false, 10, day(4), day(5)), None);
    assert_eq!(stale_day(true, 10, day(5), day(5)), None);
    assert_eq!(rotate_step(false, true), RotateStep::Nothing);
    assert_eq!(rotate_step(true, true), RotateStep::Append);
    assert_eq!(rotate_step(true, false), RotateStep::Rename);
    let mut state = RotatingLogState { current_day: day(4), retain_daily_files: 2 };
    assert_eq!(state.rotate_if_needed(day(4)), None);
    assert_eq!(state.rotate_if_needed(day(5)), Some(day(4)));
    state.rotated(day(5));
    assert_eq!(state.rotate_if_needed(day(5)), None);
    assert_eq!(dated_log_name(None, day(1)), "service.log.2026-03-01");
}

#[test]
fn the_service_is_started_once() {
    assert_eq!(read_pid(&None), PidFile::Missing);
    assert_eq!(read_pid(&Some("  42\n".to_owned())), PidFile::Pid(42));
    assert_eq!(read_pid(&Some("x".to_owned())), PidFile::Malformed);
    assert_eq!(read_pid(&Some("4294967296".to_owned())), PidFile::Malformed);
    assert_eq!(pid_line(42), "42\n");
    assert_eq!(
        start_step(Some(42), true),
        StartStep::AlreadyRunning("service already running (pid 42)".to_owned())
    );
    assert_eq!(start_step(Some(42), false), StartStep::Launch { remove_stale: true });
    assert_eq!(start_step(None, false), StartStep::Launch { remove_stale: false });
    let lines = started_lines(7, "/p", "/l", "/j");
    assert_eq!(
        lines,
        vec!["service started (pid 7)", "pid file: /p", "log file: /l", "json log file: /j"]
    );
}

#[test]
fn the_service_is_stopped_gently_first() {
    assert_eq!(
        stop_step(StopState::Asked, None, true),
        StopAction::Done { remove_pid_file: false, said: "service is not running" }
    );
    assert_eq!(
        stop_step(StopState::Asked, Some(7), true),
        StopAction::Done {
            remove_pid_file: true,
            said: "service is not running (removed stale pid file)",
        }
    );
    assert_eq!(
        stop_step(StopState::Asked, Some(7), false),
        StopAction::Terminate { pid: 7, wait_ms: 5000 }
    );
    assert_eq!(
        stop_step(StopState::Terminated, Some(7), false),
        StopAction::Kill { pid: 7, wait_ms: 2000 }
    );
    assert_eq!(
        stop_step(StopState::Terminated, Some(7), true),
        StopAction::Done { remove_pid_file: true, said: "service stopped" }
    );
    assert_eq!(
        stop_step(StopState::Killed, Some(7), true),
        StopAction::Done { remove_pid_file: true, said: "service stopped (forced)" }
    );
    assert_eq!(
        stop_step(StopState::Killed, Some(7), false),
        StopAction::Fail { said: "service did not stop after termination attempts" }
    );
    assert_eq!(exit_polls(5000), 50);
}

#[test]
fn the_status_is_told_line_by_line() {
    assert_eq!(
        status_lines(Some(7), true, "/s", "/p", "/l", "/j", Some(12)),
        vec![
            "status: running",
            "pid: 7",
            "state dir: /s",
            "pid file: /p",
            "log file: /l",
            "json log file: /j",
            "log size: 12 bytes",
        ]
    );
    assert_eq!(
        status_lines(Some(7), false, "/s", "/p", "/l", "/j", None)[0],
        "status: stopped (stale pid file)"
    );
    assert_eq!(status_lines(None, false, "/s", "/p", "/l", "/j", None)[0], "status: stopped");
    assert_eq!(follow_from(10, 4), (0, true));
    assert_eq!(follow_from(4, 4), (4, false));
    assert_eq!(follow_from(4, 10), (4, true));
    assert_eq!(MemoryMode::Both.memory_mode_name(), "both");
    assert!(MemoryMode::Short.shows_short() && !MemoryMode::Short.shows_long());
    assert!(MemoryMode::Long.shows_long() && !MemoryMode::Long.shows_short());
    let ids = vec!["a".to_owned(), "b".to_owned()];
    assert_eq!(resolve_agent(&ids, "b"), Ok(1));
    assert_eq!(
        resolve_agent(&ids, "c"),
        Err("unknown agent id 'c'. configured agents: a, b".to_owned())
    );
}

#[test]
fn build_runtime_config_disables_network_by_default() {
    let sandbox = SandboxPolicy::default();
    let cfg = build_runtime_config("/tmp/work", &sandbox);
    assert_eq!(cfg.allowed_domains, vec!["sandbox.invalid".to_owned()]);
}

#[test]
fn build_runtime_config_allows_network_when_enabled() {
    let sandbox = SandboxPolicy { network_enabled: true, ..Default::default() };
    let cfg = build_runtime_config("/tmp/work", &sandbox);
    assert!(cfg.allowed_domains.is_empty());
}

#[test]
fn build_write_allow_paths_includes_workspace_tmp_and_extra() {
    let sandbox = SandboxPolicy {
        extra_writable_paths: vec!["/var/tmp/simpleclaw-extra".to_owned()],
        ..Default::default()
    };
    let paths = build_write_allow_paths("/tmp/work", &sandbox);
    assert_eq!(paths[0], "/tmp/work");
    assert_eq!(paths[1], "/tmp");
    assert_eq!(paths[2], "/var/tmp/simpleclaw-extra");
    assert_eq!(paths.len(), 3);
}

#[test]
fn resolve_guest_artifact_path_errors_for_missing_module() {
    let candidates = artifact_candidates(
        "definitely_missing.wasm",
        None,
        None,
        "/tmp/simpleclaw_missing_artifact",
    );
    let is_file = vec![false; candidates.len()];
    let err = resolve_guest_artifact_path("definitely_missing.wasm", &candidates, &is_file)
        .expect_err("missing artifact should return error");
    assert!(err.message().contains("missing wasm artifact"));
}

#[test]
fn commands_on_the_host_end_in_results() {
    let done = host_run_result(
        HostOutcome::Completed { stdout: "o".to_owned(), stderr: "e".to_owned(), code: None },
        10,
    )
    .expect("command should end");
    assert_eq!(done.exit_code, -1);
    assert!(!done.sandbox_violated);
    assert!(host_run_result(HostOutcome::TimedOut, 10).is_err());
    assert!(host_run_result(HostOutcome::Failed("no".to_owned()), 10).is_err());
    assert!(matches!(guest_exit_code(GuestEnd::Returned, "m"), Ok(0)));
    assert!(matches!(guest_exit_code(GuestEnd::Exited(3), "m"), Ok(3)));
    assert!(guest_exit_code(GuestEnd::Failed("trap".to_owned()), "m").is_err());
}

#[test]
fn test_agents_are_built_step_by_step() {
    let agent = TestAgentConfig::new("a", "A", "default", Vec::new())
        .with_exec_tool(Some(3), true, false)
        .with_list_tool(true)
        .with_grep_tool(false)
        .with_glob_tool(true)
        .with_summon_allowed(vec!["b".to_owned()])
        .with_task_worker_max_steps(Some(2))
        .with_provider_key("other");
    let exec = agent.agent_config.tools.exec_tool.expect("exec is set");
    assert_eq!(exec.timeout_seconds, Some(3));
    assert!(exec.allow_background && !exec.sandbox.enabled);
    assert!(agent.agent_config.tools.list.expect("list is set").sandbox.enabled);
    assert!(!agent.agent_config.tools.grep.expect("grep is set").sandbox.enabled);
    assert!(agent.agent_config.tools.glob.expect("glob is set").sandbox.enabled);
    assert_eq!(
        agent.agent_config.tools.summon.expect("summon is set").allowed,
        vec!["b".to_owned()]
    );
    assert_eq!(agent.agent_config.tools.task.expect("task is set").worker_max_steps, Some(2));
    assert_eq!(agent.provider_key, "other");
    assert_eq!(agent.agent_config.provider.as_deref(), Some("other"));
}

#[test]
fn scripts_are_followed_and_results_noted() {
    let mut config = TestHarnessConfig::default();
    config.scripted_tool_call = Some(ScriptedToolCall {
        id: None,
        name: "exec".to_owned(),
        args_json: "{}".to_owned(),
    });
    config.exec_timeout_seconds = Some(9);
    let first = first_inbound(&config, "trace");
    assert_eq!(first.session_key, "agent:default:discord:integration-channel");
    let mut agents = effective_agents(config);
    assert_eq!(agents.len(), 1);
    let agent = agents.remove(0);
    assert_eq!(agent.provider_key, "default");
    let mut provider = ScriptedProvider::new(agent.script);
    let call = provider.generate(&Vec::new()).expect("first turn should answer");
    assert_eq!(call.tool_calls[0].name, "exec");
    let history = vec![Message::tool_results(vec![ToolResult {
        call_id: None,
        name: "exec".to_owned(),
        response: Json::text("done"),
    }])];
    let reply = provider.generate(&history).expect("second turn should answer");
    assert_eq!(reply.output_text.as_deref(), Some("mock reply"));
    assert!(provider.saw_tool_result());
    let again = provider.generate(&Vec::new()).expect("the last step should go on");
    assert_eq!(again.output_text.as_deref(), Some("mock reply"));
    assert_eq!(provider.call_count, 3);
    let mut failing = ScriptedProvider::new(vec![ProviderScriptStep::Error("boom".to_owned())]);
    assert!(failing.generate(&Vec::new()).is_err());
    let mut silent = ScriptedProvider::new(Vec::new());
    assert_eq!(
        silent.generate(&Vec::new()).expect("no script should answer").output_text.as_deref(),
        Some("")
    );
}

#[test]
fn captured_messages_can_be_changed() {
    let mut channel = CaptureChannel::new();
    channel.send_message("c", "one");
    let id = channel.send_message_with_id("c", "two");
    assert_eq!(id, "test-msg-0");
    channel.edit_message("c", &id, "two, changed");
    channel.edit_message("c", "unknown", "three");
    let contents: Vec<&str> = channel.outbound.iter().map(|m| m.content.as_str()).collect();
    assert_eq!(contents, vec!["one", "two, changed", "three"]);
    let paths = EphemeralPaths::below("/tmp", 5, 6);
    assert_eq!(paths.short_term_db_path, "/tmp/simpleclaw_integration_5_6/db/short.db");
    assert_eq!(paths.memory_of("x", "y").0, "/tmp/simpleclaw_integration_5_6/db/x_short.db");
    assert_eq!(paths.memory_of("y", "y").1, "/tmp/simpleclaw_integration_5_6/db/long.db");
}

#[test]
fn violations_never_count_as_ending_well() {
    assert_eq!(waited_code(WaitEnd::Exited { code: Some(0) }), Some(0));
    assert_eq!(waited_code(WaitEnd::Exited { code: None }), None);
    assert_eq!(waited_code(WaitEnd::Violated { code: Some(7) }), Some(7));
    assert_eq!(waited_code(WaitEnd::Violated { code: Some(0) }), Some(-1));
    assert_eq!(waited_code(WaitEnd::Violated { code: None }), Some(-1));
    assert_eq!(waited_code(WaitEnd::Failed("gone".to_owned())), None);
}
