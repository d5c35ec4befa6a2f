//! The tools: what they ask for, what they refuse and what they answer.
use simpleclaw::channels::CompletionRoute;
use simpleclaw::config::{ExecToolConfig, FileToolConfig, GatewayChannelKind, ToolSandboxConfig};
use simpleclaw::error::{FrameworkError, SandboxCapability};
use simpleclaw::json::Json;
use simpleclaw::paths;
use simpleclaw::paths::NormalPath;
use simpleclaw::sandbox::build_write_allow_paths;
use simpleclaw::time::Timestamp;
use simpleclaw::tools::async_tool_manager::{
    completion_message, snapshot_to_json, tail_start, AsyncToolRunDetails, AsyncToolRunManager,
    AsyncToolRunStatus, KillStep, ProcessRunState, MAX_COMPLETED,
};
use simpleclaw::tools::catalog::{
    builtin_tools, exec_output, register_builtin_tools, summarize_duckduckgo_value, RegisteredKind,
    Tool, ToolConfig, ToolCtx, ToolRegistry, ToolRequest,
};
use simpleclaw::tools::clock::ClockTool;
use simpleclaw::tools::common::{
    command_output_to_json, parse_background_args, parse_exec_args, parse_forget_args,
    parse_memorize_args, parse_memory_action, parse_memory_args, parse_process_args, parse_react_args,
    parse_simple_text_arg, parse_summon_args, parse_summon_request, parse_task_args,
    parse_task_request, parse_wait_args, truncate_for_tool_output, ExecArgs, MemoryAction,
    ToolExecutionKind,
};
use simpleclaw::tools::delegate::{SummonTool, SummonToolConfig, TaskTool, TaskToolConfig};
use simpleclaw::tools::edit;
use simpleclaw::tools::edit::{apply_edit, edit_outcome, EditArgs, EditTool};
use simpleclaw::tools::exec::{
    allowed_write_roots, command_uses_ambiguous_shell_features, existing_depth,
    tokenize_shell_command, with_true_ancestor, ExecTool, ExecToolRoute, Preflight, ShellTokenKind,
    WriteCheck,
};
use simpleclaw::tools::file_access::{
    classify_file_tool_access, classify_wasm_tool_error, expand_env_vars, guest_result,
    remap_guest_path_to_host, resolve_path_for_read, runner_for, FileEnv, FileToolRoute, Runner,
};
use simpleclaw::tools::glob;
use simpleclaw::tools::glob::{run_glob, GlobArgs, GlobTool};
use simpleclaw::tools::grep;
use simpleclaw::tools::grep::{run_grep, GrepArgs, GrepTool, SearchFile};
use simpleclaw::tools::list;
use simpleclaw::tools::list::{ListArgs, ListEntry, ListTool, ListWalk};
use simpleclaw::tools::memory::{
    render_facts, render_hits, ForgetMatch, ForgetResult, ForgetTool, LongTermFact, MemorizeResult,
    MemorizeTool, MemoryTool, MemoryToolConfig,
};
use simpleclaw::tools::react::ReactTool;
use simpleclaw::tools::read;
use simpleclaw::tools::read::{
    render_directory_output, render_file_output, ReadArgs, ReadTool,
};
use simpleclaw::tools::runs::{runs_answer, BackgroundTool, ProcessTool, RunRequest, WaitTool};
use simpleclaw::tools::search::{EntryKind, Walk, WalkEntry};
use simpleclaw::tools::web_fetch::{
    checked_url, render_fetch_response, WebFetchTool, WebFetchToolConfig,
};
use simpleclaw::tools::web_search::{
    brave_status, map_brave_results, map_duckduckgo_results, parse_duckduckgo_text, push_result,
    BraveWebResult, SearchService, WebSearchOutput, WebSearchProvider, WebSearchResult,
    WebSearchTool, WebSearchToolRuntimeConfig,
};

fn at(secs: i64) -> Timestamp {
    Timestamp { secs, nanos: 0 }
}

fn json(input: &str) -> Json {
    Json::parse(input).expect("document should parse")
}

fn process(command: &str) -> ProcessRunState {
    ProcessRunState {
        command: command.to_owned(),
        pid: Some(17),
        stdout_path: "/tmp/out".to_owned(),
        stderr_path: "/tmp/err".to_owned(),
        exit_code: None,
    }
}

#[test]
fn completion_watcher_marks_background_process_complete_without_route() {
    let mut manager = AsyncToolRunManager::new();
    let run_id = manager.next_run_id(1_000);
    let (started, dropped) = manager.start_process(
        &run_id,
        "exec",
        "default",
        "session-1",
        process("echo hello"),
        at(1),
    );
    assert!(dropped.is_empty());
    manager.mark_process_completed(&started.run_id, Some(0), at(2));
    let entry = manager.get(&started.run_id).expect("get should succeed");
    let snapshot = entry.snapshot("hello\n".to_owned(), String::new());
    assert_eq!(snapshot.status, AsyncToolRunStatus::Completed);
    assert_eq!(snapshot.finished_at, Some(at(2)));
    let shown = snapshot_to_json(&snapshot).render();
    assert!(shown.contains("echo hello"));
    assert!(shown.contains("\"stdout\":\"hello\""));
}

#[test]
fn list_for_session_excludes_other_sessions() {
    let mut manager = AsyncToolRunManager::new();
    let first = manager.next_run_id(1_000);
    let second = manager.next_run_id(1_000);
    assert_ne!(first, second);
    manager.start_process(
        &first,
        "exec",
        "agent-a",
        "session-a",
        process("echo hello"),
        at(1),
    );
    manager.start_process(
        &second,
        "exec",
        "agent-a",
        "session-b",
        process("echo hello"),
        at(1),
    );

    let items = manager.list_for_session("agent-a", "session-a");
    assert_eq!(items.len(), 1);
    assert_eq!(manager.runs[items[0]].run_id, first);
    assert!(manager.get_for_session(&second, "agent-a", "session-a").is_err());
}

#[test]
fn delegated_runs_appear_in_list_and_capture_reply() {
    let mut manager = AsyncToolRunManager::new();
    let run_id = manager.next_run_id(1_000);
    let (started, _) = manager.start_delegated(
        &run_id,
        "task",
        "do delegated work",
        "agent-a",
        "session-a",
        at(1),
    );
    assert_eq!(manager.list_for_session("agent-a", "session-a").len(), 1);
    manager.mark_delegated_completed(&started.run_id, &Ok("done".to_owned()), at(2));

    let snapshot = manager
        .get(&started.run_id)
        .expect("snapshot should exist")
        .snapshot(String::new(), String::new());
    assert_eq!(snapshot.status, AsyncToolRunStatus::Completed);
    let AsyncToolRunDetails::Delegated(details) = snapshot.details else {
        panic!("delegated run should return delegated details");
    };
    assert_eq!(details.reply.as_deref(), Some("done"));
}

#[test]
fn delegated_runs_cannot_be_killed() {
    let mut manager = AsyncToolRunManager::new();
    let run_id = manager.next_run_id(1_000);
    let (started, _) =
        manager.start_delegated(&run_id, "summon", "handoff", "agent-a", "session-a", at(1));

    let err = manager
        .kill_for_session(&started.run_id, "agent-a", "session-a")
        .err()
        .expect("kill should fail for delegated runs");
    assert!(err.message().contains("background run kind does not support kill"));
}

#[test]
fn wait_for_session_returns_completed_snapshot() {
    let mut manager = AsyncToolRunManager::new();
    let run_id = manager.next_run_id(1_000);
    let (started, _) = manager.start_delegated(
        &run_id,
        "task",
        "do delegated work",
        "agent-a",
        "session-a",
        at(1),
    );
    let ids = vec![started.run_id.clone()];
    manager.claim_runs(&ids, "agent-a", "session-a").expect("claim should succeed");
    assert!(!manager.should_reinject(&started.run_id));
    assert_eq!(
        manager.still_running(&ids, "agent-a", "session-a").expect("wait should succeed"),
        ids
    );
    manager.mark_delegated_completed(&started.run_id, &Ok("done".to_owned()), at(2));
    let running =
        manager.still_running(&ids, "agent-a", "session-a").expect("wait should succeed");
    assert!(running.is_empty());
    manager.unclaim_runs(&running);
    assert!(!manager.should_reinject(&started.run_id));
    let snapshot = manager
        .get(&started.run_id)
        .expect("snapshot should exist")
        .snapshot(String::new(), String::new());
    assert_eq!(snapshot.status, AsyncToolRunStatus::Completed);
}

#[test]
fn ended_runs_do_not_change() {
    let mut manager = AsyncToolRunManager::new();
    let run_id = manager.next_run_id(1_000);
    manager.start_process(&run_id, "exec", "a", "s", process("sleep 9"), at(1));
    assert!(matches!(
        manager.kill_for_session(&run_id, "a", "s"),
        Ok(KillStep::Kill(Some(17)))
    ));
    manager.mark_killed(&run_id, at(2));
    manager.mark_process_completed(&run_id, Some(0), at(3));
    let entry = manager.get(&run_id).expect("run should be kept");
    assert_eq!(entry.status, AsyncToolRunStatus::Killed);
    assert_eq!(entry.finished_at, Some(at(2)));
    assert!(matches!(manager.kill_for_session(&run_id, "a", "s"), Ok(KillStep::Done)));
    assert!(manager.kill_for_session("missing", "a", "s").is_err());
}

#[test]
fn only_ended_runs_are_dropped() {
    let mut manager = AsyncToolRunManager::new();
    for i in 0..(MAX_COMPLETED as i64 + 2) {
        let run_id = manager.next_run_id(1_000);
        manager.start_process(&run_id, "exec", "a", "s", process("true"), at(i));
    }
    assert_eq!(manager.runs.len(), MAX_COMPLETED + 2);
    let first = manager.runs[0].run_id.clone();
    let ids: Vec<String> = manager.runs[1..].iter().map(|run| run.run_id.clone()).collect();
    for (i, id) in ids.iter().enumerate() {
        manager.mark_process_completed(id, Some(0), at(500 + i as i64));
    }
    let run_id = manager.next_run_id(1_000);
    let (_, files) = manager.start_process(&run_id, "exec", "a", "s", process("true"), at(900));
    assert_eq!(files, vec!["/tmp/out".to_owned(), "/tmp/err".to_owned()]);
    assert!(manager.get(&ids[0]).is_err());
    assert!(manager.get(&ids[1]).is_ok());
    assert!(manager.get(&first).is_ok());
    assert!(manager.get(&run_id).is_ok());
}

#[test]
fn newest_runs_are_listed_first() {
    let mut manager = AsyncToolRunManager::new();
    for (id, session, second) in [("a", "s", 5), ("b", "s", 9), ("c", "t", 7), ("d", "s", 7)] {
        manager.start_process(id, "exec", "agent", session, process("true"), at(second));
    }
    let listed: Vec<&str> = manager
        .list_for_session("agent", "s")
        .into_iter()
        .map(|i| manager.runs[i].run_id.as_str())
        .collect();
    assert_eq!(listed, vec!["b", "d", "a"]);
    assert!(manager.list_for_session("other", "s").is_empty());
}

#[test]
fn process_lists_show_processes_only() {
    let mut manager = AsyncToolRunManager::new();
    manager.start_process("a", "exec", "agent", "s", process("true"), at(1));
    manager.start_delegated("b", "task", "work", "agent", "s", at(2));
    manager.start_process("c", "exec", "agent", "t", process("true"), at(3));
    manager.start_process("d", "exec", "agent", "s", process("true"), at(4));
    let ids = |places: Vec<usize>| -> Vec<String> {
        places.into_iter().map(|place| manager.runs[place].run_id.clone()).collect()
    };
    assert_eq!(ids(manager.list_for_session("agent", "s")), ["d", "b", "a"]);
    assert_eq!(ids(manager.list_processes_for_session("agent", "s")), ["d", "a"]);
    assert_eq!(ids(manager.list()), ["d", "c", "b", "a"]);
    assert_eq!(ids(manager.list_processes()), ["d", "c", "a"]);
}

#[test]
fn runs_of_any_session_can_be_cancelled_and_forgotten() {
    let mut manager = AsyncToolRunManager::new();
    manager.start_process("a", "exec", "agent", "s", process("true"), at(1));
    manager.start_delegated("b", "task", "work", "agent", "t", at(2));
    assert_eq!(manager.cancel("a"), Ok(KillStep::Kill(Some(17))));
    assert_eq!(
        manager.cancel("b"),
        Err(FrameworkError::Tool("background run kind does not support kill".to_owned()))
    );
    manager.mark_killed("a", at(3));
    assert_eq!(manager.cancel("a"), Ok(KillStep::Done));
    let forgotten = manager.forget("a").expect("run should be known");
    assert_eq!(forgotten.run_id, "a");
    assert_eq!(manager.runs.len(), 1);
    let unknown = FrameworkError::Tool("unknown async tool run_id: a".to_owned());
    assert_eq!(manager.cancel("a"), Err(unknown.clone()));
    assert_eq!(manager.forget("a"), Err(unknown));
    assert_eq!(manager.runs.len(), 1);
}

#[test]
fn tools_that_come_along_are_listed() {
    let names: Vec<&str> = builtin_tools().into_iter().map(|tool| tool.name()).collect();
    assert_eq!(
        names,
        [
            "memory",
            "memorize",
            "forget",
            "summon",
            "task",
            "exec",
            "process",
            "read",
            "edit",
            "web_search",
            "web_fetch",
            "clock"
        ]
    );
    let kinds: Vec<RegisteredKind> = builtin_tools().into_iter().map(|tool| tool.kind()).collect();
    assert_eq!(kinds[0], RegisteredKind::Direct);
    assert_eq!(kinds[3], RegisteredKind::Summon);
    assert_eq!(kinds[8], RegisteredKind::Edit);
}

#[test]
fn searches_are_answered_as_documents() {
    let output = WebSearchOutput {
        provider: "brave".to_owned(),
        query: "say \"hi\"".to_owned(),
        total_results_returned: 2,
        results: vec![
            WebSearchResult {
                title: "A".to_owned(),
                url: "https://a".to_owned(),
                description: "first".to_owned(),
                age: Some("1 day".to_owned()),
            },
            WebSearchResult {
                title: "B".to_owned(),
                url: "https://b".to_owned(),
                description: "second".to_owned(),
                age: None,
            },
        ],
    };
    assert_eq!(
        output.render(),
        concat_lines(&[
            r#"{"provider":"brave","query":"say \"hi\"","total_results_returned":2,"results":["#,
            r#"{"title":"A","url":"https://a","description":"first","age":"1 day"},"#,
            r#"{"title":"B","url":"https://b","description":"second"}]}"#,
        ])
    );
    assert_eq!(json(&output.render()).render(), output.document().render());
    let results = output.document();
    let second = &results.array_at("results").expect("results should be listed")[1];
    assert!(second.get("age").is_none());
    assert_eq!(second.text_at("title"), Some("B"));
}

fn concat_lines(lines: &[&str]) -> String {
    lines.concat()
}

#[test]
fn guests_run_where_the_sandbox_is_on() {
    let place = |enabled: bool| ToolSandboxConfig { enabled, ..ToolSandboxConfig::default() };
    let inside = guest_path_of("/tmp/ws/a", "/tmp/ws", "/tmp/p", &ToolSandboxConfig::default());
    let outside = guest_path_of("/etc/a", "/tmp/ws", "/tmp/p", &ToolSandboxConfig::default());
    assert_eq!(runner_for(&place(true), &inside), Ok(Runner::Guest));
    assert_eq!(runner_for(&place(false), &inside), Ok(Runner::Host));
    assert_eq!(runner_for(&place(false), &outside), Ok(Runner::Host));
    let refused = runner_for(&place(true), &outside).expect_err("path should be refused");
    assert!(refused.message().contains("target is outside the configured sandbox roots"));
}

#[test]
fn memory_actions_are_told_apart() {
    assert_eq!(
        parse_memory_action(r#"{"action":"list","kind":" project ","limit":3}"#),
        MemoryAction::List { kind: Some("project".to_owned()), limit: Some(3) }
    );
    assert_eq!(
        parse_memory_action(r#"{"action":"list"}"#),
        MemoryAction::List { kind: None, limit: None }
    );
    assert_eq!(
        parse_memory_action(r#"{"query":"bananas","top_k":0}"#),
        MemoryAction::Query { query: "bananas".to_owned(), top_k: Some(1) }
    );
    assert_eq!(
        parse_memory_action("bananas"),
        MemoryAction::Query { query: "bananas".to_owned(), top_k: None }
    );
}

#[test]
fn completed_runs_are_told_to_the_agent() {
    let mut manager = AsyncToolRunManager::new();
    let run_id = manager.next_run_id(1_000);
    manager.start_process(&run_id, "exec", "a", "s", process("true"), at(1));
    let content = manager.completion_content_for_process(&run_id, Some(3));
    assert!(content.contains(&run_id));
    let delegated = manager.next_run_id(1_000);
    manager.start_delegated(&delegated, "task", "work", "a", "s", at(1));
    let failed: Result<String, FrameworkError> = Err(FrameworkError::Tool("broke".to_owned()));
    assert!(manager.completion_content_for_delegated(&delegated, &failed).contains("broke"));
    let message = completion_message(route(), content.clone());
    assert_eq!(message.content, content);
    assert_eq!(message.user_id, "system");
    assert_eq!(tail_start(10, 4), 6);
    assert_eq!(tail_start(3, 4), 0);
}

fn route() -> CompletionRoute {
    CompletionRoute {
        trace_id: "t".to_owned(),
        source_channel: GatewayChannelKind::Discord,
        target_agent_id: "default".to_owned(),
        session_key: "s".to_owned(),
        source_message_id: Some("m".to_owned()),
        channel_id: "c".to_owned(),
        guild_id: None,
        is_dm: false,
    }
}

#[test]
fn summarize_prefers_abstract_text() {
    let payload = json(
        r#"{
            "Heading": "Rust",
            "AbstractText": "Rust is a systems programming language.",
            "Results": [{"Text": "ignored result"}],
            "RelatedTopics": [{"Text": "ignored topic"}]
        }"#,
    );

    let summary = summarize_duckduckgo_value(&payload);
    assert_eq!(summary, "Rust\nRust is a systems programming language.");
}

#[test]
fn summarize_uses_results_when_abstract_missing() {
    let payload = json(
        r#"{
            "Heading": "",
            "AbstractText": "",
            "Results": [
                {"Text": "Result one"},
                {"Text": "Result two"}
            ],
            "RelatedTopics": []
        }"#,
    );

    let summary = summarize_duckduckgo_value(&payload);
    assert_eq!(summary, "Result one\nResult two");
}

#[test]
fn summarize_falls_back_to_related_topics() {
    let payload = json(
        r#"{
            "Heading": "",
            "AbstractText": "",
            "Results": [],
            "RelatedTopics": [
                {"Text": "Topic one"},
                {"Topics": [{"Text": "Nested topic two"}]}
            ]
        }"#,
    );

    let summary = summarize_duckduckgo_value(&payload);
    assert_eq!(summary, "Topic one\nNested topic two");
}

#[test]
fn summarize_returns_fallback_when_no_content_available() {
    let payload = json(
        r#"{
            "Heading": "",
            "AbstractText": "",
            "Results": [],
            "RelatedTopics": []
        }"#,
    );

    let summary = summarize_duckduckgo_value(&payload);
    assert_eq!(summary, "no search summary available");
}

#[test]
fn builtin_parse_exec_args_accepts_yield_ms_camel_case() {
    let args = parse_exec_args(r#"{"command":"sleep 1","background":true,"yieldMs":1234}"#);
    assert_eq!(args.command, "sleep 1");
    assert!(args.background);
    assert_eq!(args.yield_ms, 1234);
}

#[test]
fn builtin_parse_process_args_accepts_session_id_camel_case() {
    let args = parse_process_args(r#"{"action":"poll","sessionId":"abc"}"#);
    assert_eq!(args.action, "poll");
    assert_eq!(args.session_id.as_deref(), Some("abc"));
}

#[test]
fn common_parse_exec_args_accepts_yield_ms_camel_case() {
    let args = parse_exec_args(r#"{"command":"sleep 1","background":true,"yieldMs":1234}"#);
    assert_eq!(args.command, "sleep 1");
    assert!(args.background);
    assert_eq!(args.yield_ms, 1234);
}

#[test]
fn common_parse_process_args_accepts_session_id_camel_case() {
    let args = parse_process_args(r#"{"action":"poll","sessionId":"abc"}"#);
    assert_eq!(args.action, "poll");
    assert_eq!(args.session_id.as_deref(), Some("abc"));
}

#[test]
fn parse_forget_args_accepts_defaults_and_camel_case() {
    let args = parse_forget_args(
        r#"{"query":"bananas","similarityThreshold":0.9,"maxMatches":3,"commit":true,"kind":"prefs"}"#,
    );
    assert_eq!(args.query, "bananas");
    assert!(args.commit);
    let threshold: f32 = args
        .similarity_threshold
        .expect("threshold should be given")
        .render()
        .parse()
        .expect("threshold should be a number");
    assert!((threshold - 0.9).abs() < f32::EPSILON);
    assert_eq!(args.max_matches, 3);
    assert_eq!(args.kind.as_deref(), Some("prefs"));
}

#[test]
fn forget_requests_are_bounded() {
    let many = parse_forget_args(
        r#"{"query":"bananas","similarity_threshold":2.0,"max_matches":1000}"#,
    );
    assert_eq!(many.query, "bananas");
    assert_eq!(many.max_matches, 50);
    let plain = parse_forget_args("bananas");
    assert_eq!(plain.query, "bananas");
    assert!(!plain.commit);
    assert!(plain.similarity_threshold.is_none());
    assert_eq!(plain.kind, None);
}

#[test]
fn parse_task_args_accepts_prompt_object() {
    let prompt = parse_task_args(r#"{"prompt":"summarize this file"}"#);
    assert_eq!(prompt, "summarize this file");
}

#[test]
fn arguments_may_be_plain_text() {
    assert_eq!(parse_simple_text_arg("\"hi\""), "hi");
    assert_eq!(parse_simple_text_arg("hi"), "hi");
    assert_eq!(parse_memory_args(r#"{"query":"q","top_k":2}"#), ("q".to_owned(), 2));
    assert_eq!(parse_summon_args(r#"{"agent":"a","summary":"s"}"#), ("a".to_owned(), "s".to_owned()));
    assert!(parse_summon_request(r#"{"agent":"a","summary":"s","background":true}"#).background);
    assert!(!parse_task_request("do it").background);
    let (fact, _, importance) = parse_memorize_args(r#"{"fact":"f","importance":9}"#);
    assert_eq!(fact, "f");
    assert!((1..=5).contains(&importance));
    assert_eq!(parse_background_args(r#"{"action":"list"}"#).action, "list");
    assert_eq!(parse_wait_args(r#"{"run_ids":["x"],"timeout_ms":5}"#).run_ids, vec!["x".to_owned()]);
    assert_eq!(parse_wait_args(r#"{"run_ids":["x"],"timeout_ms":999999}"#).timeout_ms, 120_000);
    assert_eq!(parse_react_args(r#"{"emoji":"x"}"#), "x");
    assert_eq!(truncate_for_tool_output("abc", 3), "abc");
    assert_eq!(truncate_for_tool_output("abcd", 3), "abc\n...[truncated]");
    let shown = command_output_to_json(3, "out", "err");
    assert_eq!(shown.text_at("stdout"), Some("out"));
    assert_eq!(shown.text_at("stderr"), Some("err"));
}

fn edit_args(old_string: &str, new_string: &str, replace_all: bool) -> EditArgs {
    EditArgs {
        file_path: "/tmp/simpleclaw_edit/notes.txt".to_owned(),
        old_string: old_string.to_owned(),
        new_string: new_string.to_owned(),
        replace_all,
    }
}

#[test]
fn create_file_when_old_string_is_empty() {
    let args = edit_args("", "hello\n", false);
    let write = edit_outcome(&args.file_path, Err("missing".to_owned()), &args)
        .expect("edit should succeed");
    assert_eq!(write.content, "hello\n");
    assert!(write.make_parent);
}

#[test]
fn replace_requires_unique_match_without_replace_all() {
    let args = edit_args("a", "z", false);
    let err = match edit_outcome(&args.file_path, Ok("a b a\n".to_owned()), &args) {
        Err(err) => err,
        Ok(_) => panic!("edit should fail"),
    };
    assert!(err.message().contains("Found multiple matches for oldString"));
}

#[test]
fn edits_keep_line_endings() {
    let changed = apply_edit("one\r\ntwo\r\n", &edit_args("one\n", "1\n", false));
    assert_eq!(changed.expect("edit should apply"), "1\r\ntwo\r\n");
    let changed = apply_edit("a b a", &edit_args("a", "z", true));
    assert_eq!(changed.expect("edit should apply"), "z b z");
    assert!(apply_edit("a b", &edit_args("q", "z", false)).is_err());
    assert_eq!(edit::normalize_line_endings("a\r\nb"), "a\nb");
    assert_eq!(edit::detect_line_ending("a\r\nb"), "\r\n");
    assert_eq!(edit::convert_to_line_ending("a\nb", "\r\n"), "a\r\nb");
}

fn place() -> FileEnv {
    FileEnv {
        workspace_root: "/tmp/ws".to_owned(),
        persona_root: "/tmp/persona".to_owned(),
        env: vec![("DOCS".to_owned(), "docs".to_owned())],
        home: Some("/home/me".to_owned()),
        cwd: Ok("/".to_owned()),
    }
}

fn exec_tool(allow_background: bool, sandboxed: bool) -> ExecTool {
    let mut config = ExecToolConfig::default();
    config.allow_background = allow_background;
    config.sandbox.enabled = sandboxed;
    ExecTool { config }
}

fn exec_args(command: &str, background: bool) -> ExecArgs {
    ExecArgs {
        command: command.to_owned(),
        workdir: None,
        background,
        yield_ms: 0,
    }
}

#[test]
fn exec_rejects_empty_command() {
    let tool = ExecTool { config: ExecToolConfig::default() };
    let args = parse_exec_args(r#"{"command":"   "}"#);
    let err = match tool.plan(&args, &place(), Vec::new(), true, true) {
        Err(err) => err,
        Ok(_) => panic!("empty command should fail"),
    };

    assert!(err.message().contains("exec requires a non-empty command"));
}

#[test]
fn exec_rejects_background_when_disabled() {
    let tool = exec_tool(false, false);
    let args = parse_exec_args("{\"command\":\"sleep 1\",\"background\":true}");
    let err = match tool.plan(&args, &place(), Vec::new(), true, true) {
        Err(err) => err,
        Ok(_) => panic!("background execution should fail"),
    };

    assert!(err
        .message()
        .contains("exec background mode is disabled by tools.exec.allow_background"));
}

#[test]
fn exec_rejects_background_when_async_tools_disallowed_in_context() {
    let tool = exec_tool(true, false);
    let args = parse_exec_args(r#"{"command":"sleep 0.1","background":true}"#);
    let err = match tool.plan(&args, &place(), Vec::new(), false, true) {
        Err(err) => err,
        Ok(_) => panic!("background execution should fail"),
    };

    assert!(err
        .message()
        .contains("background async tools are not allowed in delegated runs"));
}

#[test]
fn exec_hands_environment_and_directory_on() {
    let tool = exec_tool(true, false);
    let mut args = exec_args("pwd", true);
    args.workdir = Some("nested".to_owned());
    let env = vec![("TOKEN".to_owned(), "from-config".to_owned())];
    let draft = tool
        .plan(&args, &place(), env.clone(), true, true)
        .expect("command should be planned");
    assert_eq!(draft.workdir, "/tmp/ws/nested");
    assert_eq!(draft.env, env);
    assert!(draft.background);
    assert_eq!(draft.timeout_seconds, 20);
    assert!(tool.plan(&args, &place(), Vec::new(), true, false).is_err());
}

#[test]
fn exec_schema_hides_background_when_disabled() {
    let tool = exec_tool(false, false);

    assert_eq!(
        tool.input_schema_json(),
        "{\"type\":\"object\",\"properties\":{\"command\":{\"type\":\"string\"},\"workdir\":{\"type\":\"string\"}},\"required\":[\"command\"]}"
    );
    assert_eq!(
        tool.description(),
        "Run local shell commands using JSON: {command, workdir?}. Returns JSON string."
    );
}

#[test]
fn exec_schema_exposes_background_when_enabled() {
    let tool = exec_tool(true, false);

    assert_eq!(
        tool.input_schema_json(),
        "{\"type\":\"object\",\"properties\":{\"command\":{\"type\":\"string\"},\"workdir\":{\"type\":\"string\"},\"background\":{\"type\":\"boolean\"}},\"required\":[\"command\"]}"
    );
}

/// The route of a command in `root`, where nothing is a link.
fn exec_route(command: &str, root: &str) -> ExecToolRoute {
    let tool = ExecTool { config: ExecToolConfig::default() };
    let mut env = place();
    env.workspace_root = root.to_owned();
    let draft = tool
        .plan(&exec_args(command, false), &env, Vec::new(), true, true)
        .expect("preflight should succeed");
    let leads = match &draft.preflight {
        Preflight::Decided(_) => Vec::new(),
        Preflight::Checks(checks) => checks
            .iter()
            .map(|check| {
                Ok(match check {
                    WriteCheck::Target(target) => {
                        paths::normalize_absolute_path(&paths::join(root, target))
                    }
                    WriteCheck::Refuse { .. } => paths::normalize_absolute_path(root),
                })
            })
            .collect::<Vec<Result<NormalPath, FrameworkError>>>(),
    };
    let found = build_write_allow_paths(root, &tool.sandbox_policy())
        .iter()
        .map(|path| Ok(paths::normalize_absolute_path(path)))
        .collect();
    draft
        .finish(leads, allowed_write_roots(found))
        .expect("preflight should succeed")
        .route
}

#[test]
fn exec_preflight_marks_workspace_redirection_as_sandboxed() {
    let route = exec_route("printf hi > nested.txt", "/tmp/simpleclaw_exec_route");

    assert_eq!(route, ExecToolRoute::Sandboxed);
}

#[test]
fn exec_preflight_requests_approval_for_outside_write_target() {
    let route = exec_route(
        "printf hi > /Users/shared/blocked.txt",
        "/tmp/simpleclaw_exec_route",
    );

    assert!(matches!(
        route,
        ExecToolRoute::NeedsApproval {
            capability: SandboxCapability::Write,
            ..
        }
    ));
}

#[test]
fn exec_preflight_requests_approval_for_dynamic_shell() {
    let route = exec_route("bash -c \"$PAYLOAD\"", "/tmp/simpleclaw_exec_route");

    assert!(matches!(
        route,
        ExecToolRoute::NeedsApproval {
            capability: SandboxCapability::Exec,
            ..
        }
    ));
}

#[test]
fn exec_preflight_requests_approval_for_network_tools_when_disabled() {
    let route = exec_route("curl https://example.com", "/tmp/simpleclaw_exec_route");

    assert!(matches!(
        route,
        ExecToolRoute::NeedsApproval {
            capability: SandboxCapability::Network,
            ..
        }
    ));
}

#[test]
fn commands_are_cut_into_words() {
    let tokens = tokenize_shell_command("a 'b c' >> \"d\"&& e").expect("quotes are closed");
    let texts: Vec<&str> = tokens.iter().map(|token| token.text.as_str()).collect();
    assert_eq!(texts, vec!["a", "b c", ">>", "d", "&&", "e"]);
    assert_eq!(tokens[2].kind, ShellTokenKind::Operator);
    assert!(tokenize_shell_command("a 'b").is_none());
    assert!(command_uses_ambiguous_shell_features("eval \"$X\""));
    assert!(!command_uses_ambiguous_shell_features("ls -l"));
}

#[test]
fn links_are_followed_above_what_exists() {
    let path = paths::normalize_absolute_path("/a/b/c/d");
    assert_eq!(existing_depth(&vec![false, false, true, true, true], 4), 2);
    let moved = with_true_ancestor(&path, 2, paths::normalize_absolute_path("/real"));
    assert_eq!(moved.display(), "/real/c/d");
}

#[test]
fn resolve_path_in_wasm_sandbox_allows_relative_workspace_file() {
    let workspace = "/tmp/simpleclaw_read_workspace_relative_1";
    let resolved = resolve_path_for_read("docs/file.txt", workspace, &Vec::new(), &None)
        .expect("path should resolve");
    assert_eq!(resolved.display(), format!("{workspace}/docs/file.txt"));
}

#[test]
fn resolve_path_normalizes_absolute_outside_workspace() {
    let outside = "/tmp/simpleclaw_read_outside_absolute_1/secrets.txt";
    let resolved = resolve_path_for_read(
        outside,
        "/tmp/simpleclaw_read_workspace_deny_absolute_1",
        &Vec::new(),
        &None,
    )
    .expect("outside path should normalize");
    assert_eq!(resolved.display(), outside);
}

#[test]
fn resolve_path_normalizes_parent_traversal_escape() {
    let resolved = resolve_path_for_read(
        "../outside.txt",
        "/tmp/simpleclaw_read_workspace_traversal_1",
        &Vec::new(),
        &None,
    )
    .expect("parent traversal should normalize");
    assert_eq!(resolved.display(), "/tmp/outside.txt");
}

#[test]
fn resolve_path_allows_absolute_outside_workspace() {
    let outside = "/tmp/simpleclaw_read_outside_off_1/secrets.txt";
    let resolved = resolve_path_for_read(
        outside,
        "/tmp/simpleclaw_read_workspace_off_1",
        &Vec::new(),
        &None,
    )
    .expect("outside path should resolve");
    assert_eq!(resolved.display(), outside);
}

#[test]
fn resolve_path_expands_home_prefix() {
    let fake_home = "/tmp/simpleclaw_read_fake_home_1";
    let resolved = resolve_path_for_read(
        "~/keys.txt",
        "/tmp/simpleclaw_read_workspace_home_1",
        &Vec::new(),
        &Some(fake_home.to_owned()),
    )
    .expect("home path should resolve");
    assert_eq!(resolved.display(), format!("{fake_home}/keys.txt"));
}

#[test]
fn resolve_path_expands_environment_variable() {
    let env_root = "/tmp/simpleclaw_read_env_root_1";
    let env = vec![("SIMPLECLAW_READ_TEST_DIR".to_owned(), env_root.to_owned())];
    let resolved = resolve_path_for_read(
        "$SIMPLECLAW_READ_TEST_DIR/token.txt",
        "/tmp/simpleclaw_read_workspace_env_1",
        &env,
        &None,
    )
    .expect("env path should resolve");
    assert_eq!(resolved.display(), format!("{env_root}/token.txt"));
    assert_eq!(expand_env_vars("${SIMPLECLAW_READ_TEST_DIR}x $9", &env), format!("{env_root}x $9"));
    assert!(resolve_path_for_read("  ", "/tmp/ws", &env, &None).is_err());
}

fn guest_path_of(
    host_path: &str,
    workspace: &str,
    persona: &str,
    sandbox: &ToolSandboxConfig,
) -> FileToolRoute {
    classify_file_tool_access(
        host_path,
        workspace,
        persona,
        sandbox,
        SandboxCapability::Read,
        &Ok("/".to_owned()),
    )
    .expect("path should be classified")
}

#[test]
fn host_path_maps_to_workspace_guest_path() {
    let workspace = "/tmp/simpleclaw_ws";
    let route = guest_path_of(
        "/tmp/simpleclaw_ws/docs/file.txt",
        workspace,
        workspace,
        &ToolSandboxConfig::default(),
    );
    assert!(matches!(
        route,
        FileToolRoute::Sandboxed { guest_path, .. } if guest_path == "/workspace/docs/file.txt"
    ));
}

#[test]
fn paths_beside_a_mount_are_the_hosts() {
    let workspace = "/workspaces/p";
    let route =
        guest_path_of("/workspaces/p/a.txt", workspace, workspace, &ToolSandboxConfig::default());
    assert_eq!(
        route,
        FileToolRoute::Sandboxed {
            guest_path: "/workspace/a.txt".to_owned(),
            preopened_dirs: Vec::new(),
        }
    );
    let route = guest_path_of(
        "/personal/p/AGENT.md",
        "/tmp/ws",
        "/personal/p",
        &ToolSandboxConfig::default(),
    );
    assert!(matches!(
        route,
        FileToolRoute::Sandboxed { guest_path, .. } if guest_path == "/persona/AGENT.md"
    ));
    for outside in ["/workspaces/p", "/personal/p"] {
        let route = classify_file_tool_access(
            outside,
            "/tmp/ws",
            "/tmp/persona",
            &ToolSandboxConfig::default(),
            SandboxCapability::Write,
            &Ok("/".to_owned()),
        )
        .expect("path should be classified");
        assert!(matches!(
            route,
            FileToolRoute::NeedsApproval { target, .. } if target == outside
        ));
    }
    for (mount, root) in [("/workspace", "/tmp/ws"), ("/persona", "/tmp/persona")] {
        let given = ToolSandboxConfig::default();
        let remapped = remap_guest_path_to_host(mount, "/tmp/ws", "/tmp/persona", &given)
            .expect("a mount is a guest's");
        assert_eq!(remapped.trim_end_matches('/'), root);
    }
}

#[test]
fn host_path_to_guest_path_allows_persona_prompt_file() {
    let route = guest_path_of(
        "/tmp/simpleclaw_read_persona_prompt_1/AGENT.md",
        "/tmp/simpleclaw_read_workspace_persona_prompt_1",
        "/tmp/simpleclaw_read_persona_prompt_1",
        &ToolSandboxConfig::default(),
    );
    assert!(matches!(
        route,
        FileToolRoute::Sandboxed { guest_path, .. } if guest_path == "/persona/AGENT.md"
    ));
}

#[test]
fn host_path_to_guest_path_denies_persona_simpleclaw() {
    let route = guest_path_of(
        "/tmp/simpleclaw_read_persona_state_1/.simpleclaw/memory.db",
        "/tmp/simpleclaw_read_workspace_persona_state_1",
        "/tmp/simpleclaw_read_persona_state_1",
        &ToolSandboxConfig::default(),
    );
    assert!(matches!(route, FileToolRoute::NeedsApproval { .. }));
}

#[test]
fn host_path_maps_to_persona_guest_path() {
    let route = guest_path_of(
        "/tmp/simpleclaw_persona/skills/editor/SKILL.md",
        "/tmp/simpleclaw_ws",
        "/tmp/simpleclaw_persona",
        &ToolSandboxConfig::default(),
    );
    assert!(matches!(
        route,
        FileToolRoute::Sandboxed { guest_path, .. }
            if guest_path == "/persona/skills/editor/SKILL.md"
    ));
}

#[test]
fn host_path_maps_to_extra_readable_guest_path() {
    let mut sandbox = ToolSandboxConfig::default();
    sandbox.extra_readable_paths = vec!["/tmp/simpleclaw_extra".to_owned()];
    let route = guest_path_of(
        "/tmp/simpleclaw_extra/docs/file.txt",
        "/tmp/simpleclaw_ws",
        "/tmp/simpleclaw_persona",
        &sandbox,
    );
    assert!(matches!(
        route,
        FileToolRoute::Sandboxed { guest_path, preopened_dirs }
            if guest_path == "/__extra/0/docs/file.txt"
                && preopened_dirs.len() == 1
                && preopened_dirs[0].guest_path == "/__extra/0"
    ));
}

#[test]
fn guest_workspace_path_roundtrips_to_sandboxed() {
    let route = guest_path_of(
        "/workspace/src/main.rs",
        "/tmp/ws",
        "/tmp/persona",
        &ToolSandboxConfig::default(),
    );
    assert!(matches!(
        route,
        FileToolRoute::Sandboxed { guest_path, .. } if guest_path == "/workspace/src/main.rs"
    ));
}

#[test]
fn guest_persona_path_roundtrips_to_sandboxed() {
    let route = guest_path_of(
        "/persona/AGENT.md",
        "/tmp/ws",
        "/tmp/persona",
        &ToolSandboxConfig::default(),
    );
    assert!(matches!(
        route,
        FileToolRoute::Sandboxed { guest_path, .. } if guest_path == "/persona/AGENT.md"
    ));
}

#[test]
fn guest_extra_path_roundtrips_to_sandboxed() {
    let mut sandbox = ToolSandboxConfig::default();
    sandbox.extra_readable_paths = vec!["/tmp/extra_docs".to_owned()];
    let route = guest_path_of("/__extra/0/docs/file.txt", "/tmp/ws", "/tmp/persona", &sandbox);
    assert!(matches!(
        route,
        FileToolRoute::Sandboxed { guest_path, .. } if guest_path == "/__extra/0/docs/file.txt"
    ));
}

#[test]
fn extra_paths_come_back() {
    let mut sandbox = ToolSandboxConfig::default();
    sandbox.extra_readable_paths = vec!["/a".to_owned(), "/b/c".to_owned()];
    sandbox.extra_writable_paths = vec!["/d".to_owned(), "/b".to_owned()];
    let route_of = |path: &str, sandbox: &ToolSandboxConfig| {
        classify_file_tool_access(
            path,
            "/tmp/ws",
            "/tmp/persona",
            sandbox,
            SandboxCapability::Write,
            &Ok("/".to_owned()),
        )
        .expect("path should be classified")
    };
    for (path, guest) in [
        ("/a/x", "/__extra/0/x"),
        ("/b/c/x/y", "/__extra/1/x/y"),
        ("/d", "/__extra/2/"),
        ("/b/x", "/__extra/3/x"),
    ] {
        let route = route_of(path, &sandbox);
        assert_eq!(route.guest_path(), Some(guest));
        assert_eq!(route_of(guest, &sandbox), route);
    }
    sandbox.extra_readable_paths = vec!["/a".to_owned(), "/b".to_owned()];
    sandbox.extra_writable_paths = vec!["/a".to_owned(), "/c".to_owned()];
    assert_eq!(route_of("/a/x", &sandbox).guest_path(), Some("/__extra/2/x"));
    assert_eq!(route_of("/__extra/2/x", &sandbox).guest_path(), Some("/__extra/3/x"));
}

#[test]
fn sandboxed_command_lines_keep_inside() {
    let root = "/srv/project";
    assert_eq!(exec_route("touch a && mkdir b; echo x > c | tee -a d", root), ExecToolRoute::Sandboxed);
    for refused in [
        "touch a && eval b",
        "echo a; curl x",
        "echo a && chmod 777 b",
        "echo a > *.txt",
        "echo a > /etc/b",
        "touch a; rm /etc/b",
        "echo a >",
    ] {
        assert!(
            matches!(exec_route(refused, root), ExecToolRoute::NeedsApproval { .. }),
            "{refused}"
        );
    }
}

#[test]
fn guests_that_are_refused_are_told_apart() {
    let denied = classify_wasm_tool_error(
        "read",
        "/etc/passwd",
        SandboxCapability::Read,
        1,
        "Permission denied (os error 13)",
    );
    assert!(matches!(denied, FrameworkError::Sandbox(_)));
    let failed = classify_wasm_tool_error("read", "/x", SandboxCapability::Read, 2, "no such file");
    assert!(matches!(failed, FrameworkError::Tool(_)));
    let route = guest_path_of("/workspace/a", "/tmp/ws", "/tmp/p", &ToolSandboxConfig::default());
    let shown = guest_result("read", &route, SandboxCapability::Read, 0, "out".to_owned(), "");
    assert_eq!(shown.expect("guest ended well"), "out");
    assert!(guest_result("read", &route, SandboxCapability::Read, 1, "out".to_owned(), "x").is_err());
}

#[test]
fn resolve_top_k_uses_default_when_missing() {
    let mut tool = MemoryTool { config: MemoryToolConfig::default() };
    tool.config.default_top_k = Some(7);
    assert_eq!(tool.resolve_top_k(None).expect("should resolve"), 7);
}

#[test]
fn resolve_top_k_clamps_to_max() {
    let mut tool = MemoryTool { config: MemoryToolConfig::default() };
    tool.config.max_top_k = Some(3);
    assert_eq!(tool.resolve_top_k(Some(10)).expect("should resolve"), 3);
}

#[test]
fn resolve_top_k_rejects_zero_after_clamp() {
    let mut tool = MemoryTool { config: MemoryToolConfig::default() };
    tool.config.default_top_k = Some(0);
    assert!(tool.resolve_top_k(None).is_err());
}

#[test]
fn memories_are_shown_and_forgotten() {
    assert_eq!(
        render_hits(&vec!["a".to_owned(), "b".to_owned()]).matches('\n').count(),
        1
    );
    let facts = vec![LongTermFact {
        id: 4,
        kind: "prefs".to_owned(),
        importance: 5,
        created_at: "2026-01-01".to_owned(),
        content: "likes tea".to_owned(),
    }];
    assert!(render_facts(&facts).contains("likes tea"));
    let stored = MemorizeTool::LongTermStore.answer("prefs", 3, MemorizeResult::Inserted);
    assert!(stored.contains("prefs"));
    let updated = MemorizeTool::LongTermStore.answer(
        "prefs",
        3,
        MemorizeResult::Updated { superseded_content: "old fact".to_owned() },
    );
    assert!(updated.contains("old fact"));
    let result = ForgetResult {
        similarity_threshold: json("0.9"),
        max_matches: 3,
        kind_filter: None,
        deleted_count: 1,
        matches: vec![ForgetMatch {
            id: 4,
            kind: "prefs".to_owned(),
            importance: 5,
            similarity: json("0.95"),
            content: "likes tea".to_owned(),
        }],
    };
    let shown = ForgetTool::LongTermSemanticPrune.answer(true, "tea", &result).render();
    assert!(shown.contains("likes tea"));
    assert!(shown.contains("0.95"));
}

#[test]
fn empty_allowlist_denies_any_target() {
    let tool = SummonTool { config: SummonToolConfig::default() };
    assert!(!tool.target_allowed("planner"));
    assert!(!tool.target_allowed("editor"));
}

#[test]
fn non_empty_allowlist_restricts_target() {
    let mut tool = SummonTool { config: SummonToolConfig::default() };
    tool.config.allowed = vec!["planner".to_owned(), "researcher".to_owned()];
    assert!(tool.target_allowed("planner"));
    assert!(!tool.target_allowed("editor"));
}

fn helper_summons() -> SummonTool {
    SummonTool {
        config: SummonToolConfig {
            allowed: vec!["helper".to_owned()],
            allow_background: true,
        },
    }
}

/// Starts a run of `request` and lets it end well.
fn accepted_and_completed(tool_name: &str, request: &str) -> (Json, AsyncToolRunStatus) {
    let mut manager = AsyncToolRunManager::new();
    let run_id = manager.next_run_id(1_000);
    let (started, _) =
        manager.start_delegated(&run_id, tool_name, request, "test-agent", "sess-1", at(1));
    manager.mark_delegated_completed(&run_id, &Ok("done".to_owned()), at(2));
    let status = manager
        .get(&started.run_id)
        .expect("snapshot should exist")
        .snapshot(String::new(), String::new())
        .status;
    (json(&started.accepted_output()), status)
}

#[test]
fn summon_background_starts_delegated_async_run() {
    let args = parse_summon_request(r#"{"agent":"helper","summary":"investigate","background":true}"#);
    let request = helper_summons().plan(&args, true).expect("background summon should succeed");
    assert!(args.background);
    let (accepted, status) = accepted_and_completed("summon", &request);
    assert_eq!(accepted.text_at("status"), Some("accepted"));
    assert_eq!(accepted.text_at("kind"), Some("delegated"));
    assert_eq!(status, AsyncToolRunStatus::Completed);
}

#[test]
fn summon_background_rejected_when_async_not_allowed_in_context() {
    let args = parse_summon_request(r#"{"agent":"helper","summary":"investigate","background":true}"#);
    let err = helper_summons()
        .plan(&args, false)
        .err()
        .expect("background summon should fail");
    assert!(err
        .message()
        .contains("background async tools are not allowed in delegated runs"));
}

#[test]
fn task_background_starts_delegated_async_run() {
    let tool = TaskTool {
        config: TaskToolConfig { worker_max_steps: None, allow_background: true },
    };
    let args = parse_task_request(r#"{"prompt":"do work","background":true}"#);
    let request = tool.plan(&args, true).expect("background task should succeed");
    assert!(args.background);
    let (accepted, status) = accepted_and_completed("task", &request);
    assert_eq!(accepted.text_at("status"), Some("accepted"));
    assert_eq!(accepted.text_at("kind"), Some("delegated"));
    assert_eq!(status, AsyncToolRunStatus::Completed);
}

#[test]
fn task_background_rejected_when_async_not_allowed_in_context() {
    let tool = TaskTool {
        config: TaskToolConfig { worker_max_steps: None, allow_background: true },
    };
    let args = parse_task_request(r#"{"prompt":"do work","background":true}"#);
    let err = tool.plan(&args, false).err().expect("background task should fail");
    assert!(err
        .message()
        .contains("background async tools are not allowed in delegated runs"));
}

#[test]
fn only_listed_agents_are_summoned() {
    let args = parse_summon_request(r#"{"agent":"stranger","summary":"hi"}"#);
    assert!(helper_summons().plan(&args, true).is_err());
    let nameless = parse_summon_request(r#"{"agent":" ","summary":"hi"}"#);
    assert!(helper_summons().plan(&nameless, true).is_err());
    let quiet = TaskTool { config: TaskToolConfig::default() };
    assert!(quiet
        .plan(&parse_task_request(r#"{"prompt":"x","background":true}"#), true)
        .is_err());
}

#[test]
fn fetch_rejects_empty_url() {
    let err = checked_url("   ").err().expect("empty url should fail");

    assert!(err.message().contains("fetch requires a non-empty url"));
}

#[test]
fn fetch_extracts_html_body_text_and_truncates() {
    let output = render_fetch_response(
        "http://example.test",
        200,
        "<html><body><h1>Hello</h1><p>from web fetch tests</p></body></html>",
        10,
    )
    .expect("html response should render");

    assert_eq!(output, "Hello from");
}

#[test]
fn fetch_returns_plain_text_body_when_not_html() {
    let output = render_fetch_response("http://example.test", 200, "plain body from server", 100)
        .expect("plain text response should render");

    assert_eq!(output, "plain body from server");
}

#[test]
fn fetch_reports_non_success_status() {
    let err = render_fetch_response("http://example.test", 404, "not found", 100)
        .err()
        .expect("404 should fail");

    assert!(err.message().contains("fetch response error: status=404"));
}

#[test]
fn fetch_settings_have_defaults() {
    let tool = WebFetchTool { config: WebFetchToolConfig::default() };
    assert!(tool.timeout_seconds() > 0);
    assert_eq!(
        tool.url(r#"{"url":" http://a.test "}"#).expect("url should be read"),
        "http://a.test"
    );
}

#[test]
fn map_duckduckgo_prefers_abstract_text() {
    let payload = json(
        r#"{
            "Heading": "Rust",
            "AbstractText": "Rust is a systems programming language.",
            "AbstractURL": "https://www.rust-lang.org/",
            "Results": [{"Text": "ignored result"}],
            "RelatedTopics": [{"Text": "ignored topic"}]
        }"#,
    );

    let output = map_duckduckgo_results("rust", &payload);
    assert_eq!(output.provider, "duckduckgo");
    assert_eq!(
        output.results[0].description,
        "Rust is a systems programming language."
    );
    assert_eq!(output.results[0].title, "Rust");
    assert_eq!(output.results[0].url, "https://www.rust-lang.org/");
}

#[test]
fn map_duckduckgo_uses_results_when_abstract_missing() {
    let payload = json(
        r#"{
            "Heading": "",
            "AbstractText": "",
            "Results": [
                {"Text": "Result one - Description one", "FirstURL": "https://example.com/1"},
                {"Text": "Result two", "FirstURL": "https://example.com/2"}
            ],
            "RelatedTopics": []
        }"#,
    );

    let output = map_duckduckgo_results("query", &payload);
    assert_eq!(output.total_results_returned, 2);
    assert_eq!(output.results[0].title, "Result one");
    assert_eq!(output.results[0].description, "Description one");
    assert_eq!(output.results[1].title, "Result two");
}

#[test]
fn map_duckduckgo_falls_back_to_related_topics() {
    let payload = json(
        r#"{
            "Heading": "",
            "AbstractText": "",
            "Results": [],
            "RelatedTopics": [
                {"Text": "Topic one - Description one", "FirstURL": "https://example.com/topic1"},
                {"Topics": [{"Text": "Nested topic two", "FirstURL": "https://example.com/topic2"}]}
            ]
        }"#,
    );

    let output = map_duckduckgo_results("query", &payload);
    assert_eq!(output.total_results_returned, 2);
    assert_eq!(output.results[0].title, "Topic one");
    assert_eq!(output.results[0].description, "Description one");
    assert_eq!(output.results[1].title, "Nested topic two");
}

#[test]
fn map_brave_results_keeps_url_and_age() {
    let results = vec![
        BraveWebResult {
            title: "Title one".to_owned(),
            url: "https://example.com/1".to_owned(),
            description: "Description one".to_owned(),
            age: Some("2 days ago".to_owned()),
            page_age: None,
        },
        BraveWebResult {
            title: "Title two".to_owned(),
            url: "https://example.com/2".to_owned(),
            description: "Description two".to_owned(),
            age: None,
            page_age: Some("2026-01-01".to_owned()),
        },
    ];

    let output = map_brave_results("rust", &results);
    assert_eq!(output.provider, "brave");
    assert_eq!(output.total_results_returned, 2);
    assert_eq!(output.results[0].age.as_deref(), Some("2 days ago"));
    assert_eq!(output.results[1].age.as_deref(), Some("2026-01-01"));
}

#[test]
fn parse_duckduckgo_text_splits_title_description() {
    let (title, description) = parse_duckduckgo_text("Rust - systems language");
    assert_eq!(title, "Rust");
    assert_eq!(description, "systems language");
}

fn hit(title: &str, url: &str) -> WebSearchResult {
    WebSearchResult {
        title: title.to_owned(),
        url: url.to_owned(),
        description: format!("Description of {title}"),
        age: None,
    }
}

#[test]
fn push_result_skips_duplicates() {
    let mut results = vec![WebSearchResult {
        title: "One".to_owned(),
        url: "https://example.com/1".to_owned(),
        description: "Description".to_owned(),
        age: None,
    }];
    push_result(
        &mut results,
        WebSearchResult {
            title: "Two".to_owned(),
            url: "https://example.com/1".to_owned(),
            description: "Another".to_owned(),
            age: None,
        },
    );
    assert_eq!(results.len(), 1);
}

#[test]
fn searches_are_bounded() {
    let mut results = Vec::new();
    for i in 0..9 {
        push_result(&mut results, hit(&format!("t{i}"), &format!("https://example.com/{i}")));
    }
    assert_eq!(results.len(), 5);
    let tool = WebSearchTool {
        config: WebSearchToolRuntimeConfig {
            provider: WebSearchProvider::Brave,
            api_key: Some("resolved-brave-key".to_owned()),
            timeout_seconds: None,
        },
    };
    assert!(matches!(
        tool.service(),
        Ok(SearchService::Brave { api_key }) if api_key == "resolved-brave-key"
    ));
    let keyless = WebSearchTool {
        config: WebSearchToolRuntimeConfig {
            provider: WebSearchProvider::Brave,
            api_key: None,
            timeout_seconds: Some(3),
        },
    };
    assert!(keyless.service().is_err());
    assert_eq!(keyless.timeout_seconds(), 3);
    assert!(keyless.query(r#"{"query":"  "}"#).is_err());
    assert!(brave_status(200).is_ok());
    assert!(brave_status(429).is_err());
}

#[test]
fn files_are_read_window_by_window() {
    let content = "one\ntwo\nthree\n";
    let first = render_file_output("/f", content, 1, 2).expect("lines are there");
    assert!(first.contains("one") && first.contains("two") && !first.contains("three"));
    let rest = render_file_output("/f", content, 3, 2).expect("lines are there");
    assert!(rest.contains("three") && !rest.contains("two"));
    assert!(render_file_output("/f", content, 9, 2).is_err());
    let listing = render_directory_output(
        "/d",
        vec![("b".to_owned(), false), ("a".to_owned(), true)],
        1,
        10,
    )
    .expect("entries are there");
    assert!(listing.find("a/").expect("a is listed") < listing.find('b').expect("b is listed"));
}

#[test]
fn reads_are_planned_in_the_workspace() {
    let tool = ReadTool { config: FileToolConfig::default() };
    let args = ReadArgs {
        file_path: "$DOCS/a.txt".to_owned(),
        offset: None,
        limit: None,
    };
    let plan = tool.plan(&args, &place()).expect("path should be planned");
    assert_eq!(plan.host_path.display(), "/tmp/ws/docs/a.txt");
    assert_eq!((plan.offset, plan.limit), (1, 2000));
    let request = read::guest_request(&plan).expect("path is in the sandbox");
    assert!(request.render().contains("/workspace/docs/a.txt"));
    assert_eq!(tool.timeout_seconds(), 10);
    assert_eq!(
        tool.supported_execution_kinds(),
        vec![ToolExecutionKind::Direct, ToolExecutionKind::WasmSandbox]
    );
    let outside = ReadArgs {
        file_path: "/etc/passwd".to_owned(),
        offset: Some(0),
        limit: None,
    };
    assert!(tool.plan(&outside, &place()).is_err());
}

#[test]
fn edits_are_planned_in_the_workspace() {
    let tool = EditTool { config: FileToolConfig::default() };
    let mut args = edit_args("a", "b", false);
    args.file_path = "notes.txt".to_owned();
    let plan = tool.plan(args, &place()).expect("path should be planned");
    assert_eq!(plan.host_path.display(), "/tmp/ws/notes.txt");
    assert!(edit::guest_request(&plan)
        .expect("path is in the sandbox")
        .render()
        .contains("/workspace/notes.txt"));
    assert_eq!(tool.timeout_seconds(), 15);
}

fn found(relative: &str, modified: Option<i64>, content: &str) -> SearchFile {
    SearchFile {
        path: format!("/w/{relative}"),
        relative: relative.to_owned(),
        modified: modified.map(at),
        content: Some(content.to_owned()),
    }
}

#[test]
fn matches_are_shown_newest_first() {
    let files = vec![
        found("old.rs", Some(1), "fn a()\nlet b\n"),
        found("new.rs", Some(9), "x\nfn c()\n"),
        found("notes.txt", Some(5), "fn d()\n"),
    ];
    let shown = run_grep("fn \\w", Ok(files), &Some("*.rs".to_owned())).expect("pattern is good");
    let new = shown.find("/w/new.rs").expect("new file should match");
    let old = shown.find("/w/old.rs").expect("old file should match");
    assert!(new < old);
    assert!(!shown.contains("notes.txt"));
    assert!(shown.contains("fn c()"));
    assert!(run_grep("(", Ok(Vec::new()), &None).is_err());
    assert!(run_grep("a", Ok(Vec::new()), &Some("[".to_owned())).is_err());
    assert!(run_grep("a", Err(FrameworkError::Tool("gone".to_owned())), &None).is_err());
}

#[test]
fn searches_are_planned_in_directories() {
    let grep_tool = GrepTool { config: FileToolConfig::default() };
    let args = GrepArgs {
        pattern: "fn".to_owned(),
        path: Some("src".to_owned()),
        include_glob: None,
    };
    let plan = grep_tool.plan(&args, &place(), true).expect("directory should be planned");
    assert_eq!(plan.host_path.display(), "/tmp/ws/src");
    assert!(grep::guest_request(&plan).is_ok());
    assert!(grep_tool.plan(&args, &place(), false).is_err());
    let glob_tool = GlobTool { config: FileToolConfig::default() };
    let args = GlobArgs { pattern: "**/*.rs".to_owned(), path: None };
    let plan = glob_tool.plan(&args, &place(), true).expect("directory should be planned");
    assert_eq!(plan.host_path.display(), "/tmp/ws");
    assert!(glob::guest_request(&plan).is_ok());
    let list_tool = ListTool { config: FileToolConfig::default() };
    let args = ListArgs { path: None, ignore: None };
    let plan = list_tool.plan(args, &place(), true).expect("directory should be planned");
    assert!(list::guest_request(&plan).is_ok());
}

fn entry(relative: &str, kind: EntryKind, modified: i64) -> WalkEntry {
    WalkEntry {
        path: format!("/w/{relative}"),
        relative: relative.to_owned(),
        kind,
        modified: Some(at(modified)),
    }
}

#[test]
fn paths_are_found_by_pattern() {
    let entries = vec![
        entry("a.rs", EntryKind::File, 1),
        entry("src/b.rs", EntryKind::File, 2),
        entry("c.txt", EntryKind::File, 3),
    ];
    let shown = run_glob("**/*.rs", Ok(entries)).expect("pattern is good");
    assert_eq!(shown, "/w/src/b.rs\n/w/a.rs");
    assert!(run_glob("[", Ok(Vec::new())).is_err());
}

#[test]
fn walks_forget_no_directory() {
    let mut walk = Walk::start("/w");
    assert_eq!(walk.step().as_deref(), Some("/w"));
    walk.saw(&vec![
        entry("src", EntryKind::Directory, 1),
        entry("a.rs", EntryKind::File, 1),
        entry("docs", EntryKind::Directory, 1),
    ]);
    let mut seen = Vec::new();
    while let Some(dir) = walk.step() {
        seen.push(dir);
    }
    seen.sort();
    assert_eq!(seen, vec!["/w/docs".to_owned(), "/w/src".to_owned()]);
}

fn listed(name: &str, kind: EntryKind) -> Result<ListEntry, String> {
    Ok(ListEntry { name: name.to_owned(), kind: Ok(kind) })
}

#[test]
fn directories_are_listed_as_trees() {
    let mut walk = ListWalk::start(&vec!["*.log".to_owned()]).expect("patterns are good");
    let (dir, relative) = walk.step().expect("the root is looked at first");
    assert_eq!(relative, "");
    walk.saw(
        dir,
        &vec![
            listed("src", EntryKind::Directory),
            listed("b.txt", EntryKind::File),
            listed("noise.log", EntryKind::File),
            listed("a.txt", EntryKind::File),
        ],
        "/w",
    )
    .expect("entries can be read");
    let (dir, relative) = walk.step().expect("the directory is looked at");
    assert_eq!(relative, "src");
    walk.saw(dir, &vec![listed("main.rs", EntryKind::File)], "/w").expect("entries can be read");
    assert!(walk.step().is_none());
    let shown = walk.render("/w");
    assert!(shown.starts_with("/w/"));
    assert!(shown.contains("src/") && shown.contains("main.rs"));
    assert!(shown.find("a.txt").expect("listed") < shown.find("b.txt").expect("listed"));
    assert!(!shown.contains("noise.log"));
    assert!(ListWalk::start(&vec!["[".to_owned()]).is_err());
}

#[test]
fn runs_are_asked_for_by_action() {
    let list = BackgroundTool::Lifecycle.plan(parse_background_args(r#"{"action":"list"}"#));
    assert!(matches!(list, Ok(RunRequest::List)));
    let kill = BackgroundTool::Lifecycle
        .plan(parse_background_args(r#"{"action":"kill","runId":"r"}"#));
    assert!(matches!(kill, Ok(RunRequest::Kill(id)) if id == "r"));
    assert!(BackgroundTool::Lifecycle
        .plan(parse_background_args(r#"{"action":"kill"}"#))
        .is_err());
    assert!(BackgroundTool::Lifecycle
        .plan(parse_background_args(r#"{"action":"dance"}"#))
        .is_err());
    let poll = ProcessTool::Lifecycle
        .plan(parse_process_args(r#"{"action":"poll","sessionId":"abc"}"#));
    assert!(matches!(poll, Ok(RunRequest::Status(id)) if id == "abc"));
    assert!(WaitTool.check(&parse_wait_args(r#"{"run_ids":[]}"#)).is_err());
    assert!(WaitTool.check(&parse_wait_args(r#"{"run_ids":["r"]}"#)).is_ok());
    let answer = runs_answer("runs", vec![Json::text("r")]).render();
    assert!(answer.contains("\"runs\""));
}

#[test]
fn reactions_go_to_the_message_answered() {
    let request = ReactTool.plan("x", true, Some(&route())).expect("route is there");
    assert_eq!(request.channel_id, "c");
    assert_eq!(request.message_id, "m");
    assert!(ReactTool.plan(" ", true, Some(&route())).is_err());
    assert!(ReactTool.plan("x", false, Some(&route())).is_err());
    assert!(ReactTool.plan("x", true, None).is_err());
}

#[test]
fn the_clock_tells_the_time() {
    let shown = ClockTool::UtcNow.answer(at(1_772_582_400));
    assert!(shown.starts_with("2026-03-04T00:00:00"));
}

fn all_tools(enabled: bool) -> ToolConfig {
    ToolConfig {
        memory: enabled,
        memorize: enabled,
        summon: enabled,
        search: enabled,
        clock: enabled,
        fetch: enabled,
        read: enabled,
        exec_tool: enabled,
    }
}

#[test]
fn tools_have_names_of_their_own() {
    let tools = Tool::all();
    for tool in &tools {
        let again = Tool::try_from(tool.as_str()).expect("names should be known");
        assert_eq!(again.as_str(), tool.as_str());
        assert!(tool.is_enabled(&all_tools(true)));
        assert!(!tool.is_enabled(&all_tools(false)));
        assert_eq!(tool.definition().name, tool.as_str());
    }
    assert!(Tool::try_from("unheard_of").is_err());
    let mut registry = ToolRegistry::new();
    register_builtin_tools(&mut registry);
    let count = registry.definitions.len();
    assert!(count > 0);
    registry.register("own", "mine", "{}");
    assert_eq!(registry.definitions.len(), count + 1);
}

#[test]
fn forbidden_tools_are_refused() {
    let closed = ToolCtx {
        network_allow_all: false,
        read_allow_all: false,
        summon_service: false,
    };
    let open = ToolCtx {
        network_allow_all: true,
        read_allow_all: true,
        summon_service: true,
    };
    assert!(Tool::Fetch.request(&closed, r#"{"url":"http://a.test"}"#).is_err());
    assert!(Tool::Read.request(&closed, r#"{"path":"/x"}"#).is_err());
    assert!(matches!(
        Tool::Fetch.request(&open, r#"{"url":"http://a.test"}"#),
        Ok(ToolRequest::Fetch { url }) if url == "http://a.test"
    ));
    assert!(matches!(Tool::Clock.request(&closed, "{}"), Ok(ToolRequest::Clock)));
    assert!(exec_output(1, "out", "err").contains("out"));
}
