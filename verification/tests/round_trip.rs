//! Round trips of the harness, and runs that end while somebody waits for them.
use simpleclaw::channels::CompletionRoute;
use simpleclaw::config::GatewayChannelKind;
use simpleclaw::json::Json;
use simpleclaw::providers::types::{Message, ToolResult};
use simpleclaw::round_trip::{
    agent_places, build_scripted_providers, primary_provider_key, turn_result, AppPaths,
    RoundTrip, TripAction, TripEvent,
};
use simpleclaw::testing::{
    EphemeralPaths, ProviderScriptStep, TestAgentConfig, TestHarnessConfig, TestOutboundMessage,
};
use simpleclaw::time::Timestamp;
use simpleclaw::tools::async_tool_manager::{AsyncToolRunManager, ProcessRunState};

fn reply(text: &str) -> Vec<ProviderScriptStep> {
    vec![ProviderScriptStep::Reply(text.to_owned())]
}

fn agents() -> Vec<TestAgentConfig> {
    vec![
        TestAgentConfig::new("a", "A", "one", reply("first")),
        TestAgentConfig::new("b", "B", "two", reply("second")),
        TestAgentConfig::new("c", "C", "one", reply("third")),
    ]
}

#[test]
fn every_agent_has_a_model() {
    let agents = agents();
    assert_eq!(primary_provider_key(&agents, "b"), "two");
    assert_eq!(primary_provider_key(&agents, "nobody"), "default");
    let places = agent_places(&agents, "/w");
    assert_eq!(places[1].persona, "/w/personas/b");
    assert_eq!(places[1].workspace, "/w/b");
    let mut providers = build_scripted_providers(agents);
    assert_eq!(providers.len(), 2);
    assert_eq!(providers[0].0, "one");
    let answer = providers[0].1.generate(&Vec::new()).expect("script should answer");
    assert_eq!(answer.output_text.as_deref(), Some("third"));
}

#[test]
fn a_plain_round_trip_handles_one_message() {
    let config = TestHarnessConfig::default();
    let (mut trip, action) = RoundTrip::start(&config);
    assert_eq!(action, TripAction::HandleFirst);
    assert_eq!(trip.step(TripEvent::Handled), TripAction::Collect);
    assert_eq!(trip.session, "agent:default:discord:integration-channel");
    assert!(trip.routed);
}

#[test]
fn a_round_trip_goes_through_all_its_messages() {
    let mut config = TestHarnessConfig::default();
    config.route_via_gateway_listener = true;
    config.follow_up_inbound_contents = vec!["one".to_owned(), "two".to_owned()];
    config.additional_inbounds_to_process = 1;
    let (mut trip, action) = RoundTrip::start(&config);
    assert_eq!(action, TripAction::Route("hello from integration test".to_owned()));
    let received = || TripEvent::Received("s".to_owned());
    assert_eq!(trip.step(received()), TripAction::HandleReceived);
    assert_eq!(trip.step(TripEvent::Handled), TripAction::Route("one".to_owned()));
    assert_eq!(trip.step(received()), TripAction::HandleReceived);
    assert_eq!(trip.step(TripEvent::Handled), TripAction::Route("two".to_owned()));
    assert_eq!(trip.step(received()), TripAction::HandleReceived);
    assert_eq!(trip.step(TripEvent::Handled), TripAction::Await(2000));
    assert_eq!(trip.step(received()), TripAction::HandleReceived);
    assert_eq!(trip.step(TripEvent::Handled), TripAction::Collect);
    assert_eq!(trip.session, "s");
}

#[test]
fn messages_may_be_dropped_where_that_is_expected() {
    let mut config = TestHarnessConfig::default();
    config.route_via_gateway_listener = true;
    config.expect_listener_drop = true;
    let (mut trip, _) = RoundTrip::start(&config);
    assert_eq!(trip.step(TripEvent::TimedOut), TripAction::Collect);
    assert_eq!(trip.session, "");
    assert!(!trip.routed);
    config.expect_listener_drop = false;
    for (event, reason) in [
        (TripEvent::TimedOut, "timed out waiting for gateway listener to emit inbound"),
        (TripEvent::Closed, "gateway inbound queue closed unexpectedly"),
        (TripEvent::NotSent, "failed to enqueue test inbound for gateway listener"),
    ] {
        let (mut trip, _) = RoundTrip::start(&config);
        assert_eq!(trip.step(event), TripAction::Fail(reason));
    }
}

#[test]
fn round_trips_fail_with_a_reason() {
    let mut config = TestHarnessConfig::default();
    config.additional_inbounds_to_process = 2;
    let (mut trip, _) = RoundTrip::start(&config);
    assert_eq!(trip.step(TripEvent::Handled), TripAction::Await(2000));
    assert_eq!(
        trip.step(TripEvent::TimedOut),
        TripAction::Fail("timed out waiting for follow-up inbound")
    );
    let (mut trip, _) = RoundTrip::start(&config);
    assert_eq!(
        trip.step(TripEvent::Failed),
        TripAction::Fail("failed to process one inbound message")
    );
}

#[test]
fn what_came_of_a_round_trip_is_collected() {
    let files = EphemeralPaths::below("/tmp", 1, 2);
    let app = AppPaths::of_round_trip(&files);
    assert_eq!(app.cron_db_path, "/tmp/simpleclaw_integration_1_2/app/db/cron.db");
    assert_eq!(app.db_path, files.short_term_db_path);
    let mut providers = build_scripted_providers(agents());
    let history = vec![Message::tool_results(vec![ToolResult {
        call_id: None,
        name: "exec".to_owned(),
        response: Json::text("done"),
    }])];
    providers[0].1.generate(&history).expect("script should answer");
    providers[1].1.generate(&Vec::new()).expect("script should answer");
    let (mut trip, _) = RoundTrip::start(&TestHarnessConfig::default());
    trip.step(TripEvent::Handled);
    let sent = vec![TestOutboundMessage {
        channel_id: "c".to_owned(),
        content: "third".to_owned(),
    }];
    let result = turn_result(trip, providers, "one", sent, 3, files)
        .expect("there is a model for the agent");
    assert_eq!(result.provider_call_count, 2);
    assert_eq!(result.provider_call_counts[0], ("one".to_owned(), 1));
    assert_eq!(result.observed_tool_response, Some(Json::text("done")));
    assert!(result.observed_tool_result && result.listener_routed);
    assert_eq!(result.typing_events, 3);
    let (trip, _) = RoundTrip::start(&TestHarnessConfig::default());
    let files = EphemeralPaths::below("/tmp", 1, 2);
    let providers = build_scripted_providers(agents());
    assert!(turn_result(trip, providers, "missing", Vec::new(), 0, files).is_none());
}

fn at(secs: i64) -> Timestamp {
    Timestamp { secs, nanos: 0 }
}

fn route() -> CompletionRoute {
    CompletionRoute {
        trace_id: "t".to_owned(),
        source_channel: GatewayChannelKind::Discord,
        target_agent_id: "default".to_owned(),
        session_key: "s".to_owned(),
        source_message_id: Some("m".to_owned()),
        channel_id: "c".to_owned(),
        guild_id: None,
        is_dm: false,
    }
}

#[test]
fn waited_runs_are_not_told() {
    let mut manager = AsyncToolRunManager::new();
    let first = manager.next_run_id(1);
    let second = manager.next_run_id(1);
    let process = ProcessRunState {
        command: "true".to_owned(),
        pid: None,
        stdout_path: "/o".to_owned(),
        stderr_path: "/e".to_owned(),
        exit_code: None,
    };
    manager.start_process(&first, "exec", "a", "s", process, at(1));
    manager.start_delegated(&second, "task", "work", "a", "s", at(2));
    let ids = vec![first.clone(), second.clone()];
    manager.claim_runs(&ids, "a", "s").expect("runs can be seen");
    assert!(manager.end_process(&first, Some(0), Some(route()), at(3)).is_none());
    let places = manager.wait_for_session(&ids, "a", "s").expect("runs can be seen");
    assert_eq!(places, vec![0, 1]);
    let told = manager
        .end_delegated(&second, &Ok("done".to_owned()), Some(route()), at(4))
        .expect("nobody waits for the run any more");
    assert!(told.content.contains(&second));
    assert_eq!(told.session_key, "s");
    assert!(manager.wait_for_session(&vec!["x".to_owned()], "a", "s").is_err());
    assert!(manager.end_process("x", None, Some(route()), at(5)).is_none());
}
