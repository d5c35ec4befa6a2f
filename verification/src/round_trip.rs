//! A round trip of the harness: who answers, which messages are handled in which order, and what
//! came of it.
use vstd::prelude::*;
use crate::json::Json;
use crate::paths;
use crate::testing::{
    EphemeralPaths, ProviderScriptStep, ScriptedProvider, TestAgentConfig, TestHarnessConfig,
    TestOutboundMessage,
};
use crate::testing;
use crate::text;

verus! {

/// The model that an agent of a given name is answered by: the first agent of the name decides.
pub open spec fn primary_key(agents: Seq<TestAgentConfig>, agent_id: Seq<char>, from: int) -> Seq<
    char,
>
    decreases agents.len() - from,
{
    if from < 0 || from >= agents.len() {
        "default"@
    } else if agents[from].id@ == agent_id {
        agents[from].provider_key@
    } else {
        primary_key(agents, agent_id, from + 1)
    }
}

/// The model that the agent of the round trip is answered by.
pub fn primary_provider_key(agents: &Vec<TestAgentConfig>, agent_id: &str) -> (r: String)
    ensures
        r@ == primary_key(agents@, agent_id@, 0),
{
    let mut i: usize = 0;
    while i < agents.len()
        invariant
            i <= agents@.len(),
            primary_key(agents@, agent_id@, i as int) == primary_key(agents@, agent_id@, 0),
        decreases agents@.len() - i,
    {
        if text::same_text(agents[i].id.as_str(), agent_id) {
            return agents[i].provider_key.clone();
        }
        i = i + 1;
    }
    "default".to_owned()
}

/// Where the script under a key stands.
pub open spec fn key_place(scripts: Seq<(Seq<char>, Seq<ProviderScriptStep>)>, key: Seq<char>) -> Option<
    int,
>
    decreases scripts.len(),
{
    if scripts.len() == 0 {
        None
    } else if scripts.last().0 == key {
        Some(scripts.len() - 1)
    } else {
        key_place(scripts.drop_last(), key)
    }
}

/// The scripts of the models of some agents: of agents that share a model, the last one's.
pub open spec fn scripts_of(agents: Seq<TestAgentConfig>) -> Seq<
    (Seq<char>, Seq<ProviderScriptStep>),
>
    decreases agents.len(),
{
    if agents.len() == 0 {
        Seq::empty()
    } else {
        let before = scripts_of(agents.drop_last());
        let added = (agents.last().provider_key@, agents.last().script@);
        match key_place(before, added.0) {
            Some(i) => before.update(i, added),
            None => before.push(added),
        }
    }
}

/// A place lies within, and the script is there.
proof fn lemma_key_place(scripts: Seq<(Seq<char>, Seq<ProviderScriptStep>)>, key: Seq<char>)
    ensures
        match key_place(scripts, key) {
            Some(i) => 0 <= i < scripts.len() && scripts[i].0 == key,
            None => forall|i: int| 0 <= i < scripts.len() ==> (#[trigger] scripts[i]).0 != key,
        },
    decreases scripts.len(),
{
    if scripts.len() > 0 && scripts.last().0 != key {
        lemma_key_place(scripts.drop_last(), key);
        if key_place(scripts, key) is None {
            assert forall|i: int| 0 <= i < scripts.len() implies (#[trigger] scripts[i]).0 != key by {
                if i < scripts.len() - 1 {
                    assert(scripts.drop_last()[i] == scripts[i]);
                }
            }
        }
    }
}

/// Every agent of a round trip has a model, and no two models share a key.
pub proof fn law_every_agent_has_a_model(agents: Seq<TestAgentConfig>, k: int)
    requires
        0 <= k < agents.len(),
    ensures
        key_place(scripts_of(agents), agents[k].provider_key@) is Some,
        forall|i: int, j: int|
            0 <= i < j < scripts_of(agents).len() ==> (#[trigger] scripts_of(agents)[i]).0 != (
            #[trigger] scripts_of(agents)[j]).0,
    decreases agents.len(),
{
    let scripts = scripts_of(agents);
    let before = scripts_of(agents.drop_last());
    let key = agents.last().provider_key@;
    if agents.len() > 1 {
        law_every_agent_has_a_model(agents.drop_last(), 0);
    }
    lemma_key_place(before, key);
    lemma_key_place(scripts, agents[k].provider_key@);
    if k < agents.len() - 1 {
        law_every_agent_has_a_model(agents.drop_last(), k);
        assert(agents.drop_last()[k] == agents[k]);
        lemma_key_place(before, agents[k].provider_key@);
        let at = key_place(before, agents[k].provider_key@)->0;
        assert(scripts[at].0 == agents[k].provider_key@);
    } else {
        match key_place(before, key) {
            Some(i) => assert(scripts[i].0 == key),
            None => assert(scripts[before.len() as int].0 == key),
        }
    }
}

/// Models under their keys.
pub type KeyedProviders = Vec<(String, ScriptedProvider)>;

/// The scripts of models under their keys.
pub open spec fn provider_scripts(providers: Seq<(String, ScriptedProvider)>) -> Seq<
    (Seq<char>, Seq<ProviderScriptStep>),
> {
    Seq::new(providers.len(), |i: int| (providers[i].0@, providers[i].1.script@))
}

/// Where the model under a key stands.
pub fn provider_place(providers: &KeyedProviders, key: &str) -> (r: Option<usize>)
    ensures
        text::opt_pos(r) == key_place(provider_scripts(providers@), key@),
        r is Some ==> r->0 < providers@.len(),
{
    let ghost all = provider_scripts(providers@);
    let mut n: usize = providers.len();
    assert(all.take(n as int) =~= all);
    while n > 0
        invariant
            n <= providers@.len(),
            all == provider_scripts(providers@),
            key_place(all.take(n as int), key@) == key_place(all, key@),
        decreases n,
    {
        proof {
            assert(all.take(n as int).drop_last() =~= all.take(n - 1));
            assert(all.take(n as int).last() == all[n - 1]);
        }
        if text::same_text(providers[n - 1].0.as_str(), key) {
            return Some(n - 1);
        }
        n = n - 1;
    }
    None
}

/// The models of some agents, each at the start of its script.
pub fn build_scripted_providers(agents: Vec<TestAgentConfig>) -> (r: KeyedProviders)
    ensures
        provider_scripts(r@) == scripts_of(agents@),
        forall|i: int|
            0 <= i < r@.len() ==> (#[trigger] r@[i]).1.call_count == 0
                && r@[i].1.observed_tool_responses@.len() == 0,
{
    let ghost given = agents@;
    let mut rest = agents;
    let mut providers: KeyedProviders = Vec::new();
    proof {
        assert(provider_scripts(providers@) =~= scripts_of(Seq::empty()));
        assert(given.take(0) =~= Seq::empty());
        assert(given.skip(0) =~= given);
    }
    while rest.len() > 0
        invariant
            given.len() >= rest@.len(),
            given.skip(given.len() - rest@.len()) == rest@,
            provider_scripts(providers@) == scripts_of(given.take(given.len() - rest@.len())),
            forall|i: int|
                0 <= i < providers@.len() ==> (#[trigger] providers@[i]).1.call_count == 0
                    && providers@[i].1.observed_tool_responses@.len() == 0,
        decreases rest@.len(),
    {
        let ghost n = given.len() - rest@.len();
        let ghost left = rest@;
        let ghost scripts = provider_scripts(providers@);
        let agent = rest.remove(0);
        proof {
            assert(left[0] == given[n]);
            assert(given.take(n + 1).drop_last() =~= given.take(n));
            assert(given.skip(n + 1) =~= rest@) by {
                assert forall|i: int| 0 <= i < rest@.len() implies given.skip(n + 1)[i]
                    == #[trigger] rest@[i] by {
                    assert(given.skip(n)[i + 1] == left[i + 1]);
                }
            }
            lemma_key_place(scripts, agent.provider_key@);
        }
        let made = ScriptedProvider::new(agent.script);
        match provider_place(&providers, agent.provider_key.as_str()) {
            Some(i) => {
                let _ = providers.remove(i);
                providers.insert(i, (agent.provider_key, made));
                assert(provider_scripts(providers@) =~= scripts.update(
                    i as int,
                    (agent.provider_key@, agent.script@),
                ));
            },
            None => {
                providers.push((agent.provider_key, made));
                assert(provider_scripts(providers@) =~= scripts.push(
                    (agent.provider_key@, agent.script@),
                ));
            },
        }
    }
    assert(given.take(given.len() as int) =~= given);
    providers
}

/// An agent with the directories that it has in a round trip.
#[derive(Debug, PartialEq, Eq)]
pub struct AgentPlace {
    pub id: String,
    pub name: String,
    pub persona: String,
    pub workspace: String,
}

/// Whether a place is that of an agent.
pub open spec fn is_place_of(place: AgentPlace, agent: TestAgentConfig, workspace_dir: Seq<char>) -> bool {
    &&& place.id@ == agent.id@
    &&& place.name@ == agent.name@
    &&& place.persona@ == paths::joined_path(
        paths::joined_path(workspace_dir, "personas"@),
        agent.id@,
    )
    &&& place.workspace@ == paths::joined_path(workspace_dir, agent.id@)
}

/// The agents with the directories that they have in a round trip.
pub fn agent_places(agents: &Vec<TestAgentConfig>, workspace_dir: &str) -> (r: Vec<AgentPlace>)
    ensures
        r@.len() == agents@.len(),
        forall|i: int|
            0 <= i < r@.len() ==> is_place_of(#[trigger] r@[i], agents@[i], workspace_dir@),
{
    let personas = paths::join(workspace_dir, "personas");
    let mut places: Vec<AgentPlace> = Vec::new();
    let mut i: usize = 0;
    while i < agents.len()
        invariant
            i <= agents@.len(),
            places@.len() == i,
            personas@ == paths::joined_path(workspace_dir@, "personas"@),
            forall|k: int|
                0 <= k < i ==> is_place_of(#[trigger] places@[k], agents@[k], workspace_dir@),
        decreases agents@.len() - i,
    {
        let agent = &agents[i];
        places.push(
            AgentPlace {
                id: agent.id.clone(),
                name: agent.name.clone(),
                persona: paths::join(personas.as_str(), agent.id.as_str()),
                workspace: paths::join(workspace_dir, agent.id.as_str()),
            },
        );
        i = i + 1;
    }
    places
}

/// The files of the service.
#[derive(Debug, PartialEq, Eq)]
pub struct AppPaths {
    pub base_dir: String,
    pub bin_dir: String,
    pub models_dir: String,
    pub venvs_dir: String,
    pub config_path: String,
    pub secrets_path: String,
    pub db_path: String,
    pub long_term_db_path: String,
    pub cron_db_path: String,
    pub fastembed_cache_dir: String,
    pub logs_dir: String,
    pub log_path: String,
    pub run_dir: String,
    pub pid_path: String,
}

impl AppPaths {
    /// The files of the service in a round trip.
    pub fn of_round_trip(files: &EphemeralPaths) -> (r: Self)
        ensures
            r.base_dir@ == paths::joined_path(files.root_dir@, "app"@),
            r.bin_dir@ == paths::joined_path(r.base_dir@, "bin"@),
            r.models_dir@ == paths::joined_path(r.base_dir@, "models"@),
            r.venvs_dir@ == paths::joined_path(r.base_dir@, "venvs"@),
            r.config_path@ == paths::joined_path(r.base_dir@, "config.yaml"@),
            r.secrets_path@ == paths::joined_path(r.base_dir@, "secrets.yaml"@),
            r.db_path@ == files.short_term_db_path@,
            r.long_term_db_path@ == files.long_term_db_path@,
            r.cron_db_path@ == paths::joined_path(r.base_dir@, "db/cron.db"@),
            r.fastembed_cache_dir@ == files.fastembed_cache_dir@,
            r.logs_dir@ == paths::joined_path(r.base_dir@, "logs"@),
            r.log_path@ == paths::joined_path(r.base_dir@, "logs/service.log"@),
            r.run_dir@ == paths::joined_path(r.base_dir@, "run"@),
            r.pid_path@ == paths::joined_path(r.base_dir@, "run/service.pid"@),
    {
        let base_dir = paths::join(files.root_dir.as_str(), "app");
        let base = base_dir.as_str();
        AppPaths {
            bin_dir: paths::join(base, "bin"),
            models_dir: paths::join(base, "models"),
            venvs_dir: paths::join(base, "venvs"),
            config_path: paths::join(base, "config.yaml"),
            secrets_path: paths::join(base, "secrets.yaml"),
            db_path: files.short_term_db_path.clone(),
            long_term_db_path: files.long_term_db_path.clone(),
            cron_db_path: paths::join(base, "db/cron.db"),
            fastembed_cache_dir: files.fastembed_cache_dir.clone(),
            logs_dir: paths::join(base, "logs"),
            log_path: paths::join(base, "logs/service.log"),
            run_dir: paths::join(base, "run"),
            pid_path: paths::join(base, "run/service.pid"),
            base_dir,
        }
    }
}

/// What is to be done next in a round trip.
#[derive(Debug, PartialEq, Eq)]
pub enum TripAction {
    /// Handle the message that the round trip begins with.
    HandleFirst,
    /// Put this text on the channel, and wait for the message that the listener makes of it.
    Route(String),
    /// Wait for a message, this many milliseconds.
    Await(u64),
    /// Handle the message that came.
    HandleReceived,
    /// Collect what came of it.
    Collect,
    /// The round trip failed, for this reason.
    Fail(&'static str),
}

/// What is to be done next, as it reads.
pub enum TripActionView {
    HandleFirst,
    Route(Seq<char>),
    Await(u64),
    HandleReceived,
    Collect,
    Fail(Seq<char>),
}

impl View for TripAction {
    type V = TripActionView;

    open spec fn view(&self) -> TripActionView {
        match self {
            TripAction::HandleFirst => TripActionView::HandleFirst,
            TripAction::Route(content) => TripActionView::Route(content@),
            TripAction::Await(timeout_ms) => TripActionView::Await(*timeout_ms),
            TripAction::HandleReceived => TripActionView::HandleReceived,
            TripAction::Collect => TripActionView::Collect,
            TripAction::Fail(reason) => TripActionView::Fail(reason@),
        }
    }
}

/// What came of the last action.
#[derive(Debug, PartialEq, Eq)]
pub enum TripEvent {
    /// A message came, of this session.
    Received(String),
    /// The message was handled.
    Handled,
    /// The text could not be put on the channel.
    NotSent,
    /// No message came in time.
    TimedOut,
    /// No message can come any more.
    Closed,
    /// The message could not be handled.
    Failed,
}

/// What came of the last action, as it reads.
pub enum TripEventView {
    Received(Seq<char>),
    Handled,
    NotSent,
    TimedOut,
    Closed,
    Failed,
}

impl View for TripEvent {
    type V = TripEventView;

    open spec fn view(&self) -> TripEventView {
        match self {
            TripEvent::Received(session) => TripEventView::Received(session@),
            TripEvent::Handled => TripEventView::Handled,
            TripEvent::NotSent => TripEventView::NotSent,
            TripEvent::TimedOut => TripEventView::TimedOut,
            TripEvent::Closed => TripEventView::Closed,
            TripEvent::Failed => TripEventView::Failed,
        }
    }
}

/// Why a text did not come through the listener.
pub open spec fn listener_failure(event: TripEventView) -> Seq<char> {
    match event {
        TripEventView::NotSent => "failed to enqueue test inbound for gateway listener"@,
        TripEventView::TimedOut => "timed out waiting for gateway listener to emit inbound"@,
        _ => "gateway inbound queue closed unexpectedly"@,
    }
}

/// What a round trip waits for.
#[derive(Debug, Clone, Copy, PartialEq, Eq, Structural)]
pub enum TripStage {
    /// The first message on its way through the listener.
    FirstRouting,
    /// The first message being handled; whether it came through the listener.
    FirstHandling { routed: bool },
    /// A further text on its way through the listener; how many follow it.
    FollowUpRouting { left: usize },
    /// A further text being handled; how many follow it.
    FollowUpHandling { left: usize },
    /// A message that comes by itself; how many follow it.
    Awaiting { left: usize },
    /// A message that came by itself being handled; how many follow it.
    AwaitedHandling { left: usize },
    /// Nothing more.
    Over,
}

/// A round trip on its way.
#[derive(Debug, PartialEq, Eq)]
pub struct RoundTrip {
    /// Whether the first message may be dropped by the listener.
    pub expect_drop: bool,
    /// The texts that follow the first.
    pub follow_ups: Vec<String>,
    /// How many messages are awaited behind them.
    pub additional: usize,
    /// How long each of them is awaited, in milliseconds.
    pub timeout_ms: u64,
    /// What the round trip waits for.
    pub stage: TripStage,
    /// The session of the first message; empty while there is none.
    pub session: String,
    /// Whether the first message was handled.
    pub routed: bool,
}

/// A round trip on its way, as it reads.
#[verifier::ext_equal]
pub struct TripView {
    pub expect_drop: bool,
    pub follow_ups: Seq<Seq<char>>,
    pub additional: usize,
    pub timeout_ms: u64,
    pub stage: TripStage,
    pub session: Seq<char>,
    pub routed: bool,
}

impl View for RoundTrip {
    type V = TripView;

    open spec fn view(&self) -> TripView {
        TripView {
            expect_drop: self.expect_drop,
            follow_ups: text::views(self.follow_ups@),
            additional: self.additional,
            timeout_ms: self.timeout_ms,
            stage: self.stage,
            session: self.session@,
            routed: self.routed,
        }
    }
}

impl TripView {
    /// How the messages that come by themselves are taken up, with so many left.
    pub open spec fn awaiting(self, left: usize) -> (TripView, TripActionView) {
        if left == 0 {
            (TripView { stage: TripStage::Over, ..self }, TripActionView::Collect)
        } else {
            (
                TripView { stage: TripStage::Awaiting { left: (left - 1) as usize }, ..self },
                TripActionView::Await(self.timeout_ms),
            )
        }
    }

    /// How the further texts are taken up, with so many left.
    pub open spec fn following(self, left: usize) -> (TripView, TripActionView) {
        if left == 0 || left > self.follow_ups.len() {
            self.awaiting(self.additional)
        } else {
            (
                TripView { stage: TripStage::FollowUpRouting { left: (left - 1) as usize }, ..self },
                TripActionView::Route(self.follow_ups[self.follow_ups.len() - left]),
            )
        }
    }

    /// How a round trip ends that failed, for a reason.
    pub open spec fn failed(self, reason: Seq<char>) -> (TripView, TripActionView) {
        (TripView { stage: TripStage::Over, ..self }, TripActionView::Fail(reason))
    }

    /// What is done next, given what came of the last action.
    pub open spec fn next(self, event: TripEventView) -> (TripView, TripActionView) {
        match (self.stage, event) {
            (TripStage::FirstRouting, TripEventView::Received(session)) => (
                TripView { stage: TripStage::FirstHandling { routed: true }, session, ..self },
                TripActionView::HandleReceived,
            ),
            (TripStage::FirstRouting, _) => if self.expect_drop {
                self.following(self.follow_ups.len() as usize)
            } else {
                self.failed(listener_failure(event))
            },
            (TripStage::FirstHandling { .. }, TripEventView::Handled) => (TripView {
                routed: true,
                ..self
            }).following(self.follow_ups.len() as usize),
            (TripStage::FirstHandling { routed }, _) => self.failed(
                if routed {
                    "failed to process routed inbound message"@
                } else {
                    "failed to process one inbound message"@
                },
            ),
            (TripStage::FollowUpRouting { left }, TripEventView::Received(_)) => (
                TripView { stage: TripStage::FollowUpHandling { left }, ..self },
                TripActionView::HandleReceived,
            ),
            (TripStage::FollowUpRouting { .. }, _) => self.failed(
                "failed to route follow-up inbound through gateway listener"@,
            ),
            (TripStage::FollowUpHandling { left }, TripEventView::Handled) => self.following(left),
            (TripStage::FollowUpHandling { .. }, _) => self.failed(
                "failed to process routed follow-up inbound message"@,
            ),
            (TripStage::Awaiting { left }, TripEventView::Received(_)) => (
                TripView { stage: TripStage::AwaitedHandling { left }, ..self },
                TripActionView::HandleReceived,
            ),
            (TripStage::Awaiting { .. }, TripEventView::TimedOut) => self.failed(
                "timed out waiting for follow-up inbound"@,
            ),
            (TripStage::Awaiting { .. }, _) => self.failed(
                "gateway inbound queue closed unexpectedly"@,
            ),
            (TripStage::AwaitedHandling { left }, TripEventView::Handled) => self.awaiting(left),
            (TripStage::AwaitedHandling { .. }, _) => self.failed(
                "failed to process follow-up inbound message"@,
            ),
            (TripStage::Over, _) => (self, TripActionView::Collect),
        }
    }

    /// How many messages a round trip still handles at most.
    pub open spec fn still_to_handle(self) -> int {
        let all = self.follow_ups.len() as int + self.additional as int;
        match self.stage {
            TripStage::FirstRouting => 1 + all,
            TripStage::FirstHandling { .. } => 1 + all,
            TripStage::FollowUpRouting { left } => 1 + left as int + self.additional as int,
            TripStage::FollowUpHandling { left } => 1 + left as int + self.additional as int,
            TripStage::Awaiting { left } => 1 + left as int,
            TripStage::AwaitedHandling { left } => 1 + left as int,
            TripStage::Over => 0,
        }
    }
}

impl RoundTrip {
    /// A round trip at its start, and what is done first.
    pub fn start(config: &TestHarnessConfig) -> (r: (Self, TripAction))
        ensures
            r.0@ == (TripView {
                expect_drop: config.expect_listener_drop,
                follow_ups: text::views(config.follow_up_inbound_contents@),
                additional: config.additional_inbounds_to_process,
                timeout_ms: config.additional_inbound_timeout_ms,
                stage: if config.route_via_gateway_listener {
                    TripStage::FirstRouting
                } else {
                    TripStage::FirstHandling { routed: false }
                },
                session: if config.route_via_gateway_listener {
                    Seq::empty()
                } else {
                    testing::session_of(config.agent_id@, config.channel_id@)
                },
                routed: false,
            }),
            r.1@ == if config.route_via_gateway_listener {
                TripActionView::Route(config.inbound_content@)
            } else {
                TripActionView::HandleFirst
            },
    {
        let mut follow_ups: Vec<String> = Vec::new();
        let mut i: usize = 0;
        while i < config.follow_up_inbound_contents.len()
            invariant
                i <= config.follow_up_inbound_contents@.len(),
                follow_ups@.len() == i,
                forall|k: int|
                    0 <= k < i ==> (#[trigger] follow_ups@[k])@
                        == config.follow_up_inbound_contents@[k]@,
            decreases config.follow_up_inbound_contents@.len() - i,
        {
            follow_ups.push(config.follow_up_inbound_contents[i].clone());
            i = i + 1;
        }
        assert(text::views(follow_ups@) =~= text::views(config.follow_up_inbound_contents@));
        let (stage, session, action) = if config.route_via_gateway_listener {
            let none = String::new();
            assert(none@ =~= Seq::<char>::empty());
            (TripStage::FirstRouting, none, TripAction::Route(config.inbound_content.clone()))
        } else {
            let named = text::concat3("agent:", config.agent_id.as_str(), ":discord:");
            (
                TripStage::FirstHandling { routed: false },
                text::concat2(named.as_str(), config.channel_id.as_str()),
                TripAction::HandleFirst,
            )
        };
        (
            RoundTrip {
                expect_drop: config.expect_listener_drop,
                follow_ups,
                additional: config.additional_inbounds_to_process,
                timeout_ms: config.additional_inbound_timeout_ms,
                stage,
                session,
                routed: false,
            },
            action,
        )
    }

    /// Takes up the messages that come by themselves, with so many left.
    fn await_more(&mut self, left: usize) -> (r: TripAction)
        ensures
            (final(self)@, r@) == old(self)@.awaiting(left),
    {
        if left == 0 {
            self.stage = TripStage::Over;
            TripAction::Collect
        } else {
            self.stage = TripStage::Awaiting { left: left - 1 };
            TripAction::Await(self.timeout_ms)
        }
    }

    /// Takes up the further texts, with so many left.
    fn follow(&mut self, left: usize) -> (r: TripAction)
        ensures
            (final(self)@, r@) == old(self)@.following(left),
    {
        if left == 0 || left > self.follow_ups.len() {
            let additional = self.additional;
            self.await_more(additional)
        } else {
            self.stage = TripStage::FollowUpRouting { left: left - 1 };
            TripAction::Route(self.follow_ups[self.follow_ups.len() - left].clone())
        }
    }

    /// Ends the round trip, which failed, for a reason.
    fn fail(&mut self, reason: &'static str) -> (r: TripAction)
        ensures
            (final(self)@, r@) == old(self)@.failed(reason@),
    {
        self.stage = TripStage::Over;
        TripAction::Fail(reason)
    }

    /// What is done next, given what came of the last action.
    pub fn step(&mut self, event: TripEvent) -> (r: TripAction)
        ensures
            (final(self)@, r@) == old(self)@.next(event@),
    {
        match self.stage {
            TripStage::FirstRouting => match event {
                TripEvent::Received(session) => {
                    self.stage = TripStage::FirstHandling { routed: true };
                    self.session = session;
                    TripAction::HandleReceived
                },
                _ => if self.expect_drop {
                    let left = self.follow_ups.len();
                    self.follow(left)
                } else {
                    match event {
                        TripEvent::NotSent => self.fail(
                            "failed to enqueue test inbound for gateway listener",
                        ),
                        TripEvent::TimedOut => self.fail(
                            "timed out waiting for gateway listener to emit inbound",
                        ),
                        _ => self.fail("gateway inbound queue closed unexpectedly"),
                    }
                },
            },
            TripStage::FirstHandling { routed } => match event {
                TripEvent::Handled => {
                    self.routed = true;
                    let left = self.follow_ups.len();
                    self.follow(left)
                },
                _ => if routed {
                    self.fail("failed to process routed inbound message")
                } else {
                    self.fail("failed to process one inbound message")
                },
            },
            TripStage::FollowUpRouting { left } => match event {
                TripEvent::Received(_) => {
                    self.stage = TripStage::FollowUpHandling { left };
                    TripAction::HandleReceived
                },
                _ => self.fail("failed to route follow-up inbound through gateway listener"),
            },
            TripStage::FollowUpHandling { left } => match event {
                TripEvent::Handled => self.follow(left),
                _ => self.fail("failed to process routed follow-up inbound message"),
            },
            TripStage::Awaiting { left } => match event {
                TripEvent::Received(_) => {
                    self.stage = TripStage::AwaitedHandling { left };
                    TripAction::HandleReceived
                },
                TripEvent::TimedOut => self.fail("timed out waiting for follow-up inbound"),
                _ => self.fail("gateway inbound queue closed unexpectedly"),
            },
            TripStage::AwaitedHandling { left } => match event {
                TripEvent::Handled => self.await_more(left),
                _ => self.fail("failed to process follow-up inbound message"),
            },
            TripStage::Over => TripAction::Collect,
        }
    }
}

/// A round trip handles what it was made for and no more: each message that is handled leaves one
/// less to handle, and nothing adds to them.
pub proof fn law_round_trips_end(trip: TripView, event: TripEventView)
    requires
        trip.follow_ups.len() <= usize::MAX,
    ensures
        trip.next(event).0.still_to_handle() <= trip.still_to_handle(),
        event is Handled && trip.still_to_handle() > 0 ==> trip.next(event).0.still_to_handle()
            < trip.still_to_handle(),
        trip.next(event).0.still_to_handle() == 0 <==> trip.next(event).1 is Collect || trip.next(
            event,
        ).1 is Fail,
{
}

/// What came of a round trip.
#[derive(Debug, PartialEq, Eq)]
pub struct TestTurnResult {
    pub outbound_messages: Vec<TestOutboundMessage>,
    pub provider_call_count: usize,
    pub provider_call_counts: Vec<(String, usize)>,
    pub typing_events: usize,
    pub memory_session_id: String,
    pub listener_routed: bool,
    pub ephemeral_paths: EphemeralPaths,
    pub observed_tool_result: bool,
    pub observed_tool_response: Option<Json>,
    pub observed_tool_responses: Vec<Json>,
}

/// How often models were asked.
pub open spec fn calls_of(providers: Seq<(String, ScriptedProvider)>) -> int
    decreases providers.len(),
{
    if providers.len() == 0 {
        0
    } else {
        calls_of(providers.drop_last()) + providers.last().1.call_count
    }
}

/// The calls of some of the models are no more than the calls of all.
proof fn lemma_calls(providers: Seq<(String, ScriptedProvider)>, n: int)
    requires
        0 <= n <= providers.len(),
    ensures
        0 <= calls_of(providers.take(n)) <= calls_of(providers),
    decreases providers.len(),
{
    if n < providers.len() {
        assert(providers.drop_last().take(n) =~= providers.take(n));
        lemma_calls(providers.drop_last(), n);
    } else {
        assert(providers.take(n) =~= providers);
        if n > 0 {
            lemma_calls(providers.drop_last(), 0);
            assert(providers.drop_last().take(0) =~= Seq::empty());
        }
    }
}

/// How often each model was asked, and how often all of them were.
pub fn call_counts(providers: &KeyedProviders) -> (r: (Vec<(String, usize)>, usize))
    requires
        calls_of(providers@) <= usize::MAX,
    ensures
        r.1 == calls_of(providers@),
        r.0@.len() == providers@.len(),
        forall|i: int|
            0 <= i < r.0@.len() ==> (#[trigger] r.0@[i]).0@ == providers@[i].0@ && r.0@[i].1
                == providers@[i].1.call_count,
{
    let mut counts: Vec<(String, usize)> = Vec::new();
    let mut total: usize = 0;
    let mut i: usize = 0;
    assert(providers@.take(0) =~= Seq::empty());
    while i < providers.len()
        invariant
            i <= providers@.len(),
            calls_of(providers@) <= usize::MAX,
            total == calls_of(providers@.take(i as int)),
            counts@.len() == i,
            forall|k: int|
                0 <= k < i ==> (#[trigger] counts@[k]).0@ == providers@[k].0@ && counts@[k].1
                    == providers@[k].1.call_count,
        decreases providers@.len() - i,
    {
        proof {
            assert(providers@.take(i + 1).drop_last() =~= providers@.take(i as int));
            lemma_calls(providers@, i + 1);
        }
        counts.push((providers[i].0.clone(), providers[i].1.call_count));
        total = total + providers[i].1.call_count;
        i = i + 1;
    }
    assert(providers@.take(providers@.len() as int) =~= providers@);
    (counts, total)
}

/// What came of a round trip: nothing where there is no model under the key of its agent.
pub fn turn_result(
    trip: RoundTrip,
    providers: KeyedProviders,
    primary_key: &str,
    outbound_messages: Vec<TestOutboundMessage>,
    typing_events: usize,
    ephemeral_paths: EphemeralPaths,
) -> (r: Option<TestTurnResult>)
    requires
        calls_of(providers@) <= usize::MAX,
    ensures
        match key_place(provider_scripts(providers@), primary_key@) {
            None => r is None,
            Some(i) => {
                &&& r is Some
                &&& r->0.outbound_messages == outbound_messages
                &&& r->0.provider_call_count == calls_of(providers@)
                &&& r->0.provider_call_counts@.len() == providers@.len()
                &&& forall|k: int|
                    0 <= k < providers@.len() ==> (#[trigger] r->0.provider_call_counts@[k]).0@
                        == providers@[k].0@ && r->0.provider_call_counts@[k].1
                        == providers@[k].1.call_count
                &&& r->0.typing_events == typing_events
                &&& r->0.memory_session_id == trip.session
                &&& r->0.listener_routed == trip.routed
                &&& r->0.ephemeral_paths == ephemeral_paths
                &&& r->0.observed_tool_responses == providers@[i].1.observed_tool_responses
                &&& r->0.observed_tool_result == (
                providers@[i].1.observed_tool_responses@.len() > 0)
                &&& match r->0.observed_tool_response {
                    Some(response) => providers@[i].1.observed_tool_responses@.len() > 0
                        && response@ == providers@[i].1.observed_tool_responses@.last()@,
                    None => providers@[i].1.observed_tool_responses@.len() == 0,
                }
            },
        },
{
    let at = match provider_place(&providers, primary_key) {
        Some(at) => at,
        None => {
            return None;
        },
    };
    let (provider_call_counts, provider_call_count) = call_counts(&providers);
    let mut rest = providers;
    let (_, primary) = rest.swap_remove(at);
    let seen = primary.observed_tool_responses;
    let observed_tool_response = if seen.len() > 0 {
        Some(seen[seen.len() - 1].clone())
    } else {
        None
    };
    Some(
        TestTurnResult {
            outbound_messages,
            provider_call_count,
            provider_call_counts,
            typing_events,
            memory_session_id: trip.session,
            listener_routed: trip.routed,
            ephemeral_paths,
            observed_tool_result: seen.len() > 0,
            observed_tool_response,
            observed_tool_responses: seen,
        },
    )
}

/// The first message is handled when it has come in; where it is expected to be dropped, not coming
/// in is no failure.
pub proof fn law_first_messages_are_handled(trip: TripView, event: TripEventView)
    requires
        trip.stage == TripStage::FirstRouting,
        trip.follow_ups.len() <= usize::MAX,
    ensures
        event matches TripEventView::Received(session) ==> trip.next(event).1 is HandleReceived
            && trip.next(event).0.session == session && trip.next(event).0.stage
            == (TripStage::FirstHandling { routed: true }),
        !(event is Received) && !trip.expect_drop ==> trip.next(event).1 is Fail,
        !(event is Received) && trip.expect_drop && trip.follow_ups.len() > 0 ==> trip.next(event).1
            == TripActionView::Route(trip.follow_ups[0]),
        !(event is Received) && trip.expect_drop && trip.follow_ups.len() == 0 && trip.additional
            == 0 ==> trip.next(event).1 is Collect,
{
}

/// The follow-ups are sent one after another, in their order, each when the one before is handled.
pub proof fn law_follow_ups_are_sent_in_order(trip: TripView, left: usize, session: Seq<char>)
    requires
        trip.follow_ups.len() <= usize::MAX,
        left <= trip.follow_ups.len(),
    ensures
        trip.stage is FirstHandling && trip.follow_ups.len() > 0 ==> {
            let (after, action) = trip.next(TripEventView::Handled);
            &&& action == TripActionView::Route(trip.follow_ups[0])
            &&& after.stage == (TripStage::FollowUpRouting {
                left: (trip.follow_ups.len() - 1) as usize,
            })
            &&& after.routed
        },
        trip.stage == (TripStage::FollowUpRouting { left }) ==> {
            let (after, action) = trip.next(TripEventView::Received(session));
            &&& action is HandleReceived
            &&& after.stage == (TripStage::FollowUpHandling { left })
        },
        trip.stage == (TripStage::FollowUpHandling { left }) && left > 0 ==> {
            let (after, action) = trip.next(TripEventView::Handled);
            &&& action == TripActionView::Route(trip.follow_ups[trip.follow_ups.len() - left])
            &&& after.stage == (TripStage::FollowUpRouting { left: (left - 1) as usize })
        },
        trip.stage == (TripStage::FollowUpHandling { left }) && left == 0 && trip.additional == 0
            ==> trip.next(TripEventView::Handled).1 is Collect,
        trip.stage == (TripStage::FollowUpHandling { left }) && left == 0 && trip.additional > 0
            ==> trip.next(TripEventView::Handled).1 == TripActionView::Await(trip.timeout_ms),
{
}

/// As many further messages are awaited as were asked for, each for the time that was set.
pub proof fn law_further_messages_are_awaited(trip: TripView, left: usize, session: Seq<char>)
    ensures
        trip.stage == (TripStage::Awaiting { left }) ==> {
            let (after, action) = trip.next(TripEventView::Received(session));
            &&& action is HandleReceived
            &&& after.stage == (TripStage::AwaitedHandling { left })
        },
        trip.stage == (TripStage::Awaiting { left }) ==> trip.next(TripEventView::TimedOut).1
            is Fail,
        trip.stage == (TripStage::AwaitedHandling { left }) && left > 0 ==> {
            let (after, action) = trip.next(TripEventView::Handled);
            &&& action == TripActionView::Await(trip.timeout_ms)
            &&& after.stage == (TripStage::Awaiting { left: (left - 1) as usize })
        },
        trip.stage == (TripStage::AwaitedHandling { left }) && left == 0 ==> trip.next(
            TripEventView::Handled,
        ).1 is Collect,
        trip.stage is Over ==> trip.next(TripEventView::Handled).1 is Collect,
{
}

/// A message that is not handled ends the trip.
pub proof fn law_failures_end_the_trip(trip: TripView, event: TripEventView)
    requires
        !(event is Handled),
        trip.stage is FirstHandling || trip.stage is FollowUpHandling || trip.stage
            is AwaitedHandling,
    ensures
        trip.next(event).1 is Fail,
        trip.next(event).0.stage is Over,
{
}

/// The agent's own key is used, the first that was set up for its id, and the usual one where there
/// is none.
pub proof fn law_agents_use_their_key(agents: Seq<TestAgentConfig>, agent_id: Seq<char>, i: int)
    ensures
        0 <= i < agents.len() && agents[i].id@ == agent_id && (forall|k: int|
            0 <= k < i ==> (#[trigger] agents[k]).id@ != agent_id) ==> primary_key(
            agents,
            agent_id,
            0,
        ) == agents[i].provider_key@,
        (forall|k: int| 0 <= k < agents.len() ==> (#[trigger] agents[k]).id@ != agent_id)
            ==> primary_key(agents, agent_id, 0) == "default"@,
{
    if 0 <= i < agents.len() && agents[i].id@ == agent_id && (forall|k: int|
        0 <= k < i ==> (#[trigger] agents[k]).id@ != agent_id) {
        lemma_primary(agents, agent_id, 0, i);
    }
    if forall|k: int| 0 <= k < agents.len() ==> (#[trigger] agents[k]).id@ != agent_id {
        lemma_no_primary(agents, agent_id, 0);
    }
}

/// The search from a place on.
proof fn lemma_primary(agents: Seq<TestAgentConfig>, agent_id: Seq<char>, from: int, i: int)
    requires
        0 <= from <= i < agents.len(),
        agents[i].id@ == agent_id,
        forall|k: int| 0 <= k < i ==> (#[trigger] agents[k]).id@ != agent_id,
    ensures
        primary_key(agents, agent_id, from) == agents[i].provider_key@,
    decreases i - from,
{
    if from < i {
        assert(agents[from].id@ != agent_id);
        lemma_primary(agents, agent_id, from + 1, i);
    }
}

/// The search from a place on, where there is nothing to find.
proof fn lemma_no_primary(agents: Seq<TestAgentConfig>, agent_id: Seq<char>, from: int)
    requires
        0 <= from,
        forall|k: int| 0 <= k < agents.len() ==> (#[trigger] agents[k]).id@ != agent_id,
    ensures
        primary_key(agents, agent_id, from) == "default"@,
    decreases agents.len() - from,
{
    if from < agents.len() {
        lemma_no_primary(agents, agent_id, from + 1);
    }
}

/// The last script that was set up under a key is the one that is played, and those under other keys
/// stay.
pub proof fn law_the_last_script_is_played(agents: Seq<TestAgentConfig>, next: TestAgentConfig)
    ensures
        ({
            let before = scripts_of(agents);
            let all = scripts_of(agents.push(next));
            let place = key_place(before, next.provider_key@);
            &&& place is None ==> all == before.push((next.provider_key@, next.script@))
            &&& place is Some ==> all == before.update(
                place->0,
                (next.provider_key@, next.script@),
            )
        }),
{
    assert(agents.push(next).drop_last() =~= agents);
}

/// The calls of all models add up.
pub proof fn law_calls_add_up(providers: Seq<(String, ScriptedProvider)>, next: (String, ScriptedProvider))
    ensures
        calls_of(Seq::empty()) == 0,
        calls_of(providers.push(next)) == calls_of(providers) + next.1.call_count,
{
    assert(providers.push(next).drop_last() =~= providers);
}

/// What came of a trip is told as it is.
pub proof fn law_trips_are_told_as_they_went(
    trip: RoundTrip,
    providers: KeyedProviders,
    primary_key: &str,
    outbound_messages: Vec<TestOutboundMessage>,
    typing_events: usize,
    ephemeral_paths: EphemeralPaths,
    r: Option<TestTurnResult>,
)
    requires
        call_ensures(
            turn_result,
            (
                trip,
                providers,
                primary_key,
                outbound_messages,
                typing_events,
                ephemeral_paths,
            ),
            r,
        ),
    ensures
        r is Some <==> key_place(provider_scripts(providers@), primary_key@) is Some,
        r matches Some(result) ==> {
            &&& result.outbound_messages == outbound_messages
            &&& result.typing_events == typing_events
            &&& result.memory_session_id == trip.session
            &&& result.listener_routed == trip.routed
            &&& result.provider_call_count == calls_of(providers@)
        },
{
}

/// A trip starts with the message that was set up: through the listener where it was asked to, and
/// else at once.
pub proof fn law_trips_start_as_set_up(config: &TestHarnessConfig, r: (RoundTrip, TripAction))
    requires
        call_ensures(RoundTrip::start, (config,), r),
    ensures
        config.route_via_gateway_listener ==> (r.1 matches TripAction::Route(content) && content@
            == config.inbound_content@),
        !config.route_via_gateway_listener ==> r.1 is HandleFirst,
        r.0.expect_drop == config.expect_listener_drop,
        r.0.follow_ups@.len() == config.follow_up_inbound_contents@.len(),
        r.0.additional == config.additional_inbounds_to_process,
        !r.0.routed,
{
    assert(text::views(r.0.follow_ups@).len() == r.0.follow_ups@.len());
    assert(text::views(config.follow_up_inbound_contents@).len()
        == config.follow_up_inbound_contents@.len());
}

} // verus!
