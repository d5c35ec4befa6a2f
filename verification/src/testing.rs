//! The harness for round trips: scripted agents, and what they send.
use vstd::prelude::*;
use crate::channels::{InboundMessage, InboundMessageKind, InboundView};
use crate::config::{ExecToolConfig, FileToolConfig, GatewayChannelKind, ToolSandboxConfig};
use crate::error::{ErrorView, FrameworkError};
use crate::json::{Json, JsonView};
use crate::paths;
use crate::providers::types::{copy_text, Message, MessageView, ProviderResponse, ResponseView, ToolCall};
use crate::providers::types;
use crate::text;
use crate::tools::delegate::{SummonToolConfig, TaskToolConfig};

verus! {

/// The tools that an agent has settings for.
#[derive(Debug, PartialEq, Eq)]
pub struct AgentToolsConfig {
    pub exec_tool: Option<ExecToolConfig>,
    pub list: Option<FileToolConfig>,
    pub grep: Option<FileToolConfig>,
    pub glob: Option<FileToolConfig>,
    pub summon: Option<SummonToolConfig>,
    pub task: Option<TaskToolConfig>,
}

/// The settings of an agent.
#[derive(Debug, PartialEq, Eq)]
pub struct AgentInnerConfig {
    pub provider: Option<String>,
    pub tools: AgentToolsConfig,
}

/// No settings at all.
pub open spec fn plain_agent() -> AgentInnerConfig {
    AgentInnerConfig {
        provider: None,
        tools: AgentToolsConfig {
            exec_tool: None,
            list: None,
            grep: None,
            glob: None,
            summon: None,
            task: None,
        },
    }
}

impl Default for AgentInnerConfig {
    fn default() -> (r: Self)
        ensures
            r == plain_agent(),
    {
        AgentInnerConfig {
            provider: None,
            tools: AgentToolsConfig {
                exec_tool: None,
                list: None,
                grep: None,
                glob: None,
                summon: None,
                task: None,
            },
        }
    }
}

/// A tool call that a script makes.
#[derive(Debug, PartialEq, Eq)]
pub struct ScriptedToolCall {
    pub id: Option<String>,
    pub name: String,
    pub args_json: String,
}

/// What a scripted model does at one turn.
#[derive(Debug, PartialEq, Eq)]
pub enum ProviderScriptStep {
    /// It answers.
    Reply(String),
    /// It calls a tool.
    ToolCall(ScriptedToolCall),
    /// It fails.
    Error(String),
}

/// An agent with a script.
#[derive(Debug, PartialEq, Eq)]
pub struct TestAgentConfig {
    pub id: String,
    pub name: String,
    pub provider_key: String,
    pub agent_config: AgentInnerConfig,
    pub script: Vec<ProviderScriptStep>,
}

/// Whether a sandbox has nothing set but whether it is on.
pub open spec fn plain_sandbox(sandbox: ToolSandboxConfig, enabled: bool) -> bool {
    &&& sandbox.enabled == enabled
    &&& sandbox.extra_readable_paths@ == Seq::<String>::empty()
    &&& sandbox.extra_writable_paths@ == Seq::<String>::empty()
    &&& sandbox.network_enabled is None
}

/// A sandbox with nothing set but whether it is on.
fn sandbox_that_is(enabled: bool) -> (r: ToolSandboxConfig)
    ensures
        plain_sandbox(r, enabled),
{
    let usual = ToolSandboxConfig::default();
    ToolSandboxConfig { enabled, ..usual }
}

/// Whether a tool that works on files has nothing set but whether its sandbox is on.
pub open spec fn plain_file_tool(config: Option<FileToolConfig>, enabled: bool) -> bool {
    config is Some && config->0.timeout_seconds is None && plain_sandbox(config->0.sandbox, enabled)
}

/// A tool that works on files, with nothing set but whether its sandbox is on.
fn file_tool_that_is(enabled: bool) -> (r: Option<FileToolConfig>)
    ensures
        plain_file_tool(r, enabled),
{
    Some(FileToolConfig { timeout_seconds: None, sandbox: sandbox_that_is(enabled) })
}

impl TestAgentConfig {
    /// An agent with a script and no settings.
    pub fn new(id: &str, name: &str, provider_key: &str, script: Vec<ProviderScriptStep>) -> (r:
        Self)
        ensures
            r.id@ == id@ && r.name@ == name@ && r.provider_key@ == provider_key@,
            r.agent_config == plain_agent(),
            r.script == script,
    {
        TestAgentConfig {
            id: id.to_owned(),
            name: name.to_owned(),
            provider_key: provider_key.to_owned(),
            agent_config: AgentInnerConfig::default(),
            script,
        }
    }

    /// The agent with settings for the exec tool.
    pub fn with_exec_tool(
        self,
        timeout_seconds: Option<u64>,
        allow_background: bool,
        sandbox_enabled: bool,
    ) -> (r: Self)
        ensures
            r.agent_config.tools.exec_tool matches Some(config) && config.timeout_seconds
                == timeout_seconds && config.allow_background == allow_background
                && plain_sandbox(config.sandbox, sandbox_enabled),
            r == (TestAgentConfig {
                agent_config: AgentInnerConfig {
                    tools: AgentToolsConfig {
                        exec_tool: r.agent_config.tools.exec_tool,
                        ..self.agent_config.tools
                    },
                    ..self.agent_config
                },
                ..self
            }),
    {
        let mut agent = self;
        agent.agent_config.tools.exec_tool = Some(
            ExecToolConfig {
                timeout_seconds,
                allow_background,
                sandbox: sandbox_that_is(sandbox_enabled),
            },
        );
        agent
    }

    /// The agent with the list tool.
    pub fn with_list_tool(self, sandbox_enabled: bool) -> (r: Self)
        ensures
            plain_file_tool(r.agent_config.tools.list, sandbox_enabled),
            r == (TestAgentConfig {
                agent_config: AgentInnerConfig {
                    tools: AgentToolsConfig {
                        list: r.agent_config.tools.list,
                        ..self.agent_config.tools
                    },
                    ..self.agent_config
                },
                ..self
            }),
    {
        let mut agent = self;
        agent.agent_config.tools.list = file_tool_that_is(sandbox_enabled);
        agent
    }

    /// The agent with the grep tool.
    pub fn with_grep_tool(self, sandbox_enabled: bool) -> (r: Self)
        ensures
            plain_file_tool(r.agent_config.tools.grep, sandbox_enabled),
            r == (TestAgentConfig {
                agent_config: AgentInnerConfig {
                    tools: AgentToolsConfig {
                        grep: r.agent_config.tools.grep,
                        ..self.agent_config.tools
                    },
                    ..self.agent_config
                },
                ..self
            }),
    {
        let mut agent = self;
        agent.agent_config.tools.grep = file_tool_that_is(sandbox_enabled);
        agent
    }

    /// The agent with the glob tool.
    pub fn with_glob_tool(self, sandbox_enabled: bool) -> (r: Self)
        ensures
            plain_file_tool(r.agent_config.tools.glob, sandbox_enabled),
            r == (TestAgentConfig {
                agent_config: AgentInnerConfig {
                    tools: AgentToolsConfig {
                        glob: r.agent_config.tools.glob,
                        ..self.agent_config.tools
                    },
                    ..self.agent_config
                },
                ..self
            }),
    {
        let mut agent = self;
        agent.agent_config.tools.glob = file_tool_that_is(sandbox_enabled);
        agent
    }

    /// The agent with a list of those it may summon.
    pub fn with_summon_allowed(self, allowed: Vec<String>) -> (r: Self)
        ensures
            r == (TestAgentConfig {
                agent_config: AgentInnerConfig {
                    tools: AgentToolsConfig {
                        summon: Some(SummonToolConfig { allowed, allow_background: false }),
                        ..self.agent_config.tools
                    },
                    ..self.agent_config
                },
                ..self
            }),
    {
        let mut agent = self;
        agent.agent_config.tools.summon = Some(
            SummonToolConfig { allowed, allow_background: false },
        );
        agent
    }

    /// The agent with a bound on the steps of its workers.
    pub fn with_task_worker_max_steps(self, worker_max_steps: Option<u32>) -> (r: Self)
        ensures
            r == (TestAgentConfig {
                agent_config: AgentInnerConfig {
                    tools: AgentToolsConfig {
                        task: Some(TaskToolConfig { worker_max_steps, allow_background: false }),
                        ..self.agent_config.tools
                    },
                    ..self.agent_config
                },
                ..self
            }),
    {
        let mut agent = self;
        agent.agent_config.tools.task = Some(
            TaskToolConfig { worker_max_steps, allow_background: false },
        );
        agent
    }

    /// The agent with another provider.
    pub fn with_provider_key(self, provider_key: &str) -> (r: Self)
        ensures
            r.provider_key@ == provider_key@,
            text::opt_view(r.agent_config.provider) == Some(provider_key@),
            r == (TestAgentConfig {
                provider_key: r.provider_key,
                agent_config: AgentInnerConfig {
                    provider: r.agent_config.provider,
                    ..self.agent_config
                },
                ..self
            }),
    {
        let mut agent = self;
        agent.provider_key = provider_key.to_owned();
        agent.agent_config.provider = Some(provider_key.to_owned());
        agent
    }
}

/// What a round trip is made of.
#[derive(Debug, PartialEq, Eq)]
pub struct TestHarnessConfig {
    pub agent_id: String,
    pub agent_name: String,
    pub inbound_content: String,
    pub mock_reply: String,
    pub channel_id: String,
    pub user_id: String,
    pub username: String,
    pub max_steps: u32,
    pub scripted_tool_call: Option<ScriptedToolCall>,
    pub scripted_final_reply: Option<String>,
    pub exec_timeout_seconds: Option<u64>,
    pub route_via_gateway_listener: bool,
    pub is_dm: bool,
    pub mentioned_bot: bool,
    pub require_mentions: bool,
    pub allow_from: Option<Vec<String>>,
    pub expect_listener_drop: bool,
    pub follow_up_inbound_contents: Vec<String>,
    pub additional_inbounds_to_process: usize,
    pub additional_inbound_timeout_ms: u64,
    pub agents: Vec<TestAgentConfig>,
}

impl Default for TestHarnessConfig {
    fn default() -> (r: Self)
        ensures
            r.agent_id@ == "default"@,
            r.agent_name@ == "Default"@,
            r.inbound_content@ == "hello from integration test"@,
            r.mock_reply@ == "mock reply"@,
            r.channel_id@ == "integration-channel"@,
            r.user_id@ == "integration-user"@,
            r.username@ == "integration-user"@,
            r.max_steps == 4,
            r.scripted_tool_call is None,
            r.scripted_final_reply is None,
            r.exec_timeout_seconds is None,
            !r.route_via_gateway_listener && !r.is_dm && !r.mentioned_bot && !r.require_mentions,
            r.allow_from is None,
            !r.expect_listener_drop,
            r.follow_up_inbound_contents@ == Seq::<String>::empty(),
            r.additional_inbounds_to_process == 0,
            r.additional_inbound_timeout_ms == 2000,
            r.agents@ == Seq::<TestAgentConfig>::empty(),
    {
        TestHarnessConfig {
            agent_id: "default".to_owned(),
            agent_name: "Default".to_owned(),
            inbound_content: "hello from integration test".to_owned(),
            mock_reply: "mock reply".to_owned(),
            channel_id: "integration-channel".to_owned(),
            user_id: "integration-user".to_owned(),
            username: "integration-user".to_owned(),
            max_steps: 4,
            scripted_tool_call: None,
            scripted_final_reply: None,
            exec_timeout_seconds: None,
            route_via_gateway_listener: false,
            is_dm: false,
            mentioned_bot: false,
            require_mentions: false,
            allow_from: None,
            expect_listener_drop: false,
            follow_up_inbound_contents: Vec::new(),
            additional_inbounds_to_process: 0,
            additional_inbound_timeout_ms: 2000,
            agents: Vec::new(),
        }
    }
}

/// The script of the one agent that there is where none is given.
pub open spec fn script_of(config: TestHarnessConfig) -> Seq<ProviderScriptStep> {
    match config.scripted_tool_call {
        Some(call) => seq![
            ProviderScriptStep::ToolCall(call),
            ProviderScriptStep::Reply(
                match config.scripted_final_reply {
                    Some(reply) => reply,
                    None => config.mock_reply,
                },
            ),
        ],
        None => seq![ProviderScriptStep::Reply(config.mock_reply)],
    }
}

/// The agents of a round trip: those that are given, or else one with the settings of the round
/// trip.
pub fn effective_agents(config: TestHarnessConfig) -> (r: Vec<TestAgentConfig>)
    ensures
        config.agents@.len() > 0 ==> r@ == config.agents@,
        config.agents@.len() == 0 ==> {
            &&& r@.len() == 1
            &&& r@[0].id@ == config.agent_id@
            &&& r@[0].name@ == config.agent_name@
            &&& r@[0].provider_key@ == "default"@
            &&& r@[0].script@ == script_of(config)
            &&& match config.exec_timeout_seconds {
                Some(seconds) => {
                    &&& r@[0].agent_config.tools.exec_tool matches Some(exec_tool)
                        && exec_tool.timeout_seconds == Some(seconds)
                        && !exec_tool.allow_background && plain_sandbox(exec_tool.sandbox, true)
                    &&& r@[0].agent_config == (AgentInnerConfig {
                        tools: AgentToolsConfig {
                            exec_tool: r@[0].agent_config.tools.exec_tool,
                            ..plain_agent().tools
                        },
                        ..plain_agent()
                    })
                },
                None => r@[0].agent_config == plain_agent(),
            }
        },
{
    if config.agents.len() > 0 {
        return config.agents;
    }
    let mut agent_config = AgentInnerConfig::default();
    if let Some(timeout_seconds) = config.exec_timeout_seconds {
        agent_config.tools.exec_tool = Some(
            ExecToolConfig {
                timeout_seconds: Some(timeout_seconds),
                allow_background: false,
                sandbox: sandbox_that_is(true),
            },
        );
    }
    let script = match config.scripted_tool_call {
        Some(call) => vec![
            ProviderScriptStep::ToolCall(call),
            ProviderScriptStep::Reply(
                match config.scripted_final_reply {
                    Some(reply) => reply,
                    None => config.mock_reply,
                },
            ),
        ],
        None => vec![ProviderScriptStep::Reply(config.mock_reply)],
    };
    vec![
        TestAgentConfig {
            id: config.agent_id,
            name: config.agent_name,
            provider_key: "default".to_owned(),
            agent_config,
            script,
        },
    ]
}

/// What a step answers.
pub open spec fn step_answer(step: ProviderScriptStep) -> Result<ResponseView, ErrorView> {
    match step {
        ProviderScriptStep::Reply(reply) => Ok(
            ResponseView { output_text: Some(reply@), tool_calls: Seq::empty() },
        ),
        ProviderScriptStep::ToolCall(call) => Ok(
            ResponseView {
                output_text: None,
                tool_calls: seq![
                    types::CallView {
                        id: text::opt_view(call.id),
                        name: call.name@,
                        args_json: call.args_json@,
                    },
                ],
            },
        ),
        ProviderScriptStep::Error(message) => Err(ErrorView::Tool(message@)),
    }
}

/// What a script answers at a turn: behind its end the last step goes on, and an empty script says
/// nothing.
pub open spec fn script_answer(script: Seq<ProviderScriptStep>, turn: int) -> Result<
    ResponseView,
    ErrorView,
> {
    if script.len() == 0 {
        Ok(ResponseView { output_text: Some(Seq::empty()), tool_calls: Seq::empty() })
    } else if turn < script.len() {
        step_answer(script[turn])
    } else {
        step_answer(script.last())
    }
}

/// The first tool result of the message that ends a conversation.
pub open spec fn last_result(history: Seq<MessageView>) -> Option<JsonView> {
    if history.len() > 0 && history.last().tool_results.len() > 0 {
        Some(history.last().tool_results[0].response)
    } else {
        None
    }
}

/// A model that follows a script, and notes the tool results that it is shown.
#[derive(Debug, PartialEq, Eq)]
pub struct ScriptedProvider {
    pub script: Vec<ProviderScriptStep>,
    pub call_count: usize,
    pub observed_tool_responses: Vec<Json>,
}

/// Documents as they read.
pub open spec fn document_views(documents: Seq<Json>) -> Seq<JsonView> {
    Seq::new(documents.len(), |i: int| documents[i]@)
}

/// What a step answers.
fn answer_of(step: &ProviderScriptStep) -> (r: Result<ProviderResponse, FrameworkError>)
    ensures
        match r {
            Ok(response) => Ok::<ResponseView, ErrorView>(response@),
            Err(error) => Err(error@),
        } == step_answer(*step),
{
    match step {
        ProviderScriptStep::Reply(reply) => {
            let response = ProviderResponse {
                output_text: Some(reply.clone()),
                tool_calls: Vec::new(),
            };
            assert(response@.tool_calls =~= Seq::empty());
            Ok(response)
        },
        ProviderScriptStep::ToolCall(call) => {
            let made = ToolCall {
                id: copy_text(&call.id),
                name: call.name.clone(),
                args_json: call.args_json.clone(),
            };
            let ghost view = made@;
            let response = ProviderResponse { output_text: None, tool_calls: vec![made] };
            assert(response@.tool_calls =~= seq![view]);
            Ok(response)
        },
        ProviderScriptStep::Error(message) => Err(FrameworkError::Tool(message.clone())),
    }
}

impl ScriptedProvider {
    /// A model that follows a script from its start.
    pub fn new(script: Vec<ProviderScriptStep>) -> (r: Self)
        ensures
            r.script == script,
            r.call_count == 0,
            r.observed_tool_responses@ == Seq::<Json>::empty(),
    {
        ScriptedProvider { script, call_count: 0, observed_tool_responses: Vec::new() }
    }

    /// What the model answers to a conversation.
    pub fn generate(&mut self, history: &Vec<Message>) -> (r: Result<
        ProviderResponse,
        FrameworkError,
    >)
        ensures
            match r {
                Ok(response) => Ok::<ResponseView, ErrorView>(response@),
                Err(error) => Err(error@),
            } == script_answer(old(self).script@, old(self).call_count as int),
            final(self).script == old(self).script,
            final(self).call_count == if old(self).call_count == usize::MAX {
                0
            } else {
                old(self).call_count + 1
            },
            document_views(final(self).observed_tool_responses@) == match last_result(
                types::message_views(history@),
            ) {
                Some(response) => document_views(old(self).observed_tool_responses@).push(
                    response,
                ),
                None => document_views(old(self).observed_tool_responses@),
            },
    {
        let ghost seen = document_views(self.observed_tool_responses@);
        let ghost talk = types::message_views(history@);
        let turn: usize = self.call_count;
        self.call_count = if turn == usize::MAX {
            0
        } else {
            turn + 1
        };
        if history.len() > 0 {
            let message = &history[history.len() - 1];
            assert(talk.last() == message@);
            if message.tool_results.len() > 0 {
                let response = message.tool_results[0].response.clone();
                let ghost shown = response@;
                assert(message@.tool_results[0].response == shown);
                self.observed_tool_responses.push(response);
                assert(document_views(self.observed_tool_responses@) =~= seen.push(shown));
            }
        }
        if turn < self.script.len() {
            answer_of(&self.script[turn])
        } else if self.script.len() > 0 {
            answer_of(&self.script[self.script.len() - 1])
        } else {
            let none = String::new();
            assert(none@ =~= Seq::<char>::empty());
            let response = ProviderResponse { output_text: Some(none), tool_calls: Vec::new() };
            assert(response@.tool_calls =~= Seq::empty());
            Ok(response)
        }
    }

    /// Whether the model was shown a tool result.
    pub fn saw_tool_result(&self) -> (r: bool)
        ensures
            r == (self.observed_tool_responses@.len() > 0),
    {
        self.observed_tool_responses.len() > 0
    }
}

/// The session that a round trip belongs to.
pub open spec fn session_of(agent_id: Seq<char>, channel_id: Seq<char>) -> Seq<char> {
    "agent:"@ + agent_id + ":discord:"@ + channel_id
}

/// The message that a round trip begins with.
pub open spec fn first_message(config: TestHarnessConfig, trace_id: Seq<char>) -> InboundView {
    InboundView {
        trace_id,
        source_channel: GatewayChannelKind::Discord,
        target_agent_id: config.agent_id@,
        session_key: session_of(config.agent_id@, config.channel_id@),
        source_message_id: Some("test-message-1"@),
        channel_id: config.channel_id@,
        guild_id: None,
        is_dm: config.is_dm,
        user_id: config.user_id@,
        username: config.username@,
        mentioned_bot: config.mentioned_bot,
        invoke: true,
        content: config.inbound_content@,
        kind: InboundMessageKind::Text,
    }
}

/// The message that a round trip begins with.
pub fn first_inbound(config: &TestHarnessConfig, trace_id: &str) -> (r: InboundMessage)
    ensures
        r@ == first_message(*config, trace_id@),
{
    let session = text::concat3("agent:", config.agent_id.as_str(), ":discord:");
    InboundMessage {
        trace_id: trace_id.to_owned(),
        source_channel: GatewayChannelKind::Discord,
        target_agent_id: config.agent_id.clone(),
        session_key: text::concat2(session.as_str(), config.channel_id.as_str()),
        source_message_id: Some("test-message-1".to_owned()),
        channel_id: config.channel_id.clone(),
        guild_id: None,
        is_dm: config.is_dm,
        user_id: config.user_id.clone(),
        username: config.username.clone(),
        mentioned_bot: config.mentioned_bot,
        invoke: true,
        content: config.inbound_content.clone(),
        kind: InboundMessageKind::Text,
    }
}

/// A message that was sent.
#[derive(Debug, PartialEq, Eq)]
pub struct TestOutboundMessage {
    pub channel_id: String,
    pub content: String,
}

/// Messages as they read: the channel and the content.
pub open spec fn sent_views(sent: Seq<TestOutboundMessage>) -> Seq<(Seq<char>, Seq<char>)> {
    Seq::new(sent.len(), |i: int| (sent[i].channel_id@, sent[i].content@))
}

/// Where a message with a name stands.
pub open spec fn name_place(ids: Seq<Seq<char>>, id: Seq<char>, from: int) -> Option<int>
    decreases ids.len() - from,
{
    if from < 0 || from >= ids.len() {
        None
    } else if ids[from] == id {
        Some(from)
    } else {
        name_place(ids, id, from + 1)
    }
}

/// A channel that keeps what is sent over it.
#[derive(Debug, PartialEq, Eq)]
pub struct CaptureChannel {
    pub outbound: Vec<TestOutboundMessage>,
    pub outbound_ids: Vec<String>,
    pub next_message_id: usize,
}

impl CaptureChannel {
    /// Whether every name belongs to a message.
    pub open spec fn wf(self) -> bool {
        self.outbound_ids@.len() <= self.outbound@.len()
    }

    /// A channel over which nothing was sent.
    pub fn new() -> (r: Self)
        ensures
            r.wf(),
            r.outbound@ == Seq::<TestOutboundMessage>::empty(),
            r.outbound_ids@ == Seq::<String>::empty(),
            r.next_message_id == 0,
    {
        CaptureChannel { outbound: Vec::new(), outbound_ids: Vec::new(), next_message_id: 0 }
    }

    /// Sends a message that has no name.
    pub fn send_message(&mut self, channel_id: &str, content: &str)
        requires
            old(self).wf(),
        ensures
            final(self).wf(),
            sent_views(final(self).outbound@) == sent_views(old(self).outbound@).push(
                (channel_id@, content@),
            ),
            text::views(final(self).outbound_ids@) == text::views(old(self).outbound_ids@).push(
                Seq::empty(),
            ),
            final(self).next_message_id == old(self).next_message_id,
    {
        let ghost sent = sent_views(self.outbound@);
        let ghost ids = text::views(self.outbound_ids@);
        self.outbound.push(
            TestOutboundMessage { channel_id: channel_id.to_owned(), content: content.to_owned() },
        );
        let none = String::new();
        assert(none@ =~= Seq::<char>::empty());
        self.outbound_ids.push(none);
        assert(sent_views(self.outbound@) =~= sent.push((channel_id@, content@)));
        assert(text::views(self.outbound_ids@) =~= ids.push(Seq::empty()));
    }

    /// Sends a message under a name of its own.
    pub fn send_message_with_id(&mut self, channel_id: &str, content: &str) -> (r: String)
        requires
            old(self).wf(),
        ensures
            final(self).wf(),
            r@ == "test-msg-"@ + text::decimal(old(self).next_message_id as nat),
            sent_views(final(self).outbound@) == sent_views(old(self).outbound@).push(
                (channel_id@, content@),
            ),
            text::views(final(self).outbound_ids@) == text::views(old(self).outbound_ids@).push(r@),
            final(self).next_message_id == if old(self).next_message_id == usize::MAX {
                0
            } else {
                old(self).next_message_id + 1
            },
    {
        let ghost sent = sent_views(self.outbound@);
        let ghost ids = text::views(self.outbound_ids@);
        let number: usize = self.next_message_id;
        self.next_message_id = if number == usize::MAX {
            0
        } else {
            number + 1
        };
        let id = text::concat2("test-msg-", text::decimal_of(number as u64).as_str());
        self.outbound.push(
            TestOutboundMessage { channel_id: channel_id.to_owned(), content: content.to_owned() },
        );
        self.outbound_ids.push(id.clone());
        assert(sent_views(self.outbound@) =~= sent.push((channel_id@, content@)));
        assert(text::views(self.outbound_ids@) =~= ids.push(id@));
        id
    }

    /// Changes the message with a name; where there is none, the message is sent.
    pub fn edit_message(&mut self, channel_id: &str, message_id: &str, content: &str)
        requires
            old(self).wf(),
        ensures
            final(self).wf(),
            sent_views(final(self).outbound@) == match name_place(
                text::views(old(self).outbound_ids@),
                message_id@,
                0,
            ) {
                Some(i) => sent_views(old(self).outbound@).update(i, (channel_id@, content@)),
                None => sent_views(old(self).outbound@).push((channel_id@, content@)),
            },
            final(self).outbound_ids == old(self).outbound_ids,
            final(self).next_message_id == old(self).next_message_id,
    {
        let ghost sent = sent_views(self.outbound@);
        let ghost ids = text::views(self.outbound_ids@);
        let message = TestOutboundMessage {
            channel_id: channel_id.to_owned(),
            content: content.to_owned(),
        };
        let mut i: usize = 0;
        while i < self.outbound_ids.len()
            invariant
                i <= self.outbound_ids@.len(),
                *self == *old(self),
                self.wf(),
                sent == sent_views(self.outbound@),
                ids == text::views(self.outbound_ids@),
                message.channel_id@ == channel_id@ && message.content@ == content@,
                name_place(ids, message_id@, i as int) == name_place(ids, message_id@, 0),
            decreases self.outbound_ids@.len() - i,
        {
            assert(ids[i as int] == self.outbound_ids@[i as int]@);
            if text::same_text(self.outbound_ids[i].as_str(), message_id) {
                self.outbound.set(i, message);
                assert(sent_views(self.outbound@) =~= sent.update(
                    i as int,
                    (channel_id@, content@),
                ));
                return;
            }
            i = i + 1;
        }
        self.outbound.push(message);
        assert(sent_views(self.outbound@) =~= sent.push((channel_id@, content@)));
    }
}

/// The files of a round trip.
#[derive(Debug, PartialEq, Eq)]
pub struct EphemeralPaths {
    pub root_dir: String,
    pub workspace_dir: String,
    pub short_term_db_path: String,
    pub long_term_db_path: String,
    pub db_dir: String,
    pub fastembed_cache_dir: String,
}

impl EphemeralPaths {
    /// The files of a round trip below a directory.
    pub fn below(temp_dir: &str, nanos: u64, nonce: u64) -> (r: Self)
        ensures
            r.root_dir@ == paths::joined_path(
                temp_dir@,
                "simpleclaw_integration_"@ + text::decimal(nanos as nat) + "_"@ + text::decimal(
                    nonce as nat,
                ),
            ),
            r.workspace_dir@ == paths::joined_path(r.root_dir@, "workspace"@),
            r.db_dir@ == paths::joined_path(r.root_dir@, "db"@),
            r.short_term_db_path@ == paths::joined_path(r.db_dir@, "short.db"@),
            r.long_term_db_path@ == paths::joined_path(r.db_dir@, "long.db"@),
            r.fastembed_cache_dir@ == paths::joined_path(r.root_dir@, ".fastembed_cache"@),
    {
        let stamp = text::concat3(
            "simpleclaw_integration_",
            text::decimal_of(nanos).as_str(),
            "_",
        );
        let name = text::concat2(stamp.as_str(), text::decimal_of(nonce).as_str());
        let root_dir = paths::join(temp_dir, name.as_str());
        let workspace_dir = paths::join(root_dir.as_str(), "workspace");
        let db_dir = paths::join(root_dir.as_str(), "db");
        let short_term_db_path = paths::join(db_dir.as_str(), "short.db");
        let long_term_db_path = paths::join(db_dir.as_str(), "long.db");
        let fastembed_cache_dir = paths::join(root_dir.as_str(), ".fastembed_cache");
        EphemeralPaths {
            root_dir,
            workspace_dir,
            short_term_db_path,
            long_term_db_path,
            db_dir,
            fastembed_cache_dir,
        }
    }

    /// The memory files of an agent: the agent of the round trip has the first ones.
    pub fn memory_of(&self, agent_id: &str, primary_agent_id: &str) -> (r: (String, String))
        ensures
            (r.0@, r.1@) == if agent_id@ == primary_agent_id@ {
                (self.short_term_db_path@, self.long_term_db_path@)
            } else {
                (
                    paths::joined_path(self.db_dir@, agent_id@ + "_short.db"@),
                    paths::joined_path(self.db_dir@, agent_id@ + "_long.db"@),
                )
            },
    {
        if text::same_text(agent_id, primary_agent_id) {
            (self.short_term_db_path.clone(), self.long_term_db_path.clone())
        } else {
            let short = text::concat2(agent_id, "_short.db");
            let long = text::concat2(agent_id, "_long.db");
            (
                paths::join(self.db_dir.as_str(), short.as_str()),
                paths::join(self.db_dir.as_str(), long.as_str()),
            )
        }
    }
}

/// A message that was sent under a name is changed in place, and nothing else is.
pub proof fn law_named_messages_can_be_changed(ids: Seq<Seq<char>>, id: Seq<char>, i: int)
    requires
        0 <= i < ids.len(),
        ids[i] == id,
        forall|k: int| 0 <= k < i ==> #[trigger] ids[k] != id,
    ensures
        name_place(ids, id, 0) == Some(i),
{
    lemma_name_place(ids, id, i, 0);
}

/// The first message with a name is found from anywhere before it.
proof fn lemma_name_place(ids: Seq<Seq<char>>, id: Seq<char>, i: int, from: int)
    requires
        0 <= from <= i < ids.len(),
        ids[i] == id,
        forall|k: int| 0 <= k < i ==> #[trigger] ids[k] != id,
    ensures
        name_place(ids, id, from) == Some(i),
    decreases i - from,
{
    if from < i {
        lemma_name_place(ids, id, i, from + 1);
    }
}

/// A script is played step by step, and its last step over and over: a reply is said as it is, a
/// call is made as it is, and an error is one.
pub proof fn law_scripts_are_played_step_by_step(script: Seq<ProviderScriptStep>, turn: int)
    requires
        0 <= turn,
    ensures
        ({
            let step = if turn < script.len() {
                script[turn]
            } else {
                script.last()
            };
            script.len() > 0 ==> match step {
                ProviderScriptStep::Reply(reply) => match script_answer(script, turn) {
                    Ok(answer) => answer.output_text == Some(reply@) && answer.tool_calls.len() == 0,
                    Err(_) => false,
                },
                ProviderScriptStep::ToolCall(call) => match script_answer(script, turn) {
                    Ok(answer) => answer.output_text is None && answer.tool_calls.len() == 1
                        && answer.tool_calls[0].name == call.name@ && answer.tool_calls[0].args_json
                        == call.args_json@ && answer.tool_calls[0].id == text::opt_view(call.id),
                    Err(_) => false,
                },
                ProviderScriptStep::Error(message) => script_answer(script, turn) == Err::<
                    ResponseView,
                    ErrorView,
                >(ErrorView::Tool(message@)),
            }
        }),
{
}

/// What a tool answered last is seen.
pub proof fn law_the_last_answer_is_seen(history: Seq<MessageView>)
    ensures
        history.len() > 0 && history.last().tool_results.len() > 0 ==> last_result(history) == Some(
            history.last().tool_results[0].response,
        ),
        history.len() == 0 || history.last().tool_results.len() == 0 ==> last_result(history)
            is None,
{
}

/// The first message says what was set up, to the agent and on the channel that were set up.
pub proof fn law_first_messages_are_as_set_up(config: TestHarnessConfig, trace_id: Seq<char>)
    ensures
        ({
            let message = first_message(config, trace_id);
            &&& message.trace_id == trace_id
            &&& message.content == config.inbound_content@
            &&& message.target_agent_id == config.agent_id@
            &&& message.channel_id == config.channel_id@
            &&& message.user_id == config.user_id@
            &&& message.username == config.username@
            &&& message.is_dm == config.is_dm
            &&& message.mentioned_bot == config.mentioned_bot
            &&& message.session_key == "agent:"@ + config.agent_id@ + ":discord:"@
                + config.channel_id@
        }),
{
}

/// The agents are those that were set up; where none was, the one agent calls its tool first, and
/// then replies.
pub proof fn law_agents_are_those_set_up(config: TestHarnessConfig, r: Vec<TestAgentConfig>)
    requires
        call_ensures(effective_agents, (config,), r),
    ensures
        config.agents@.len() > 0 ==> r@ == config.agents@,
        config.agents@.len() == 0 ==> r@.len() == 1 && r@[0].id@ == config.agent_id@,
        config.agents@.len() == 0 && config.scripted_tool_call is None ==> r@[0].script@ == seq![
            ProviderScriptStep::Reply(config.mock_reply),
        ],
        config.agents@.len() == 0 && config.scripted_tool_call is Some ==> r@[0].script@.len() == 2
            && r@[0].script@[0] == ProviderScriptStep::ToolCall(config.scripted_tool_call->0),
        config.agents@.len() == 0 && config.scripted_tool_call is Some
            && config.scripted_final_reply is Some ==> r@[0].script@[1]
            == ProviderScriptStep::Reply(config.scripted_final_reply->0),
        config.agents@.len() == 0 && config.scripted_tool_call is Some
            && config.scripted_final_reply is None ==> r@[0].script@[1]
            == ProviderScriptStep::Reply(config.mock_reply),
{
}

/// A message that nobody sent has no place.
pub proof fn law_unknown_messages_have_no_place(ids: Seq<Seq<char>>, id: Seq<char>, from: int)
    requires
        0 <= from,
        forall|k: int| 0 <= k < ids.len() ==> #[trigger] ids[k] != id,
    ensures
        name_place(ids, id, from) is None,
    decreases ids.len() - from,
{
    if from < ids.len() {
        law_unknown_messages_have_no_place(ids, id, from + 1);
    }
}

/// The agent that the trip is about has the memory that was set up, and every other one its own.
pub proof fn law_agents_have_memories_of_their_own(
    files: &EphemeralPaths,
    agent_id: &str,
    primary_agent_id: &str,
    r: (String, String),
)
    requires
        call_ensures(EphemeralPaths::memory_of, (files, agent_id, primary_agent_id), r),
    ensures
        agent_id@ == primary_agent_id@ ==> r.0@ == files.short_term_db_path@ && r.1@
            == files.long_term_db_path@,
        agent_id@ != primary_agent_id@ ==> r.0@ == paths::joined_path(
            files.db_dir@,
            agent_id@ + "_short.db"@,
        ) && r.1@ == paths::joined_path(files.db_dir@, agent_id@ + "_long.db"@),
{
}

/// A message that is sent is captured behind those that were sent before.
pub proof fn law_sent_messages_are_captured(
    channel: &mut CaptureChannel,
    channel_id: &str,
    content: &str,
)
    requires
        call_ensures(CaptureChannel::send_message, (channel, channel_id, content), ()),
    ensures
        final(channel).outbound@.len() == old(channel).outbound@.len() + 1,
        final(channel).outbound@.last().channel_id@ == channel_id@,
        final(channel).outbound@.last().content@ == content@,
{
    let before = sent_views(old(channel).outbound@);
    let after = sent_views(final(channel).outbound@);
    assert(after.len() == before.len() + 1);
    assert(after.last() == (channel_id@, content@));
}

/// A message that is changed is the one of its id, and no other changes.
pub proof fn law_changed_messages_are_captured(
    channel: &mut CaptureChannel,
    channel_id: &str,
    message_id: &str,
    content: &str,
    i: int,
)
    requires
        call_ensures(
            CaptureChannel::edit_message,
            (channel, channel_id, message_id, content),
            (),
        ),
        old(channel).wf(),
        0 <= i < old(channel).outbound_ids@.len(),
        old(channel).outbound_ids@[i]@ == message_id@,
        forall|k: int|
            0 <= k < i ==> (#[trigger] old(channel).outbound_ids@[k])@ != message_id@,
    ensures
        final(channel).outbound@.len() == old(channel).outbound@.len(),
        final(channel).outbound@[i].content@ == content@,
        final(channel).outbound@[i].channel_id@ == channel_id@,
        forall|k: int|
            0 <= k < old(channel).outbound@.len() && k != i ==> (
            #[trigger] final(channel).outbound@[k]).content@ == old(channel).outbound@[k].content@,
{
    let ids = text::views(old(channel).outbound_ids@);
    assert forall|k: int| 0 <= k < i implies #[trigger] ids[k] != message_id@ by {
        assert(old(channel).outbound_ids@[k]@ != message_id@);
    }
    law_named_messages_can_be_changed(ids, message_id@, i);
    let before = sent_views(old(channel).outbound@);
    let after = sent_views(final(channel).outbound@);
    assert(after == before.update(i, (channel_id@, content@)));
    assert(after.len() == final(channel).outbound@.len());
    assert(after[i] == (channel_id@, content@));
    assert forall|k: int| 0 <= k < old(channel).outbound@.len() && k != i implies (
    #[trigger] final(channel).outbound@[k]).content@ == old(channel).outbound@[k].content@ by {
        assert(after[k] == before[k]);
    }
}

/// An agent is set up with what is given, and each tool that is added changes nothing else.
pub proof fn law_agents_are_set_up_as_given(
    id: &str,
    name: &str,
    provider_key: &str,
    script: Vec<ProviderScriptStep>,
    agent: TestAgentConfig,
    sandbox_enabled: bool,
    listing: TestAgentConfig,
)
    requires
        call_ensures(TestAgentConfig::new, (id, name, provider_key, script), agent),
        call_ensures(TestAgentConfig::with_list_tool, (agent, sandbox_enabled), listing),
    ensures
        agent.id@ == id@,
        agent.name@ == name@,
        agent.provider_key@ == provider_key@,
        agent.script == script,
        agent.agent_config.tools.exec_tool is None,
        listing.agent_config.tools.list is Some,
        listing.agent_config.tools.list->0.sandbox.enabled == sandbox_enabled,
        listing.agent_config.tools.grep is None,
        listing.agent_config.tools.glob is None,
        listing.script == script,
        listing.id@ == id@,
{
}

/// The agents that may be summoned, and the steps of a worker, are those that are given.
pub proof fn law_tools_are_set_up_as_given(
    agent: TestAgentConfig,
    allowed: Vec<String>,
    worker_max_steps: Option<u32>,
    timeout_seconds: Option<u64>,
    allow_background: bool,
    sandbox_enabled: bool,
    summoning: TestAgentConfig,
    working: TestAgentConfig,
    running: TestAgentConfig,
)
    requires
        call_ensures(TestAgentConfig::with_summon_allowed, (agent, allowed), summoning),
        call_ensures(
            TestAgentConfig::with_task_worker_max_steps,
            (agent, worker_max_steps),
            working,
        ),
        call_ensures(
            TestAgentConfig::with_exec_tool,
            (agent, timeout_seconds, allow_background, sandbox_enabled),
            running,
        ),
    ensures
        summoning.agent_config.tools.summon is Some,
        summoning.agent_config.tools.summon->0.allowed == allowed,
        !summoning.agent_config.tools.summon->0.allow_background,
        summoning.script == agent.script,
        working.agent_config.tools.task is Some,
        working.agent_config.tools.task->0.worker_max_steps == worker_max_steps,
        working.script == agent.script,
        running.agent_config.tools.exec_tool is Some,
        running.agent_config.tools.exec_tool->0.timeout_seconds == timeout_seconds,
        running.agent_config.tools.exec_tool->0.allow_background == allow_background,
        running.agent_config.tools.exec_tool->0.sandbox.enabled == sandbox_enabled,
        running.script == agent.script,
{
}

} // verus!
