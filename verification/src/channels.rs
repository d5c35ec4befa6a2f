//! Messages that come in over a messaging channel.
use vstd::prelude::*;
use crate::config::GatewayChannelKind;
use crate::text;

verus! {

/// What a message is made of.
#[derive(Debug, Clone, Copy, PartialEq, Eq, Structural)]
pub enum InboundMessageKind {
    Text,
    Voice,
}

/// A message that came in.
#[derive(Debug, PartialEq, Eq)]
pub struct InboundMessage {
    pub trace_id: String,
    pub source_channel: GatewayChannelKind,
    pub target_agent_id: String,
    pub session_key: String,
    pub source_message_id: Option<String>,
    pub channel_id: String,
    pub guild_id: Option<String>,
    pub is_dm: bool,
    pub user_id: String,
    pub username: String,
    pub mentioned_bot: bool,
    pub invoke: bool,
    pub content: String,
    pub kind: InboundMessageKind,
}

/// What a message says.
#[verifier::ext_equal]
pub struct InboundView {
    pub trace_id: Seq<char>,
    pub source_channel: GatewayChannelKind,
    pub target_agent_id: Seq<char>,
    pub session_key: Seq<char>,
    pub source_message_id: Option<Seq<char>>,
    pub channel_id: Seq<char>,
    pub guild_id: Option<Seq<char>>,
    pub is_dm: bool,
    pub user_id: Seq<char>,
    pub username: Seq<char>,
    pub mentioned_bot: bool,
    pub invoke: bool,
    pub content: Seq<char>,
    pub kind: InboundMessageKind,
}

impl View for InboundMessage {
    type V = InboundView;

    open spec fn view(&self) -> InboundView {
        InboundView {
            trace_id: self.trace_id@,
            source_channel: self.source_channel,
            target_agent_id: self.target_agent_id@,
            session_key: self.session_key@,
            source_message_id: text::opt_view(self.source_message_id),
            channel_id: self.channel_id@,
            guild_id: text::opt_view(self.guild_id),
            is_dm: self.is_dm,
            user_id: self.user_id@,
            username: self.username@,
            mentioned_bot: self.mentioned_bot,
            invoke: self.invoke,
            content: self.content@,
            kind: self.kind,
        }
    }
}

impl InboundView {
    /// Whether the framework itself wrote the message.
    pub open spec fn from_system(self) -> bool {
        self.user_id == "system"@
    }
}

impl InboundMessage {
    /// Whether the framework itself wrote the message.
    pub fn from_system(&self) -> (r: bool)
        ensures
            r == self@.from_system(),
    {
        text::same_text(self.user_id.as_str(), "system")
    }
}

/// Where the outcome of work in the background is sent.
#[derive(Debug, PartialEq, Eq)]
pub struct CompletionRoute {
    pub trace_id: String,
    pub source_channel: GatewayChannelKind,
    pub target_agent_id: String,
    pub session_key: String,
    pub source_message_id: Option<String>,
    pub channel_id: String,
    pub guild_id: Option<String>,
    pub is_dm: bool,
}

/// Where the outcome of work in the background is sent, as it reads.
#[verifier::ext_equal]
pub struct RouteView {
    pub trace_id: Seq<char>,
    pub source_channel: GatewayChannelKind,
    pub target_agent_id: Seq<char>,
    pub session_key: Seq<char>,
    pub source_message_id: Option<Seq<char>>,
    pub channel_id: Seq<char>,
    pub guild_id: Option<Seq<char>>,
    pub is_dm: bool,
}

impl View for CompletionRoute {
    type V = RouteView;

    open spec fn view(&self) -> RouteView {
        RouteView {
            trace_id: self.trace_id@,
            source_channel: self.source_channel,
            target_agent_id: self.target_agent_id@,
            session_key: self.session_key@,
            source_message_id: text::opt_view(self.source_message_id),
            channel_id: self.channel_id@,
            guild_id: text::opt_view(self.guild_id),
            is_dm: self.is_dm,
        }
    }
}

/// A message is seen with all that it holds, as it is.
pub proof fn law_messages_are_seen_as_they_are(message: InboundMessage)
    ensures
        message@.trace_id == message.trace_id@,
        message@.target_agent_id == message.target_agent_id@,
        message@.session_key == message.session_key@,
        message@.source_message_id is Some <==> message.source_message_id is Some,
        message.source_message_id is Some ==> message@.source_message_id->0
            == message.source_message_id->0@,
        message@.channel_id == message.channel_id@,
        message@.guild_id is Some <==> message.guild_id is Some,
        message.guild_id is Some ==> message@.guild_id->0 == message.guild_id->0@,
        message@.is_dm == message.is_dm,
        message@.user_id == message.user_id@,
        message@.username == message.username@,
        message@.mentioned_bot == message.mentioned_bot,
        message@.invoke == message.invoke,
        message@.content == message.content@,
        message@.kind == message.kind,
        message@.from_system() <==> message.user_id@ == "system"@,
{
}

/// The way back is seen with all that it holds, as it is.
pub proof fn law_ways_back_are_seen_as_they_are(route: CompletionRoute)
    ensures
        route@.trace_id == route.trace_id@,
        route@.target_agent_id == route.target_agent_id@,
        route@.session_key == route.session_key@,
        route@.source_message_id is Some <==> route.source_message_id is Some,
        route.source_message_id is Some ==> route@.source_message_id->0
            == route.source_message_id->0@,
        route@.channel_id == route.channel_id@,
        route@.guild_id is Some <==> route.guild_id is Some,
        route.guild_id is Some ==> route@.guild_id->0 == route.guild_id->0@,
        route@.is_dm == route.is_dm,
{
}

} // verus!
