//! What is done with a message that came in, from its route to the reply.
use vstd::prelude::*;
use crate::channels::{InboundMessage, InboundView};
use crate::config::GatewayChannelKind;
use crate::dispatch;
use crate::json;
use crate::react::{OutcomeView, RunOutcome};
use crate::reply_policy::is_no_reply;
use crate::reply_policy;
use crate::run::transparency::{
    render_tool_call_transparency, MemoryTransparencySummary, TransparencyRenderStyle,
};
use crate::run::transparency;
use crate::text;

verus! {

/// The reaction that tells a sender that the message was seen.
pub const INBOUND_ACK_REACTION: &'static str = "👀";

/// The reaction that is due, if one is: where it goes, and to which message.
pub open spec fn due_reaction(inbound: InboundView, queued: bool) -> Option<
    (Seq<char>, Seq<char>, Seq<char>),
> {
    match inbound.source_message_id {
        Some(message_id) => if queued && inbound.invoke && !inbound.from_system() {
            Some((inbound.channel_id, message_id, INBOUND_ACK_REACTION@))
        } else {
            None
        },
        None => None,
    }
}

/// The reaction that is due to a message, given whether it was queued: the channel, the message
/// and the reaction.
pub fn ack_reaction(inbound: &InboundMessage, queued: bool) -> (r: Option<
    (String, String, &'static str),
>)
    ensures
        match r {
            Some((channel_id, message_id, emoji)) => Some((channel_id@, message_id@, emoji@)),
            None => None,
        } == due_reaction(inbound@, queued),
{
    if !queued || !inbound.invoke || inbound.from_system() {
        return None;
    }
    match &inbound.source_message_id {
        Some(message_id) => Some(
            (inbound.channel_id.clone(), message_id.clone(), INBOUND_ACK_REACTION),
        ),
        None => None,
    }
}

/// Who said what is remembered of a session.
#[derive(Debug, Clone, Copy, PartialEq, Eq, Structural)]
pub enum StoredRole {
    User,
    Assistant,
}

impl StoredRole {
    /// The name of the role.
    pub open spec fn label(self) -> Seq<char> {
        match self {
            StoredRole::User => "user"@,
            StoredRole::Assistant => "assistant"@,
        }
    }

    /// The name of the role.
    pub fn as_str(self) -> (r: &'static str)
        ensures
            r@ == self.label(),
    {
        match self {
            StoredRole::User => "user",
            StoredRole::Assistant => "assistant",
        }
    }
}

/// What is remembered of a session.
#[derive(Debug, PartialEq, Eq)]
pub struct StoredMessage {
    pub session_id: String,
    pub role: StoredRole,
    pub content: String,
    pub username: Option<String>,
}

/// What is remembered of a session, as it reads.
#[verifier::ext_equal]
pub struct StoredView {
    pub session_id: Seq<char>,
    pub role: StoredRole,
    pub content: Seq<char>,
    pub username: Option<Seq<char>>,
}

impl View for StoredMessage {
    type V = StoredView;

    open spec fn view(&self) -> StoredView {
        StoredView {
            session_id: self.session_id@,
            role: self.role,
            content: self.content@,
            username: text::opt_view(self.username),
        }
    }
}

/// What is remembered of a message that came in, whether or not it is answered.
pub fn remembered(inbound: &InboundMessage) -> (r: StoredMessage)
    ensures
        r@ == (StoredView {
            session_id: inbound@.session_key,
            role: StoredRole::User,
            content: inbound@.content,
            username: Some(inbound@.username),
        }),
{
    StoredMessage {
        session_id: inbound.session_key.clone(),
        role: StoredRole::User,
        content: inbound.content.clone(),
        username: Some(inbound.username.clone()),
    }
}

/// What is remembered of a reply to a message.
pub fn remembered_reply(inbound: &InboundMessage, reply: &str) -> (r: StoredMessage)
    ensures
        r@ == (StoredView {
            session_id: inbound@.session_key,
            role: StoredRole::Assistant,
            content: reply@,
            username: None,
        }),
{
    StoredMessage {
        session_id: inbound.session_key.clone(),
        role: StoredRole::Assistant,
        content: reply.to_owned(),
        username: None,
    }
}

/// What is known of a message before anything is done with it.
#[derive(Debug, Clone, Copy, PartialEq, Eq, Structural)]
pub struct InboundFacts {
    /// Whether there is an agent that the message is for.
    pub known_agent: bool,
    /// Whether the agent is to answer.
    pub invoke: bool,
    /// Whether the framework itself wrote the message.
    pub from_system: bool,
    /// Whether the reply is to be spoken, and can be.
    pub speech: bool,
    /// Whether the channel shows replies while they are written.
    pub streaming: bool,
    /// Where the message came from.
    pub source_channel: GatewayChannelKind,
    /// Whether the reply tells which tools it used.
    pub show_tool_calls: bool,
    /// Whether the reply tells what was recalled.
    pub show_memory_recall: bool,
}

impl InboundFacts {
    /// What is known of a message.
    pub fn of(
        inbound: &InboundMessage,
        known_agent: bool,
        speech_asked: bool,
        can_speak: bool,
        streaming: bool,
        show_tool_calls: bool,
        show_memory_recall: bool,
    ) -> (r: Self)
        ensures
            r == (InboundFacts {
                known_agent,
                invoke: inbound.invoke,
                from_system: inbound@.from_system(),
                speech: speech_asked && can_speak,
                streaming,
                source_channel: inbound.source_channel,
                show_tool_calls,
                show_memory_recall,
            }),
    {
        InboundFacts {
            known_agent,
            invoke: inbound.invoke,
            from_system: inbound.from_system(),
            speech: speech_asked && can_speak,
            streaming,
            source_channel: inbound.source_channel,
            show_tool_calls,
            show_memory_recall,
        }
    }
}

/// How a turn of the agent ended.
#[derive(Debug)]
pub enum TurnEnd {
    /// The message was only noted.
    ContextRecorded,
    /// The agent kept silent.
    NoReply,
    /// The agent replied.
    Replied(RunOutcome),
    /// The turn failed.
    Failed,
}

/// How a turn of the agent ended, as it reads.
pub enum TurnEndView {
    ContextRecorded,
    NoReply,
    Replied(OutcomeView),
    Failed,
}

impl View for TurnEnd {
    type V = TurnEndView;

    open spec fn view(&self) -> TurnEndView {
        match self {
            TurnEnd::ContextRecorded => TurnEndView::ContextRecorded,
            TurnEnd::NoReply => TurnEndView::NoReply,
            TurnEnd::Replied(outcome) => TurnEndView::Replied(outcome@),
            TurnEnd::Failed => TurnEndView::Failed,
        }
    }
}

/// What is to be done next with a message.
#[derive(Debug, PartialEq, Eq)]
pub enum InboundAction {
    /// Tell the sender that a reply is being written.
    BroadcastTyping,
    /// Open a message that grows while the reply is written.
    BeginStream,
    /// Let the agent take its turn; with a stream, it is told of the text as it comes.
    ExecuteTurn { with_stream: bool },
    /// Close the growing message with this text.
    FinalizeStream(String),
    /// Send this text.
    SendMessage(String),
    /// Speak this text.
    Synthesize(String),
    /// Make the spoken reply into a voice message of the channel.
    PrepareVoiceMessage,
    /// Send the voice message.
    SendVoiceMessage,
    /// Nothing more.
    Finish,
}

/// What is to be done next, as it reads.
pub enum ActionView {
    BroadcastTyping,
    BeginStream,
    ExecuteTurn { with_stream: bool },
    FinalizeStream(Seq<char>),
    SendMessage(Seq<char>),
    Synthesize(Seq<char>),
    PrepareVoiceMessage,
    SendVoiceMessage,
    Finish,
}

impl View for InboundAction {
    type V = ActionView;

    open spec fn view(&self) -> ActionView {
        match self {
            InboundAction::BroadcastTyping => ActionView::BroadcastTyping,
            InboundAction::BeginStream => ActionView::BeginStream,
            InboundAction::ExecuteTurn { with_stream } => ActionView::ExecuteTurn {
                with_stream: *with_stream,
            },
            InboundAction::FinalizeStream(content) => ActionView::FinalizeStream(content@),
            InboundAction::SendMessage(content) => ActionView::SendMessage(content@),
            InboundAction::Synthesize(content) => ActionView::Synthesize(content@),
            InboundAction::PrepareVoiceMessage => ActionView::PrepareVoiceMessage,
            InboundAction::SendVoiceMessage => ActionView::SendVoiceMessage,
            InboundAction::Finish => ActionView::Finish,
        }
    }
}

impl ActionView {
    /// Whether the action puts a reply before the sender.
    pub open spec fn delivers(self) -> bool {
        self is FinalizeStream || self is SendMessage || self is SendVoiceMessage
    }
}

/// What came of the last action.
#[derive(Debug)]
pub enum InboundEvent {
    /// The action was carried out.
    Succeeded,
    /// The action failed.
    Failed,
    /// The agent's turn ended.
    TurnEnded(TurnEnd),
}

/// What came of the last action, as it reads.
pub enum EventView {
    Succeeded,
    Failed,
    TurnEnded(TurnEndView),
}

impl View for InboundEvent {
    type V = EventView;

    open spec fn view(&self) -> EventView {
        match self {
            InboundEvent::Succeeded => EventView::Succeeded,
            InboundEvent::Failed => EventView::Failed,
            InboundEvent::TurnEnded(end) => EventView::TurnEnded(end@),
        }
    }
}

/// Which action a message waits for.
#[derive(Debug)]
pub enum InboundState {
    Typing,
    BeginningStream,
    Turn { with_stream: bool },
    Synthesizing { outbound: String },
    PreparingVoice { outbound: String },
    Delivering,
    Over,
}

/// Which action a message waits for, as it reads.
#[verifier::ext_equal]
pub enum StateView {
    Typing,
    BeginningStream,
    Turn { with_stream: bool },
    Synthesizing { outbound: Seq<char> },
    PreparingVoice { outbound: Seq<char> },
    Delivering,
    Over,
}

impl View for InboundState {
    type V = StateView;

    open spec fn view(&self) -> StateView {
        match self {
            InboundState::Typing => StateView::Typing,
            InboundState::BeginningStream => StateView::BeginningStream,
            InboundState::Turn { with_stream } => StateView::Turn { with_stream: *with_stream },
            InboundState::Synthesizing { outbound } => StateView::Synthesizing {
                outbound: outbound@,
            },
            InboundState::PreparingVoice { outbound } => StateView::PreparingVoice {
                outbound: outbound@,
            },
            InboundState::Delivering => StateView::Delivering,
            InboundState::Over => StateView::Over,
        }
    }
}

/// The reply that is sent for an outcome.
pub open spec fn outbound_reply(facts: InboundFacts, outcome: OutcomeView) -> Seq<char> {
    transparency::with_footer(
        outcome.reply,
        if facts.show_tool_calls {
            transparency::groups_of(dispatch::flatten_all(outcome.tool_calls))
        } else {
            Seq::empty()
        },
        if facts.show_memory_recall && outcome.memory_recall_used {
            Some(
                (MemoryTransparencySummary {
                    short_hits: outcome.memory_recall_short_hits,
                    long_hits: outcome.memory_recall_long_hits,
                }),
            )
        } else {
            None
        },
        TransparencyRenderStyle::DiscordSubtext,
    )
}

/// What follows the typing notice: a stream, where the channel shows one and the reply is not
/// spoken, else the turn.
pub open spec fn after_typing(facts: InboundFacts) -> (StateView, ActionView) {
    if facts.streaming && !facts.speech {
        (StateView::BeginningStream, ActionView::BeginStream)
    } else {
        (StateView::Turn { with_stream: false }, ActionView::ExecuteTurn { with_stream: false })
    }
}

/// What is done first with a message.
pub open spec fn first_step(facts: InboundFacts) -> (StateView, ActionView) {
    if !facts.known_agent {
        if facts.invoke {
            (
                StateView::Delivering,
                ActionView::SendMessage(
                    "I couldn't route that message due to a configuration error."@,
                ),
            )
        } else {
            (StateView::Over, ActionView::Finish)
        }
    } else if facts.invoke && !facts.from_system {
        (StateView::Typing, ActionView::BroadcastTyping)
    } else {
        after_typing(facts)
    }
}

/// What follows a turn.
pub open spec fn after_turn(
    facts: InboundFacts,
    safe_error_reply: Seq<char>,
    with_stream: bool,
    end: TurnEndView,
) -> (StateView, ActionView) {
    match end {
        TurnEndView::ContextRecorded => (StateView::Over, ActionView::Finish),
        TurnEndView::NoReply => (StateView::Over, ActionView::Finish),
        TurnEndView::Replied(outcome) => if reply_policy::asks_for_silence(outcome.reply) {
            (StateView::Over, ActionView::Finish)
        } else {
            let outbound = outbound_reply(facts, outcome);
            if with_stream {
                (StateView::Delivering, ActionView::FinalizeStream(outbound))
            } else if facts.speech {
                (StateView::Synthesizing { outbound }, ActionView::Synthesize(outbound))
            } else {
                (StateView::Delivering, ActionView::SendMessage(outbound))
            }
        },
        TurnEndView::Failed => (
            StateView::Delivering,
            if with_stream {
                ActionView::FinalizeStream(safe_error_reply)
            } else {
                ActionView::SendMessage(safe_error_reply)
            },
        ),
    }
}

/// What is done next, given what came of the last action.  Events that do not belong to the
/// state end the matter.
pub open spec fn next_step(
    facts: InboundFacts,
    safe_error_reply: Seq<char>,
    state: StateView,
    event: EventView,
) -> (StateView, ActionView) {
    match (state, event) {
        (StateView::Typing, _) => after_typing(facts),
        (StateView::BeginningStream, _) => {
            let with_stream = event is Succeeded;
            (StateView::Turn { with_stream }, ActionView::ExecuteTurn { with_stream })
        },
        (StateView::Turn { with_stream }, EventView::TurnEnded(end)) => after_turn(
            facts,
            safe_error_reply,
            with_stream,
            end,
        ),
        (StateView::Synthesizing { outbound }, EventView::Succeeded) => {
            match facts.source_channel {
                GatewayChannelKind::Discord => (
                    StateView::PreparingVoice { outbound },
                    ActionView::PrepareVoiceMessage,
                ),
            }
        },
        (StateView::Synthesizing { outbound }, _) => (
            StateView::Delivering,
            ActionView::SendMessage(outbound),
        ),
        (StateView::PreparingVoice { .. }, EventView::Succeeded) => (
            StateView::Delivering,
            ActionView::SendVoiceMessage,
        ),
        (StateView::PreparingVoice { outbound }, _) => (
            StateView::Delivering,
            ActionView::SendMessage(outbound),
        ),
        _ => (StateView::Over, ActionView::Finish),
    }
}

/// A message that is being dealt with.
#[derive(Debug)]
pub struct InboundFlow {
    facts: InboundFacts,
    safe_error_reply: String,
    state: InboundState,
}

impl InboundFlow {
    /// What is known of the message.
    pub closed spec fn facts(&self) -> InboundFacts {
        self.facts
    }

    /// What is sent where a turn fails.
    pub closed spec fn safe_error_reply(&self) -> Seq<char> {
        self.safe_error_reply@
    }

    /// Which action the message waits for.
    pub closed spec fn state(&self) -> StateView {
        self.state@
    }

    /// What follows the typing notice.
    fn past_typing(facts: InboundFacts) -> (r: (InboundState, InboundAction))
        ensures
            (r.0@, r.1@) == after_typing(facts),
    {
        if facts.streaming && !facts.speech {
            (InboundState::BeginningStream, InboundAction::BeginStream)
        } else {
            (
                InboundState::Turn { with_stream: false },
                InboundAction::ExecuteTurn { with_stream: false },
            )
        }
    }

    /// What is done first with a message.
    pub fn start(facts: InboundFacts, safe_error_reply: &str) -> (r: (Self, InboundAction))
        ensures
            r.0.facts() == facts,
            r.0.safe_error_reply() == safe_error_reply@,
            (r.0.state(), r.1@) == first_step(facts),
    {
        let (state, action) = if !facts.known_agent {
            if facts.invoke {
                (
                    InboundState::Delivering,
                    InboundAction::SendMessage(
                        "I couldn't route that message due to a configuration error.".to_owned(),
                    ),
                )
            } else {
                (InboundState::Over, InboundAction::Finish)
            }
        } else if facts.invoke && !facts.from_system {
            (InboundState::Typing, InboundAction::BroadcastTyping)
        } else {
            Self::past_typing(facts)
        };
        (InboundFlow { facts, safe_error_reply: safe_error_reply.to_owned(), state }, action)
    }

    /// What follows a turn.
    fn past_turn(&self, with_stream: bool, end: TurnEnd) -> (r: (InboundState, InboundAction))
        ensures
            (r.0@, r.1@) == after_turn(self.facts(), self.safe_error_reply(), with_stream, end@),
    {
        match end {
            TurnEnd::ContextRecorded => (InboundState::Over, InboundAction::Finish),
            TurnEnd::NoReply => (InboundState::Over, InboundAction::Finish),
            TurnEnd::Replied(outcome) => {
                if is_no_reply(outcome.reply.as_str()) {
                    return (InboundState::Over, InboundAction::Finish);
                }
                let outbound = render_tool_call_transparency(
                    outcome.reply.as_str(),
                    outcome.tool_calls.as_slice(),
                    self.facts.show_tool_calls,
                    self.facts.show_memory_recall,
                    outcome.memory_recall_used,
                    outcome.memory_recall_short_hits,
                    outcome.memory_recall_long_hits,
                    self.facts.source_channel,
                );
                if with_stream {
                    (InboundState::Delivering, InboundAction::FinalizeStream(outbound))
                } else if self.facts.speech {
                    (
                        InboundState::Synthesizing { outbound: outbound.clone() },
                        InboundAction::Synthesize(outbound),
                    )
                } else {
                    (InboundState::Delivering, InboundAction::SendMessage(outbound))
                }
            },
            TurnEnd::Failed => {
                let reply = self.safe_error_reply.clone();
                (
                    InboundState::Delivering,
                    if with_stream {
                        InboundAction::FinalizeStream(reply)
                    } else {
                        InboundAction::SendMessage(reply)
                    },
                )
            },
        }
    }

    /// What is done next, given what came of the last action.
    pub fn step(self, event: InboundEvent) -> (r: (Self, InboundAction))
        ensures
            r.0.facts() == self.facts(),
            r.0.safe_error_reply() == self.safe_error_reply(),
            (r.0.state(), r.1@) == next_step(
                self.facts(),
                self.safe_error_reply(),
                self.state(),
                event@,
            ),
    {
        let succeeded = match &event {
            InboundEvent::Succeeded => true,
            _ => false,
        };
        let facts = self.facts;
        let mut flow = self;
        let mut state = InboundState::Over;
        std::mem::swap(&mut state, &mut flow.state);
        let (next, action) = match state {
            InboundState::Typing => Self::past_typing(facts),
            InboundState::BeginningStream => (
                InboundState::Turn { with_stream: succeeded },
                InboundAction::ExecuteTurn { with_stream: succeeded },
            ),
            InboundState::Turn { with_stream } => match event {
                InboundEvent::TurnEnded(end) => flow.past_turn(with_stream, end),
                _ => (InboundState::Over, InboundAction::Finish),
            },
            InboundState::Synthesizing { outbound } => if succeeded {
                match facts.source_channel {
                    GatewayChannelKind::Discord => (
                        InboundState::PreparingVoice { outbound },
                        InboundAction::PrepareVoiceMessage,
                    ),
                }
            } else {
                (InboundState::Delivering, InboundAction::SendMessage(outbound))
            },
            InboundState::PreparingVoice { outbound } => if succeeded {
                (InboundState::Delivering, InboundAction::SendVoiceMessage)
            } else {
                (InboundState::Delivering, InboundAction::SendMessage(outbound))
            },
            InboundState::Delivering => (InboundState::Over, InboundAction::Finish),
            InboundState::Over => (InboundState::Over, InboundAction::Finish),
        };
        flow.state = next;
        (flow, action)
    }
}

/// A delivery is not tried again: whatever came of it, nothing more is done.
pub proof fn law_delivery_is_final(facts: InboundFacts, safe_error_reply: Seq<char>, event: EventView)
    ensures
        next_step(facts, safe_error_reply, StateView::Delivering, event) == (
            StateView::Over,
            ActionView::Finish,
        ),
{
}

/// A message that nobody is to answer, or that the framework wrote, raises no typing notice.
pub proof fn law_passive_messages_raise_no_typing(facts: InboundFacts)
    requires
        !facts.invoke || facts.from_system,
    ensures
        !(first_step(facts).1 is BroadcastTyping),
{
}

/// A turn without a reply, or with the sentinel for a reply, sends nothing.
pub proof fn law_silent_turns_send_nothing(
    facts: InboundFacts,
    safe_error_reply: Seq<char>,
    with_stream: bool,
    end: TurnEndView,
)
    requires
        end is ContextRecorded || end is NoReply || (end is Replied
            && reply_policy::asks_for_silence(end->Replied_0.reply)),
    ensures
        next_step(
            facts,
            safe_error_reply,
            StateView::Turn { with_stream },
            EventView::TurnEnded(end),
        ) == (StateView::Over, ActionView::Finish),
{
}

/// A turn that fails is answered with the safe reply, on the stream where one is open.
pub proof fn law_failed_turns_get_the_safe_reply(
    facts: InboundFacts,
    safe_error_reply: Seq<char>,
    with_stream: bool,
)
    ensures
        next_step(
            facts,
            safe_error_reply,
            StateView::Turn { with_stream },
            EventView::TurnEnded(TurnEndView::Failed),
        ) == (
            StateView::Delivering,
            if with_stream {
                ActionView::FinalizeStream(safe_error_reply)
            } else {
                ActionView::SendMessage(safe_error_reply)
            },
        ),
{
}

/// A typing notice that fails changes nothing of what follows.
pub proof fn law_typing_failure_changes_nothing(facts: InboundFacts, safe_error_reply: Seq<char>)
    ensures
        next_step(facts, safe_error_reply, StateView::Typing, EventView::Failed) == next_step(
            facts,
            safe_error_reply,
            StateView::Typing,
            EventView::Succeeded,
        ),
{
}

/// Speech that fails, at whichever point, falls back to the text of the reply.
pub proof fn law_speech_falls_back_to_text(
    facts: InboundFacts,
    safe_error_reply: Seq<char>,
    outbound: Seq<char>,
)
    ensures
        next_step(
            facts,
            safe_error_reply,
            StateView::Synthesizing { outbound },
            EventView::Failed,
        ).1 == ActionView::SendMessage(outbound),
        next_step(
            facts,
            safe_error_reply,
            StateView::PreparingVoice { outbound },
            EventView::Failed,
        ).1 == ActionView::SendMessage(outbound),
{
}

/// How many steps a state is from the end.
pub open spec fn distance(state: StateView) -> nat {
    match state {
        StateView::Typing => 6,
        StateView::BeginningStream => 5,
        StateView::Turn { .. } => 4,
        StateView::Synthesizing { .. } => 3,
        StateView::PreparingVoice { .. } => 2,
        StateView::Delivering => 1,
        StateView::Over => 0,
    }
}

/// Every event brings a message nearer to its end, and the agent gets at most one turn and the
/// sender at most one reply.
pub proof fn law_every_step_goes_on(
    facts: InboundFacts,
    safe_error_reply: Seq<char>,
    state: StateView,
    event: EventView,
)
    ensures
        ({
            let (next, action) = next_step(facts, safe_error_reply, state, event);
            &&& state !is Over ==> distance(next) < distance(state)
            &&& action is Finish <==> next is Over
            &&& action is ExecuteTurn <==> next is Turn
            &&& action.delivers() <==> next is Delivering
        }),
{
}

/// What is remembered of a message is what was said, by whom and in which session; what is
/// remembered of the reply is what was answered, in the same session.
pub proof fn law_messages_are_remembered_as_they_are(
    inbound: InboundMessage,
    reply: &str,
    message: StoredMessage,
    answer: StoredMessage,
)
    requires
        call_ensures(remembered, (&inbound,), message),
        call_ensures(remembered_reply, (&inbound, reply), answer),
    ensures
        message.content@ == inbound.content@,
        message.session_id@ == inbound.session_key@,
        message.role == StoredRole::User,
        text::opt_view(message.username) == Some(inbound.username@),
        answer.content@ == reply@,
        answer.session_id@ == inbound.session_key@,
        answer.role == StoredRole::Assistant,
        StoredRole::User.label() == "user"@,
        StoredRole::Assistant.label() == "assistant"@,
{
}

/// A reaction is due exactly to a message of a user that was queued to be answered and that can be
/// named; it goes to that message, in its channel.
pub proof fn law_seen_messages_are_marked(inbound: InboundView, queued: bool)
    ensures
        due_reaction(inbound, queued) is Some <==> queued && inbound.invoke && inbound.user_id
            != "system"@ && inbound.source_message_id is Some,
        due_reaction(inbound, queued) matches Some((channel_id, message_id, emoji)) ==> channel_id
            == inbound.channel_id && message_id == inbound.source_message_id->0 && emoji == "👀"@,
{
}

/// A message of a user is answered in this order: typing is shown, the turn is run, and its reply is
/// sent, once, behind which nothing follows.
pub proof fn law_messages_are_answered_once(
    facts: InboundFacts,
    safe_error_reply: Seq<char>,
    typing: EventView,
    outcome: OutcomeView,
    sent: EventView,
)
    requires
        facts.known_agent,
        facts.invoke,
        !facts.from_system,
        !facts.streaming,
        !facts.speech,
        !reply_policy::asks_for_silence(outcome.reply),
    ensures
        ({
            let (s1, a1) = first_step(facts);
            let (s2, a2) = next_step(facts, safe_error_reply, s1, typing);
            let (s3, a3) = next_step(
                facts,
                safe_error_reply,
                s2,
                EventView::TurnEnded(TurnEndView::Replied(outcome)),
            );
            let (s4, a4) = next_step(facts, safe_error_reply, s3, sent);
            &&& a1 is BroadcastTyping
            &&& a2 == (ActionView::ExecuteTurn { with_stream: false })
            &&& a3 == ActionView::SendMessage(outbound_reply(facts, outcome))
            &&& a4 is Finish
            &&& s4 is Over
        }),
{
}

/// A streamed reply ends its stream with the whole reply, once; a stream that could not be begun
/// leads to a message.
pub proof fn law_streams_end_with_the_reply(
    facts: InboundFacts,
    safe_error_reply: Seq<char>,
    outcome: OutcomeView,
)
    requires
        facts.known_agent,
        facts.streaming,
        !facts.speech,
        !reply_policy::asks_for_silence(outcome.reply),
    ensures
        ({
            let replied = EventView::TurnEnded(TurnEndView::Replied(outcome));
            let (s1, a1) = next_step(facts, safe_error_reply, StateView::Typing, EventView::Succeeded);
            let (s2, a2) = next_step(facts, safe_error_reply, s1, EventView::Succeeded);
            let (s3, a3) = next_step(facts, safe_error_reply, s2, replied);
            let (t2, b2) = next_step(facts, safe_error_reply, s1, EventView::Failed);
            let (t3, b3) = next_step(facts, safe_error_reply, t2, replied);
            &&& a1 is BeginStream
            &&& a2 == (ActionView::ExecuteTurn { with_stream: true })
            &&& a3 == ActionView::FinalizeStream(outbound_reply(facts, outcome))
            &&& b2 == (ActionView::ExecuteTurn { with_stream: false })
            &&& b3 == ActionView::SendMessage(outbound_reply(facts, outcome))
        }),
{
}

/// A spoken reply is the reply: it is spoken whole, and sent as a voice message where that works.
pub proof fn law_spoken_replies_are_the_reply(
    facts: InboundFacts,
    safe_error_reply: Seq<char>,
    outcome: OutcomeView,
)
    requires
        facts.speech,
        !reply_policy::asks_for_silence(outcome.reply),
    ensures
        ({
            let (s1, a1) = next_step(
                facts,
                safe_error_reply,
                StateView::Turn { with_stream: false },
                EventView::TurnEnded(TurnEndView::Replied(outcome)),
            );
            let (s2, a2) = next_step(facts, safe_error_reply, s1, EventView::Succeeded);
            let (s3, a3) = next_step(facts, safe_error_reply, s2, EventView::Succeeded);
            &&& a1 == ActionView::Synthesize(outbound_reply(facts, outcome))
            &&& a2 is PrepareVoiceMessage
            &&& a3 is SendVoiceMessage
        }),
{
}

/// A message for an unknown agent is answered that it could not be routed, where an answer was asked
/// for, and is dropped where none was.
pub proof fn law_unroutable_messages_are_told(facts: InboundFacts)
    requires
        !facts.known_agent,
    ensures
        facts.invoke ==> first_step(facts).1 == ActionView::SendMessage(
            "I couldn't route that message due to a configuration error."@,
        ),
        !facts.invoke ==> first_step(facts).1 is Finish,
{
}

/// A message that is only listened to is given to the agent at once, without any sign of it.
pub proof fn law_listening_shows_nothing(facts: InboundFacts)
    requires
        facts.known_agent,
        !facts.invoke || facts.from_system,
        !facts.streaming,
    ensures
        first_step(facts).1 == (ActionView::ExecuteTurn { with_stream: false }),
{
}

/// What goes out starts with the reply as it is, and without anything to show beside it, it is the
/// reply.
pub proof fn law_replies_go_out_as_they_are(facts: InboundFacts, outcome: OutcomeView)
    ensures
        text::starts_with(outbound_reply(facts, outcome), outcome.reply),
        !facts.show_tool_calls && !facts.show_memory_recall ==> outbound_reply(facts, outcome)
            == outcome.reply,
        outcome.tool_calls.len() == 0 && !outcome.memory_recall_used ==> outbound_reply(
            facts,
            outcome,
        ) == outcome.reply,
{
    let groups = if facts.show_tool_calls {
        transparency::groups_of(dispatch::flatten_all(outcome.tool_calls))
    } else {
        Seq::empty()
    };
    let memory = if facts.show_memory_recall && outcome.memory_recall_used {
        Some(
            (MemoryTransparencySummary {
                short_hits: outcome.memory_recall_short_hits,
                long_hits: outcome.memory_recall_long_hits,
            }),
        )
    } else {
        None
    };
    transparency::law_reply_comes_first(
        outcome.reply,
        groups,
        memory,
        TransparencyRenderStyle::DiscordSubtext,
    );
}

/// What is known of a message is what it says of itself.
pub proof fn law_facts_are_the_messages(
    inbound: InboundMessage,
    known_agent: bool,
    speech_asked: bool,
    can_speak: bool,
    streaming: bool,
    show_tool_calls: bool,
    show_memory_recall: bool,
    r: InboundFacts,
)
    requires
        call_ensures(
            InboundFacts::of,
            (
                &inbound,
                known_agent,
                speech_asked,
                can_speak,
                streaming,
                show_tool_calls,
                show_memory_recall,
            ),
            r,
        ),
    ensures
        r.known_agent == known_agent,
        r.invoke == inbound.invoke,
        r.from_system <==> inbound.user_id@ == "system"@,
        r.speech <==> speech_asked && can_speak,
        r.streaming == streaming,
        r.show_tool_calls == show_tool_calls,
        r.show_memory_recall == show_memory_recall,
{
}

/// An answer is streamed where that is set up and it is not spoken; else it is made at once.
pub proof fn law_answers_are_streamed_where_set_up(facts: InboundFacts)
    ensures
        facts.streaming && !facts.speech ==> after_typing(facts).1 is BeginStream,
        !facts.streaming || facts.speech ==> after_typing(facts).1 == (ActionView::ExecuteTurn {
            with_stream: false,
        }),
{
}

} // verus!
