//! The messages, tool calls and stream events that all providers share.
use vstd::prelude::*;
use crate::json::{Json, JsonView};
use crate::text;

verus! {

/// Who speaks.
#[derive(Debug, Clone, Copy, PartialEq, Eq, Structural)]
pub enum Role {
    System,
    User,
    Assistant,
    Tool,
}

/// A tool call that a model asks for.
#[derive(Debug, PartialEq, Eq)]
pub struct ToolCall {
    pub id: Option<String>,
    pub name: String,
    pub args_json: String,
}

/// The result of a tool call, for the model.
#[derive(Debug, PartialEq, Eq)]
pub struct ToolResult {
    pub call_id: Option<String>,
    pub name: String,
    pub response: Json,
}

/// A message of the conversation.
#[derive(Debug, PartialEq, Eq)]
pub struct Message {
    pub role: Role,
    pub content: String,
    pub tool_calls: Vec<ToolCall>,
    pub tool_results: Vec<ToolResult>,
}

/// A tool that a model may call.
#[derive(Debug, Clone, PartialEq, Eq)]
pub struct ToolDefinition {
    pub name: String,
    pub description: String,
    pub input_schema_json: String,
}

/// What a model answered.
#[derive(Debug, PartialEq, Eq)]
pub struct ProviderResponse {
    pub output_text: Option<String>,
    pub tool_calls: Vec<ToolCall>,
}

/// A piece of an answer that arrives bit by bit.
#[derive(Debug, PartialEq, Eq)]
pub enum StreamEvent {
    TextDelta(String),
    ToolCallDelta { name: String },
    ToolCallComplete(ToolCall),
    Done,
    Error(String),
}

/// What a tool call says.
#[verifier::ext_equal]
pub struct CallView {
    pub id: Option<Seq<char>>,
    pub name: Seq<char>,
    pub args_json: Seq<char>,
}

/// What the result of a tool call says.
#[verifier::ext_equal]
pub struct ResultView {
    pub call_id: Option<Seq<char>>,
    pub name: Seq<char>,
    pub response: JsonView,
}

/// What a message says.
#[verifier::ext_equal]
pub struct MessageView {
    pub role: Role,
    pub content: Seq<char>,
    pub tool_calls: Seq<CallView>,
    pub tool_results: Seq<ResultView>,
}

/// What a tool definition says.
#[verifier::ext_equal]
pub struct DefinitionView {
    pub name: Seq<char>,
    pub description: Seq<char>,
    pub input_schema_json: Seq<char>,
}

/// What an answer says.
#[verifier::ext_equal]
pub struct ResponseView {
    pub output_text: Option<Seq<char>>,
    pub tool_calls: Seq<CallView>,
}

/// What a stream event says.
#[verifier::ext_equal]
pub enum EventView {
    TextDelta(Seq<char>),
    ToolCallDelta { name: Seq<char> },
    ToolCallComplete(CallView),
    Done,
    Error(Seq<char>),
}

impl View for ToolCall {
    type V = CallView;

    open spec fn view(&self) -> CallView {
        CallView {
            id: text::opt_view(self.id),
            name: self.name@,
            args_json: self.args_json@,
        }
    }
}

impl View for ToolResult {
    type V = ResultView;

    open spec fn view(&self) -> ResultView {
        ResultView {
            call_id: text::opt_view(self.call_id),
            name: self.name@,
            response: self.response@,
        }
    }
}

/// What a list of tool calls says.
pub open spec fn call_views(calls: Seq<ToolCall>) -> Seq<CallView> {
    Seq::new(calls.len(), |i: int| calls[i]@)
}

/// What a list of results says.
pub open spec fn result_views(results: Seq<ToolResult>) -> Seq<ResultView> {
    Seq::new(results.len(), |i: int| results[i]@)
}

/// What a list of events says.
pub open spec fn event_views(events: Seq<StreamEvent>) -> Seq<EventView> {
    Seq::new(events.len(), |i: int| events[i]@)
}

/// What a conversation says.
pub open spec fn message_views(messages: Seq<Message>) -> Seq<MessageView> {
    Seq::new(messages.len(), |i: int| messages[i]@)
}

/// What a list of tool definitions says.
pub open spec fn definition_views(tools: Seq<ToolDefinition>) -> Seq<DefinitionView> {
    Seq::new(tools.len(), |i: int| tools[i]@)
}

impl View for Message {
    type V = MessageView;

    open spec fn view(&self) -> MessageView {
        MessageView {
            role: self.role,
            content: self.content@,
            tool_calls: call_views(self.tool_calls@),
            tool_results: result_views(self.tool_results@),
        }
    }
}

impl View for ToolDefinition {
    type V = DefinitionView;

    open spec fn view(&self) -> DefinitionView {
        DefinitionView {
            name: self.name@,
            description: self.description@,
            input_schema_json: self.input_schema_json@,
        }
    }
}

impl View for ProviderResponse {
    type V = ResponseView;

    open spec fn view(&self) -> ResponseView {
        ResponseView {
            output_text: text::opt_view(self.output_text),
            tool_calls: call_views(self.tool_calls@),
        }
    }
}

impl View for StreamEvent {
    type V = EventView;

    open spec fn view(&self) -> EventView {
        match self {
            StreamEvent::TextDelta(delta) => EventView::TextDelta(delta@),
            StreamEvent::ToolCallDelta { name } => EventView::ToolCallDelta { name: name@ },
            StreamEvent::ToolCallComplete(call) => EventView::ToolCallComplete(call@),
            StreamEvent::Done => EventView::Done,
            StreamEvent::Error(message) => EventView::Error(message@),
        }
    }
}

/// Whether the results of a message are documents without a key twice.
pub open spec fn message_wf(message: Message) -> bool {
    forall|i: int|
        0 <= i < message.tool_results@.len() ==> (#[trigger] message.tool_results@[i]).response.wf()
}

/// Whether the results of a conversation are documents without a key twice.
pub open spec fn history_wf(history: Seq<Message>) -> bool {
    forall|i: int| 0 <= i < history.len() ==> message_wf(#[trigger] history[i])
}

/// A copy of an optional string.
pub fn copy_text(value: &Option<String>) -> (r: Option<String>)
    ensures
        r == *value,
{
    match value {
        Some(inner) => Some(inner.clone()),
        None => None,
    }
}

impl Clone for ToolCall {
    fn clone(&self) -> (r: Self)
        ensures
            r == *self,
    {
        ToolCall {
            id: copy_text(&self.id),
            name: self.name.clone(),
            args_json: self.args_json.clone(),
        }
    }
}

impl Message {
    /// A message of text.
    pub fn text(role: Role, content: &str) -> (r: Self)
        ensures
            r@ == (MessageView {
                role,
                content: content@,
                tool_calls: Seq::empty(),
                tool_results: Seq::empty(),
            }),
            message_wf(r),
    {
        let r = Self {
            role,
            content: content.to_owned(),
            tool_calls: Vec::new(),
            tool_results: Vec::new(),
        };
        assert(r@.tool_calls =~= Seq::<CallView>::empty());
        assert(r@.tool_results =~= Seq::<ResultView>::empty());
        r
    }

    /// A message that asks for tool calls.
    pub fn assistant_tool_calls(tool_calls: Vec<ToolCall>) -> (r: Self)
        ensures
            r@ == (MessageView {
                role: Role::Assistant,
                content: Seq::empty(),
                tool_calls: call_views(tool_calls@),
                tool_results: Seq::empty(),
            }),
            message_wf(r),
    {
        let r = Self {
            role: Role::Assistant,
            content: String::new(),
            tool_calls,
            tool_results: Vec::new(),
        };
        assert(r@.tool_results =~= Seq::<ResultView>::empty());
        r
    }

    /// A message with the results of tool calls.
    pub fn tool_results(tool_results: Vec<ToolResult>) -> (r: Self)
        ensures
            r@ == (MessageView {
                role: Role::Tool,
                content: Seq::empty(),
                tool_calls: Seq::empty(),
                tool_results: result_views(tool_results@),
            }),
            r.tool_results == tool_results,
    {
        let r = Self {
            role: Role::Tool,
            content: String::new(),
            tool_calls: Vec::new(),
            tool_results,
        };
        assert(r@.tool_calls =~= Seq::<CallView>::empty());
        r
    }
}

/// The events that tell of tool calls, one each.
pub open spec fn complete_events(calls: Seq<CallView>) -> Seq<EventView> {
    Seq::new(calls.len(), |i: int| EventView::ToolCallComplete(calls[i]))
}

/// The events that tell an answer: its text where it has any, its tool calls, and the end.
pub open spec fn response_events(response: ResponseView) -> Seq<EventView> {
    let text_events = match response.output_text {
        Some(output) => if output.len() > 0 {
            seq![EventView::TextDelta(output)]
        } else {
            Seq::empty()
        },
        None => Seq::empty(),
    };
    text_events + complete_events(response.tool_calls) + seq![EventView::Done]
}

/// Appends one event for each tool call.
pub fn push_complete_events(calls: Vec<ToolCall>, events: &mut Vec<StreamEvent>)
    ensures
        event_views(final(events)@) == event_views(old(events)@) + complete_events(
            call_views(calls@),
        ),
{
    let ghost start = event_views(events@);
    let ghost all = call_views(calls@);
    let ghost given = calls@;
    assert(start + complete_events(all.take(0)) =~= start);
    for call in iter: calls
        invariant
            iter.seq() == given,
            all == call_views(given),
            event_views(events@) == start + complete_events(all.take(iter.index() as int)),
    {
        let ghost before = event_views(events@);
        let ghost k = iter.index() as int;
        events.push(StreamEvent::ToolCallComplete(call));
        proof {
            assert(event_views(events@) =~= before.push(EventView::ToolCallComplete(call@)));
            assert(complete_events(all.take(k + 1)) =~= complete_events(all.take(k)).push(
                EventView::ToolCallComplete(call@),
            ));
            assert(event_views(events@) =~= start + complete_events(all.take(k + 1)));
        }
    }
    assert(all.take(all.len() as int) =~= all);
}

/// The events that tell an answer.
pub fn provider_response_to_stream(response: ProviderResponse) -> (r: Vec<StreamEvent>)
    ensures
        event_views(r@) == response_events(response@),
{
    let mut events: Vec<StreamEvent> = Vec::new();
    let ghost mut listed = Seq::<EventView>::empty();
    if let Some(output) = response.output_text {
        if !output.as_str().is_empty() {
            proof {
                listed = seq![EventView::TextDelta(output@)];
            }
            events.push(StreamEvent::TextDelta(output));
        }
    }
    assert(event_views(events@) =~= listed);
    push_complete_events(response.tool_calls, &mut events);
    let ghost before = event_views(events@);
    events.push(StreamEvent::Done);
    assert(event_views(events@) =~= before + seq![EventView::Done]);
    events
}

/// An answer that is told at once is told whole: its text, where there is any, then its calls in
/// their order, and the end last.
pub proof fn law_answers_are_told_whole(response: ResponseView)
    ensures
        ({
            let told = response_events(response);
            let spoken = if response.output_text is Some && response.output_text->0.len() > 0 {
                1int
            } else {
                0int
            };
            &&& told.len() == spoken + response.tool_calls.len() + 1
            &&& spoken == 1 ==> told[0] == EventView::TextDelta(response.output_text->0)
            &&& forall|i: int|
                0 <= i < response.tool_calls.len() ==> told[spoken + i]
                    == EventView::ToolCallComplete(#[trigger] response.tool_calls[i])
            &&& told.last() == EventView::Done
        }),
{
}

/// Events are seen as they are.
pub proof fn law_events_are_seen_as_they_are(told: String, name: String, call: ToolCall)
    ensures
        StreamEvent::TextDelta(told)@ == EventView::TextDelta(told@),
        (StreamEvent::ToolCallDelta { name })@ == (EventView::ToolCallDelta { name: name@ }),
        StreamEvent::ToolCallComplete(call)@ == EventView::ToolCallComplete(call@),
        StreamEvent::Done@ == EventView::Done,
        StreamEvent::Error(told)@ == EventView::Error(told@),
        call@.name == call.name@,
        call@.args_json == call.args_json@,
        call.id is Some ==> call@.id == Some(call.id->0@),
        call.id is None ==> call@.id is None,
{
}

/// Messages are seen as they are.
pub proof fn law_messages_are_seen_as_they_are(message: Message, i: int)
    ensures
        message@.role == message.role,
        message@.content == message.content@,
        message@.tool_calls.len() == message.tool_calls@.len(),
        0 <= i < message.tool_calls@.len() ==> message@.tool_calls[i] == message.tool_calls@[i]@,
        message@.tool_results.len() == message.tool_results@.len(),
        0 <= i < message.tool_results@.len() ==> message@.tool_results[i]
            == message.tool_results@[i]@ && message@.tool_results[i].name
            == message.tool_results@[i].name@ && message@.tool_results[i].response
            == message.tool_results@[i].response@,
{
}

} // verus!
