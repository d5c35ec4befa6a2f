//! What the stream readers of the providers share: reading chunks of bytes as text, and keeping
//! the tool calls of an answer.
use vstd::prelude::*;
use crate::error::{ErrorView, FrameworkError};
use crate::providers::types::{
    CallView, EventView, ProviderResponse, ResponseView, StreamEvent, ToolCall,
};
use crate::providers::types;
use crate::text;

verus! {

/// The message of `str::from_utf8` for bytes that are no UTF-8.
pub uninterp spec fn utf8_error(bytes: Seq<u8>) -> Seq<char>;

/// `std::str::from_utf8`, and the message of its error.  It accepts exactly the bytes that are
/// valid UTF-8, and returns the text that they encode; the message is named.
#[verifier::external_body]
pub(crate) fn text_of_bytes(bytes: &[u8]) -> (r: Result<String, String>)
    ensures
        match r {
            Ok(chunk) => vstd::utf8::valid_utf8(bytes@) && chunk@ == vstd::utf8::decode_utf8(bytes@),
            Err(message) => !vstd::utf8::valid_utf8(bytes@) && message@ == utf8_error(bytes@),
        },
{
    std::str::from_utf8(bytes).map(|chunk| chunk.to_owned()).map_err(|e| e.to_string())
}

/// The position of the call with the given id, or the number of calls where there is none.
pub open spec fn slot_of(calls: Seq<CallView>, id: Seq<char>) -> int
    decreases calls.len(),
{
    if calls.len() == 0 {
        0
    } else if calls[0].id == Some(id) {
        0
    } else {
        1 + slot_of(calls.skip(1), id)
    }
}

/// The first call with the given id, and none before it.
pub proof fn lemma_slot(calls: Seq<CallView>, id: Seq<char>)
    ensures
        0 <= slot_of(calls, id) <= calls.len(),
        slot_of(calls, id) < calls.len() ==> calls[slot_of(calls, id)].id == Some(id),
        forall|i: int| 0 <= i < slot_of(calls, id) ==> (#[trigger] calls[i]).id != Some(id),
    decreases calls.len(),
{
    if calls.len() > 0 && calls[0].id != Some(id) {
        lemma_slot(calls.skip(1), id);
        assert forall|i: int| 0 <= i < slot_of(calls, id) implies (#[trigger] calls[i]).id != Some(
            id,
        ) by {
            if i > 0 {
                assert(calls.skip(1)[i - 1] == calls[i]);
            }
        }
    }
}

/// The calls with one more.  A call whose id is known takes the place of the earlier one.
pub open spec fn record(calls: Seq<CallView>, call: CallView) -> Seq<CallView> {
    match call.id {
        Some(id) => {
            let slot = slot_of(calls, id);
            if slot < calls.len() {
                calls.update(slot, call)
            } else {
                calls.push(call)
            }
        },
        None => calls.push(call),
    }
}

/// The events for one more call: its name, unless its id is known.
pub open spec fn record_events(calls: Seq<CallView>, call: CallView) -> Seq<EventView> {
    if call.id is Some && slot_of(calls, call.id->0) < calls.len() {
        Seq::empty()
    } else {
        seq![EventView::ToolCallDelta { name: call.name }]
    }
}

/// Whether no two calls have one id.
pub open spec fn ids_distinct(calls: Seq<CallView>) -> bool {
    forall|i: int, j: int|
        0 <= i < j < calls.len() && (#[trigger] calls[i]).id is Some ==> calls[i].id != (
        #[trigger] calls[j]).id
}

/// No id is kept twice.
pub proof fn law_record_keeps_ids_distinct(calls: Seq<CallView>, call: CallView)
    requires
        ids_distinct(calls),
    ensures
        ids_distinct(record(calls, call)),
        call.id is Some ==> exists|i: int|
            0 <= i < record(calls, call).len() && record(calls, call)[i] == call,
{
    if call.id is Some {
        lemma_slot(calls, call.id->0);
        let slot = slot_of(calls, call.id->0);
        assert(record(calls, call)[slot] == call);
    }
}

/// Records one more call, and tells of it unless its id is known.
pub fn record_tool_call(
    calls: &mut Vec<ToolCall>,
    tool_call: ToolCall,
    events: &mut Vec<StreamEvent>,
)
    ensures
        types::call_views(final(calls)@) == record(types::call_views(old(calls)@), tool_call@),
        types::event_views(final(events)@) == types::event_views(old(events)@) + record_events(
            types::call_views(old(calls)@),
            tool_call@,
        ),
{
    let ghost known = types::call_views(calls@);
    let ghost told = types::event_views(events@);
    if let Some(id) = &tool_call.id {
        let mut i: usize = 0;
        while i < calls.len()
            invariant
                i <= calls@.len(),
                known == types::call_views(calls@),
                *calls == *old(calls),
                *events == *old(events),
                known == types::call_views(old(calls)@),
                told == types::event_views(old(events)@),
                tool_call.id == Some(*id),
                forall|k: int| 0 <= k < i ==> (#[trigger] known[k]).id != Some(id@),
            decreases calls@.len() - i,
        {
            let same = match &calls[i].id {
                Some(other) => text::same_text(other.as_str(), id.as_str()),
                None => false,
            };
            assert(known[i as int] == calls@[i as int]@);
            if same {
                proof {
                    lemma_slot(known, id@);
                    if slot_of(known, id@) < i {
                        assert(known[slot_of(known, id@)].id == Some(id@));
                    } else if slot_of(known, id@) > i {
                        assert(known[i as int].id == Some(id@));
                    }
                }
                calls.set(i, tool_call);
                proof {
                    assert(types::call_views(calls@) =~= known.update(i as int, tool_call@));
                    assert(told + Seq::<EventView>::empty() =~= told);
                }
                return ;
            }
            i = i + 1;
        }
        proof {
            lemma_slot(known, id@);
            if slot_of(known, id@) < known.len() {
                assert(known[slot_of(known, id@)].id == Some(id@));
            }
        }
    }
    events.push(StreamEvent::ToolCallDelta { name: tool_call.name.clone() });
    calls.push(tool_call);
    proof {
        assert(types::call_views(calls@) =~= known.push(tool_call@));
        assert(types::event_views(events@) =~= told + seq![
            EventView::ToolCallDelta { name: tool_call@.name },
        ]);
    }
}

/// What has been collected of an answer.
#[verifier::ext_equal]
pub struct CollectedView {
    pub output: Seq<char>,
    pub tool_calls: Seq<CallView>,
}

impl CollectedView {
    /// The answer that was collected; an empty text is none.
    pub open spec fn response(self) -> ResponseView {
        ResponseView {
            output_text: if self.output.len() == 0 {
                None
            } else {
                Some(self.output)
            },
            tool_calls: self.tool_calls,
        }
    }

    /// What is collected behind one more event.
    pub open spec fn after(self, event: EventView) -> CollectedView {
        match event {
            EventView::TextDelta(delta) => CollectedView { output: self.output + delta, ..self },
            EventView::ToolCallComplete(call) => CollectedView {
                tool_calls: self.tool_calls.push(call),
                ..self
            },
            _ => self,
        }
    }
}

/// What is collected from events; the first error among them fails it.
pub open spec fn gathered(events: Seq<EventView>) -> Result<CollectedView, ErrorView>
    decreases events.len(),
{
    if events.len() == 0 {
        Ok(CollectedView { output: Seq::empty(), tool_calls: Seq::empty() })
    } else {
        match gathered(events.drop_last()) {
            Ok(so_far) => match events.last() {
                EventView::Error(message) => Err(ErrorView::Provider(message)),
                event => Ok(so_far.after(event)),
            },
            Err(error) => Err(error),
        }
    }
}

/// The answer that events tell.
pub open spec fn told_response(events: Seq<EventView>) -> Result<ResponseView, ErrorView> {
    match gathered(events) {
        Ok(collected) => Ok(collected.response()),
        Err(error) => Err(error),
    }
}

/// Collecting the events of tool calls gives the calls back.
proof fn lemma_gathered_calls(events: Seq<EventView>, calls: Seq<CallView>)
    requires
        gathered(events) is Ok,
    ensures
        gathered(events + types::complete_events(calls)) == Ok::<CollectedView, ErrorView>(
            CollectedView {
                output: gathered(events)->Ok_0.output,
                tool_calls: gathered(events)->Ok_0.tool_calls + calls,
            },
        ),
    decreases calls.len(),
{
    let all = events + types::complete_events(calls);
    if calls.len() == 0 {
        assert(all =~= events);
        assert(gathered(events)->Ok_0.tool_calls + calls =~= gathered(events)->Ok_0.tool_calls);
    } else {
        lemma_gathered_calls(events, calls.drop_last());
        assert(all.drop_last() =~= events + types::complete_events(calls.drop_last()));
        assert(all.last() == EventView::ToolCallComplete(calls.last()));
        assert((gathered(events)->Ok_0.tool_calls + calls.drop_last()).push(calls.last())
            =~= gathered(events)->Ok_0.tool_calls + calls);
    }
}

/// An answer that is told as a stream is collected as it was; only an empty text is lost, which
/// says as much as none.
pub proof fn law_streaming_keeps_the_answer(response: ResponseView)
    ensures
        told_response(types::response_events(response)) == Ok::<ResponseView, ErrorView>(
            ResponseView {
                output_text: match response.output_text {
                    Some(output) => if output.len() == 0 {
                        None
                    } else {
                        Some(output)
                    },
                    None => None,
                },
                tool_calls: response.tool_calls,
            },
        ),
{
    let text_events = match response.output_text {
        Some(output) => if output.len() > 0 {
            seq![EventView::TextDelta(output)]
        } else {
            Seq::empty()
        },
        None => Seq::empty(),
    };
    reveal_with_fuel(gathered, 2);
    if text_events.len() > 0 {
        assert(text_events.drop_last() =~= Seq::<EventView>::empty());
        assert(Seq::<char>::empty() + response.output_text->0 =~= response.output_text->0);
    }
    lemma_gathered_calls(text_events, response.tool_calls);
    let told = text_events + types::complete_events(response.tool_calls);
    assert(types::response_events(response).drop_last() =~= told);
    assert(gathered(told)->Ok_0.tool_calls =~= response.tool_calls);
}

/// What a listener is told of an event, and whether more events are to be read.
#[derive(Debug, PartialEq, Eq)]
pub enum CollectStep {
    /// More text came.
    Text(String),
    /// The tool that is in use changed.
    ToolStatus(Option<String>),
    /// The answer is complete.
    Finished,
    /// The answer failed.
    Failed(FrameworkError),
}

/// What a step says.
pub enum CollectStepView {
    Text(Seq<char>),
    ToolStatus(Option<Seq<char>>),
    Finished,
    Failed(ErrorView),
}

impl View for CollectStep {
    type V = CollectStepView;

    open spec fn view(&self) -> CollectStepView {
        match self {
            CollectStep::Text(delta) => CollectStepView::Text(delta@),
            CollectStep::ToolStatus(status) => CollectStepView::ToolStatus(text::opt_view(*status)),
            CollectStep::Finished => CollectStepView::Finished,
            CollectStep::Failed(error) => CollectStepView::Failed(error@),
        }
    }
}

/// The step that an event leads to.
pub open spec fn step_of(event: EventView) -> CollectStepView {
    match event {
        EventView::TextDelta(delta) => CollectStepView::Text(delta),
        EventView::ToolCallDelta { name } => CollectStepView::ToolStatus(
            Some("Using tool `"@ + name + "`"@),
        ),
        EventView::ToolCallComplete(_) => CollectStepView::ToolStatus(None),
        EventView::Done => CollectStepView::Finished,
        EventView::Error(message) => CollectStepView::Failed(ErrorView::Provider(message)),
    }
}

/// Collects an answer from its events.
pub struct StreamCollector {
    output_text: String,
    tool_calls: Vec<ToolCall>,
}

impl View for StreamCollector {
    type V = CollectedView;

    closed spec fn view(&self) -> CollectedView {
        CollectedView {
            output: self.output_text@,
            tool_calls: types::call_views(self.tool_calls@),
        }
    }
}

impl StreamCollector {
    /// A collector without anything in it.
    pub fn new() -> (r: Self)
        ensures
            Ok::<CollectedView, ErrorView>(r@) == gathered(Seq::empty()),
    {
        let r = StreamCollector { output_text: String::new(), tool_calls: Vec::new() };
        assert(r@.output =~= Seq::<char>::empty());
        assert(r@.tool_calls =~= Seq::<CallView>::empty());
        r
    }

    /// Takes an event.
    pub fn push(&mut self, event: StreamEvent) -> (r: CollectStep)
        ensures
            final(self)@ == old(self)@.after(event@),
            r@ == step_of(event@),
    {
        match event {
            StreamEvent::TextDelta(delta) => {
                self.output_text = text::concat2(self.output_text.as_str(), delta.as_str());
                CollectStep::Text(delta)
            },
            StreamEvent::ToolCallDelta { name } => CollectStep::ToolStatus(
                Some(text::concat3("Using tool `", name.as_str(), "`")),
            ),
            StreamEvent::ToolCallComplete(call) => {
                let ghost before = self@.tool_calls;
                self.tool_calls.push(call);
                assert(self@.tool_calls =~= before.push(call@));
                CollectStep::ToolStatus(None)
            },
            StreamEvent::Done => CollectStep::Finished,
            StreamEvent::Error(message) => CollectStep::Failed(FrameworkError::Provider(message)),
        }
    }

    /// The answer that was collected.
    pub fn into_response(self) -> (r: ProviderResponse)
        ensures
            r@ == self@.response(),
    {
        ProviderResponse {
            output_text: if self.output_text.as_str().is_empty() {
                None
            } else {
                Some(self.output_text)
            },
            tool_calls: self.tool_calls,
        }
    }
}

/// What a result with an answer says.
pub open spec fn response_result(r: Result<ProviderResponse, FrameworkError>) -> Result<
    ResponseView,
    ErrorView,
> {
    match r {
        Ok(response) => Ok(response@),
        Err(error) => Err(error@),
    }
}

/// The answer that events tell.
pub fn response_from_events(events: Vec<StreamEvent>) -> (r: Result<
    ProviderResponse,
    FrameworkError,
>)
    ensures
        response_result(r) == told_response(types::event_views(events@)),
{
    let ghost given = events@;
    let ghost all = types::event_views(given);
    let mut collector = StreamCollector::new();
    let mut failed: Option<FrameworkError> = None;
    assert(all.take(0) =~= Seq::<EventView>::empty());
    for event in iter: events
        invariant
            iter.seq() == given,
            all == types::event_views(given),
            gathered(all.take(iter.index() as int)) == (match failed {
                Some(error) => Err::<CollectedView, ErrorView>(error@),
                None => Ok(collector@),
            }),
    {
        proof {
            let k = iter.index() as int;
            assert(all.take(k + 1).drop_last() =~= all.take(k));
            assert(all.take(k + 1).last() == event@);
        }
        if failed.is_none() {
            if let CollectStep::Failed(error) = collector.push(event) {
                failed = Some(error);
            }
        }
    }
    assert(all.take(all.len() as int) =~= all);
    match failed {
        Some(error) => Err(error),
        None => Ok(collector.into_response()),
    }
}

/// What is sent on behind a chunk: its events, or the error alone.
pub open spec fn sent_events(events: Seq<EventView>, error: Option<ErrorView>) -> Seq<EventView> {
    match error {
        Some(error) => seq![EventView::Error(error.message())],
        None => events,
    }
}

/// What is sent on behind a chunk.  After an error nothing more is to be sent.
pub fn events_to_send(events: Vec<StreamEvent>, read: Result<(), FrameworkError>) -> (r: Vec<
    StreamEvent,
>)
    ensures
        types::event_views(r@) == sent_events(
            types::event_views(events@),
            match read {
                Ok(_) => None,
                Err(error) => Some(error@),
            },
        ),
{
    match read {
        Ok(_) => events,
        Err(error) => {
            let mut only: Vec<StreamEvent> = Vec::new();
            only.push(StreamEvent::Error(error.message()));
            assert(types::event_views(only@) =~= seq![EventView::Error(error@.message())]);
            only
        },
    }
}

/// The event that tells that a provider's stream broke off.
pub fn read_failed(provider: &str, message: &str) -> (r: StreamEvent)
    ensures
        r@ == EventView::Error(provider@ + " stream read failed: "@ + message@),
{
    StreamEvent::Error(text::concat3(provider, " stream read failed: ", message))
}

/// The error of a request that a provider refused with the given status.
pub fn refused(provider: &str, status: &str, summary: &str) -> (r: FrameworkError)
    ensures
        r@ == ErrorView::Provider(provider@ + " returned "@ + status@ + ": "@ + summary@),
{
    let head = text::concat3(provider, " returned ", status);
    FrameworkError::Provider(text::concat3(head.as_str(), ": ", summary))
}

/// The text that events tell, bit after bit.
pub open spec fn told_text(events: Seq<EventView>) -> Seq<char>
    decreases events.len(),
{
    if events.len() == 0 {
        Seq::empty()
    } else {
        match events.last() {
            EventView::TextDelta(delta) => told_text(events.drop_last()) + delta,
            _ => told_text(events.drop_last()),
        }
    }
}

/// The tool calls that events tell as complete, one after another.
pub open spec fn told_calls(events: Seq<EventView>) -> Seq<CallView>
    decreases events.len(),
{
    if events.len() == 0 {
        Seq::empty()
    } else {
        match events.last() {
            EventView::ToolCallComplete(call) => told_calls(events.drop_last()).push(call),
            _ => told_calls(events.drop_last()),
        }
    }
}

/// The text of events behind others comes behind theirs.
pub proof fn lemma_told_text(first: Seq<EventView>, second: Seq<EventView>)
    ensures
        told_text(first + second) == told_text(first) + told_text(second),
        told_calls(first + second) == told_calls(first) + told_calls(second),
    decreases second.len(),
{
    if second.len() == 0 {
        assert(first + second =~= first);
        assert(told_text(first) + told_text(second) =~= told_text(first));
        assert(told_calls(first) + told_calls(second) =~= told_calls(first));
    } else {
        lemma_told_text(first, second.drop_last());
        assert((first + second).drop_last() =~= first + second.drop_last());
        assert(told_text(first + second) =~= told_text(first) + told_text(second));
        assert(told_calls(first + second) =~= told_calls(first) + told_calls(second));
    }
}

/// Calls that are told as complete are told as they are, and say no text.
pub proof fn lemma_told_complete(calls: Seq<CallView>)
    ensures
        told_text(types::complete_events(calls)) == Seq::<char>::empty(),
        told_calls(types::complete_events(calls)) == calls,
    decreases calls.len(),
{
    let events = types::complete_events(calls);
    if calls.len() == 0 {
        assert(told_calls(events) =~= calls);
    } else {
        lemma_told_complete(calls.drop_last());
        assert(events.drop_last() =~= types::complete_events(calls.drop_last()));
        assert(told_calls(events) =~= calls);
    }
}

/// An answer that is told bit by bit says all that was told: its text is the bits put end to end,
/// character for character, and its tool calls are those told as complete, in their order.  It
/// fails exactly where an error was told, with the first one.
pub proof fn law_answers_are_what_was_told(events: Seq<EventView>)
    ensures
        match told_response(events) {
            Ok(response) => {
                &&& forall|i: int| 0 <= i < events.len() ==> !((#[trigger] events[i]) is Error)
                &&& response.tool_calls == told_calls(events)
                &&& response.output_text == if told_text(events).len() > 0 {
                    Some(told_text(events))
                } else {
                    None
                }
            },
            Err(error) => exists|i: int|
                0 <= i < events.len() && (#[trigger] events[i]) is Error && error
                    == ErrorView::Provider(events[i]->Error_0),
        },
    decreases events.len(),
{
    lemma_gathered(events);
}

/// What is collected is what was told.
proof fn lemma_gathered(events: Seq<EventView>)
    ensures
        match gathered(events) {
            Ok(collected) => {
                &&& forall|i: int| 0 <= i < events.len() ==> !((#[trigger] events[i]) is Error)
                &&& collected.output == told_text(events)
                &&& collected.tool_calls == told_calls(events)
            },
            Err(error) => exists|i: int|
                0 <= i < events.len() && (#[trigger] events[i]) is Error && error
                    == ErrorView::Provider(events[i]->Error_0),
        },
    decreases events.len(),
{
    if events.len() > 0 {
        let before = events.drop_last();
        lemma_gathered(before);
        assert(events[events.len() - 1] == events.last());
        assert forall|i: int| 0 <= i < before.len() implies before[i] == #[trigger] events[i] by {}
        if gathered(before) is Err {
            let i = choose|i: int|
                0 <= i < before.len() && (#[trigger] before[i]) is Error && gathered(before)->Err_0
                    == ErrorView::Provider(before[i]->Error_0);
            assert(events[i] is Error);
        }
    }
}

/// Recording a call changes no other: a call with a known id takes the place of the one with that
/// id, which is told no more; any other call comes last, and is told by its name.
pub proof fn law_record_changes_one_call(calls: Seq<CallView>, call: CallView, at: int)
    requires
        ids_distinct(calls),
    ensures
        0 <= at < calls.len() && call.id is Some && calls[at].id == call.id ==> {
            &&& record(calls, call) == calls.update(at, call)
            &&& record_events(calls, call) == Seq::<EventView>::empty()
        },
        call.id is None || (forall|i: int| 0 <= i < calls.len() ==> (#[trigger] calls[i]).id
            != call.id) ==> {
            &&& record(calls, call) == calls.push(call)
            &&& record_events(calls, call) == seq![EventView::ToolCallDelta { name: call.name }]
        },
{
    if call.id is Some {
        lemma_slot(calls, call.id->0);
        let slot = slot_of(calls, call.id->0);
        if 0 <= at < calls.len() && calls[at].id == call.id {
            if slot < at {
                assert(calls[slot].id != calls[at].id);
            } else if at < slot {
                assert(calls[at].id != Some(call.id->0));
            }
        }
    }
}

/// What comes in is collected as it is: a text behind the text, a call behind the calls, and nothing
/// else changes what was collected.
pub proof fn law_events_are_collected(
    collector: &mut StreamCollector,
    event: StreamEvent,
    r: CollectStep,
)
    requires
        call_ensures(StreamCollector::push, (collector, event), r),
    ensures
        event matches StreamEvent::TextDelta(delta) ==> final(collector)@.output
            == old(collector)@.output + delta@ && final(collector)@.tool_calls
            == old(collector)@.tool_calls && r@ == CollectStepView::Text(delta@),
        event matches StreamEvent::ToolCallComplete(call) ==> final(collector)@.tool_calls
            == old(collector)@.tool_calls.push(call@) && final(collector)@.output
            == old(collector)@.output,
        event matches StreamEvent::ToolCallDelta { name } ==> final(collector)@
            == old(collector)@ && r@ == CollectStepView::ToolStatus(
            Some("Using tool `"@ + name@ + "`"@),
        ),
        event is Done ==> final(collector)@ == old(collector)@ && r@ is Finished,
        event matches StreamEvent::Error(message) ==> r@ == CollectStepView::Failed(
            ErrorView::Provider(message@),
        ),
{
}

/// What was read is sent as it is; where reading failed only that is told.
pub proof fn law_read_events_are_sent(
    events: Vec<StreamEvent>,
    read: Result<(), FrameworkError>,
    r: Vec<StreamEvent>,
    i: int,
)
    requires
        call_ensures(events_to_send, (events, read), r),
    ensures
        read is Ok ==> r@.len() == events@.len(),
        read is Ok && 0 <= i < events@.len() ==> r@[i]@ == events@[i]@,
        read is Err ==> r@.len() == 1 && r@[0]@ == EventView::Error(read->Err_0@.message()),
{
    let sent = types::event_views(r@);
    assert(sent.len() == r@.len());
    if read is Ok && 0 <= i < events@.len() {
        assert(sent[i] == types::event_views(events@)[i]);
    }
    if read is Err {
        assert(sent[0] == r@[0]@);
    }
}

} // verus!
