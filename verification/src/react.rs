//! The loop that asks a model, runs the tools it calls, and asks again until it answers.
use vstd::prelude::*;
use crate::dispatch::{DispatchAction, DispatcherKind, ToolExecutionResult};
use crate::error::FrameworkError;
use crate::providers::types::{DefinitionView, Message, MessageView, Role, ToolCall, ToolDefinition};
use crate::providers::types;
use crate::reply_policy::no_reply_prompt_instruction;
use crate::telemetry;
use crate::text;

verus! {

/// What a run led to.
#[derive(Debug, PartialEq, Eq)]
pub struct RunOutcome {
    pub reply: String,
    pub tool_calls: Vec<ToolExecutionResult>,
    pub memory_recall_used: bool,
    pub memory_recall_short_hits: usize,
    pub memory_recall_long_hits: usize,
}

/// What a run led to, as it reads.
#[verifier::ext_equal]
pub struct OutcomeView {
    pub reply: Seq<char>,
    pub tool_calls: Seq<ToolExecutionResult>,
    pub memory_recall_used: bool,
    pub memory_recall_short_hits: usize,
    pub memory_recall_long_hits: usize,
}

impl View for RunOutcome {
    type V = OutcomeView;

    open spec fn view(&self) -> OutcomeView {
        OutcomeView {
            reply: self.reply@,
            tool_calls: self.tool_calls@,
            memory_recall_used: self.memory_recall_used,
            memory_recall_short_hits: self.memory_recall_short_hits,
            memory_recall_long_hits: self.memory_recall_long_hits,
        }
    }
}

/// How tools are offered to a model, given whether its provider has means of its own.
pub fn resolve_dispatcher(supports_native_tools: bool) -> (r: DispatcherKind)
    ensures
        r == if supports_native_tools {
            DispatcherKind::Native
        } else {
            DispatcherKind::Xml
        },
{
    if supports_native_tools {
        DispatcherKind::Native
    } else {
        DispatcherKind::Xml
    }
}

/// A preview of a text for a log: without secrets, on one line, not too long.
pub fn sanitize_log_preview(input: &str, max_chars: usize) -> (r: String)
    ensures
        r@ == telemetry::preview_of_redacted(telemetry::redact(input@), max_chars as int),
{
    telemetry::sanitize_preview(input, max_chars)
}

/// The prompt of a run: the agent's own, how tools are called, and how to keep silent.
pub open spec fn effective_prompt(system_prompt: Seq<char>, extra: Seq<char>) -> Seq<char> {
    system_prompt + extra
        + "\n\nNO-REPLY BEHAVIOR:\n- If you intentionally want the system to send no user-facing message, respond with exactly NO_REPLY (no extra text)."@
}

/// The prompt of a run.
pub fn effective_system_prompt(system_prompt: &str, extra_instructions: &str) -> (r: String)
    ensures
        r@ == effective_prompt(system_prompt@, extra_instructions@),
{
    text::concat3(system_prompt, extra_instructions, no_reply_prompt_instruction())
}

/// The definitions without those of one name.
pub open spec fn without(definitions: Seq<DefinitionView>, name: Seq<char>) -> Seq<DefinitionView>
    decreases definitions.len(),
{
    if definitions.len() == 0 {
        Seq::empty()
    } else {
        let before = without(definitions.drop_last(), name);
        if definitions.last().name == name {
            before
        } else {
            before.push(definitions.last())
        }
    }
}

/// The tools of a turn: a message that has no source cannot be reacted to.
pub fn turn_definitions(definitions: Vec<ToolDefinition>, has_source_message: bool) -> (r: Vec<
    ToolDefinition,
>)
    ensures
        types::definition_views(r@) == if has_source_message {
            types::definition_views(definitions@)
        } else {
            without(types::definition_views(definitions@), "react"@)
        },
{
    if has_source_message {
        return definitions;
    }
    let ghost given = definitions@;
    let ghost all = types::definition_views(given);
    let mut kept: Vec<ToolDefinition> = Vec::new();
    assert(all.take(0) =~= Seq::<DefinitionView>::empty());
    assert(types::definition_views(kept@) =~= Seq::<DefinitionView>::empty());
    for definition in iter: definitions
        invariant
            iter.seq() == given,
            all == types::definition_views(given),
            types::definition_views(kept@) == without(all.take(iter.index() as int), "react"@),
    {
        let ghost before = types::definition_views(kept@);
        proof {
            let k = iter.index() as int;
            assert(all.take(k + 1).drop_last() =~= all.take(k));
            assert(all.take(k + 1).last() == definition@);
        }
        if !text::same_text(definition.name.as_str(), "react") {
            kept.push(definition);
            assert(types::definition_views(kept@) =~= before.push(definition@));
        }
    }
    assert(all.take(all.len() as int) =~= all);
    kept
}

/// The tools that a model is handed with what it is asked: none where the prompt tells it of them.
pub fn tool_specs(kind: DispatcherKind, definitions: Vec<ToolDefinition>) -> (r: Vec<
    ToolDefinition,
>)
    ensures
        types::definition_views(r@) == if kind == DispatcherKind::Native {
            types::definition_views(definitions@)
        } else {
            Seq::empty()
        },
{
    match kind {
        DispatcherKind::Native => definitions,
        DispatcherKind::Xml => {
            let none: Vec<ToolDefinition> = Vec::new();
            assert(types::definition_views(none@) =~= Seq::<DefinitionView>::empty());
            none
        },
    }
}

/// Where a loop stands.
#[verifier::ext_equal]
pub struct LoopView {
    /// How often the model may still be asked.
    pub steps_left: nat,
    pub history: Seq<MessageView>,
    /// The tool calls so far.
    pub executed: Seq<ToolExecutionResult>,
}

/// A turn of the model.
pub enum TurnView {
    /// It called tools; what they returned, and what the history keeps of it.
    Tools { results: Seq<ToolExecutionResult>, messages: Seq<MessageView> },
    /// It said nothing.
    Empty,
}

/// What a loop does next.
#[derive(Debug)]
pub enum LoopAction {
    /// Ask the model.
    Ask,
    /// Run the tools that the model called.
    Execute(Vec<ToolCall>),
    /// Nothing more: the run is over.
    Finish(RunOutcome),
    /// Nothing more: the run has failed.
    Fail(FrameworkError),
}

impl LoopView {
    /// Where the loop stands behind a turn.
    pub open spec fn after(self, turn: TurnView) -> LoopView {
        LoopView {
            steps_left: (self.steps_left - 1) as nat,
            history: match turn {
                TurnView::Tools { messages, .. } => self.history + messages,
                TurnView::Empty => self.history,
            },
            executed: match turn {
                TurnView::Tools { results, .. } => self.executed + results,
                TurnView::Empty => self.executed,
            },
        }
    }

    /// Where the loop stands behind turns.
    pub open spec fn after_all(self, turns: Seq<TurnView>) -> LoopView
        decreases turns.len(),
    {
        if turns.len() == 0 {
            self
        } else {
            self.after_all(turns.drop_last()).after(turns.last())
        }
    }

    /// What a run leads to, given the reply.
    pub open spec fn outcome(self, reply: Seq<char>) -> OutcomeView {
        OutcomeView {
            reply,
            tool_calls: self.executed,
            memory_recall_used: false,
            memory_recall_short_hits: 0,
            memory_recall_long_hits: 0,
        }
    }

    /// Whether an action is what comes between turns: the model is asked, unless no step is left.
    pub open spec fn between_turns(self, action: LoopAction) -> bool {
        match action {
            LoopAction::Ask => self.steps_left > 0,
            LoopAction::Finish(outcome) => self.steps_left == 0 && outcome@ == self.outcome(
                "max_steps reached without final response"@,
            ),
            LoopAction::Execute(_) | LoopAction::Fail(_) => false,
        }
    }
}

/// A loop that is asked no more often than it may be: behind as many turns as there were steps,
/// no step is left, and the calls of all turns are kept in their order.
pub proof fn law_steps_run_out(start: LoopView, turns: Seq<TurnView>)
    requires
        turns.len() <= start.steps_left,
    ensures
        start.after_all(turns).steps_left == start.steps_left - turns.len(),
        start.executed.is_prefix_of(start.after_all(turns).executed),
        start.history.is_prefix_of(start.after_all(turns).history),
    decreases turns.len(),
{
    if turns.len() > 0 {
        law_steps_run_out(start, turns.drop_last());
        let before = start.after_all(turns.drop_last());
        let now = start.after_all(turns);
        assert(before.executed.is_prefix_of(now.executed));
        assert(now.executed.take(start.executed.len() as int) =~= before.executed.take(
            start.executed.len() as int,
        ));
        assert(now.history.take(start.history.len() as int) =~= before.history.take(
            start.history.len() as int,
        ));
    }
}

/// A loop that is running.
#[derive(Debug)]
pub struct ReactLoopState {
    steps_left: u32,
    history: Vec<Message>,
    executed: Vec<ToolExecutionResult>,
}

impl View for ReactLoopState {
    type V = LoopView;

    closed spec fn view(&self) -> LoopView {
        LoopView {
            steps_left: self.steps_left as nat,
            history: types::message_views(self.history@),
            executed: self.executed@,
        }
    }
}

impl ReactLoopState {
    /// Whether the results in the history are documents without a key twice.
    pub closed spec fn wf(&self) -> bool {
        types::history_wf(self.history@)
    }

    /// A loop that has not asked yet.
    pub fn new(max_steps: u32, history: Vec<Message>) -> (r: Self)
        requires
            types::history_wf(history@),
        ensures
            r@ == (LoopView {
                steps_left: max_steps as nat,
                history: types::message_views(history@),
                executed: Seq::empty(),
            }),
            r.wf(),
    {
        Self { steps_left: max_steps, history, executed: Vec::new() }
    }

    /// The conversation so far.
    pub fn history(&self) -> (r: &[Message])
        requires
            self.wf(),
        ensures
            types::message_views(r@) == self@.history,
            types::history_wf(r@),
    {
        self.history.as_slice()
    }

    /// What comes between turns.
    pub fn next_turn(&mut self) -> (r: LoopAction)
        requires
            old(self).wf(),
        ensures
            old(self)@.between_turns(r),
            r is Ask ==> final(self)@ == old(self)@,
            final(self)@.history == old(self)@.history,
            final(self).wf(),
    {
        if self.steps_left > 0 {
            return LoopAction::Ask;
        }
        let mut tool_calls: Vec<ToolExecutionResult> = Vec::new();
        tool_calls.append(&mut self.executed);
        LoopAction::Finish(
            RunOutcome {
                reply: "max_steps reached without final response".to_owned(),
                tool_calls,
                memory_recall_used: false,
                memory_recall_short_hits: 0,
                memory_recall_long_hits: 0,
            },
        )
    }

    /// Takes what the model's answer asks for.
    pub fn answered(&mut self, action: DispatchAction) -> (r: LoopAction)
        requires
            old(self).wf(),
            old(self)@.steps_left > 0,
        ensures
            final(self).wf(),
            match action {
                DispatchAction::ToolCalls(calls) => r == LoopAction::Execute(calls) && final(self)@
                    == old(self)@,
                DispatchAction::FinalResponse(reply) => match r {
                    LoopAction::Finish(outcome) => outcome@ == old(self)@.outcome(reply@)
                        && final(self)@.history == old(self)@.history.push(
                        MessageView {
                            role: Role::Assistant,
                            content: reply@,
                            tool_calls: Seq::empty(),
                            tool_results: Seq::empty(),
                        },
                    ),
                    _ => false,
                },
                DispatchAction::Empty => old(self)@.after(TurnView::Empty).between_turns(r) && (
                r is Ask ==> final(self)@ == old(self)@.after(TurnView::Empty))
                    && final(self)@.history == old(self)@.history,
            },
    {
        match action {
            DispatchAction::ToolCalls(calls) => LoopAction::Execute(calls),
            DispatchAction::FinalResponse(reply) => {
                let ghost before = types::message_views(self.history@);
                let said = Message::text(Role::Assistant, reply.as_str());
                self.history.push(said);
                assert(types::message_views(self.history@) =~= before.push(said@));
                let mut tool_calls: Vec<ToolExecutionResult> = Vec::new();
                tool_calls.append(&mut self.executed);
                LoopAction::Finish(
                    RunOutcome {
                        reply,
                        tool_calls,
                        memory_recall_used: false,
                        memory_recall_short_hits: 0,
                        memory_recall_long_hits: 0,
                    },
                )
            },
            DispatchAction::Empty => {
                self.steps_left = self.steps_left - 1;
                self.next_turn()
            },
        }
    }

    /// Takes that the model could not be asked: the run fails with that error, however many steps
    /// are left.
    pub fn failed(&mut self, error: FrameworkError) -> (r: LoopAction)
        requires
            old(self).wf(),
        ensures
            r == LoopAction::Fail(error),
            final(self)@ == old(self)@,
            final(self).wf(),
    {
        LoopAction::Fail(error)
    }

    /// Takes what the called tools returned, and what the history keeps of it.
    pub fn executed(&mut self, results: Vec<ToolExecutionResult>, messages: Vec<Message>) -> (r:
        LoopAction)
        requires
            old(self).wf(),
            old(self)@.steps_left > 0,
            types::history_wf(messages@),
        ensures
            final(self).wf(),
            ({
                let next = old(self)@.after(
                    TurnView::Tools {
                        results: results@,
                        messages: types::message_views(messages@),
                    },
                );
                &&& next.between_turns(r)
                &&& r is Ask ==> final(self)@ == next
                &&& final(self)@.history == next.history
            }),
    {
        let ghost said = types::message_views(messages@);
        let ghost before = types::message_views(self.history@);
        let mut results = results;
        let mut messages = messages;
        self.executed.append(&mut results);
        self.history.append(&mut messages);
        assert(types::message_views(self.history@) =~= before + said);
        self.steps_left = self.steps_left - 1;
        self.next_turn()
    }
}

/// What the tools of turns returned, turn after turn.
pub open spec fn results_of(turns: Seq<TurnView>) -> Seq<ToolExecutionResult>
    decreases turns.len(),
{
    if turns.len() == 0 {
        Seq::empty()
    } else {
        match turns.last() {
            TurnView::Tools { results, .. } => results_of(turns.drop_last()) + results,
            TurnView::Empty => results_of(turns.drop_last()),
        }
    }
}

/// What the history keeps of turns, turn after turn.
pub open spec fn messages_of(turns: Seq<TurnView>) -> Seq<MessageView>
    decreases turns.len(),
{
    if turns.len() == 0 {
        Seq::empty()
    } else {
        match turns.last() {
            TurnView::Tools { messages, .. } => messages_of(turns.drop_last()) + messages,
            TurnView::Empty => messages_of(turns.drop_last()),
        }
    }
}

/// Every tool call of every turn is kept, and every message: behind turns stand those that were
/// there, followed by those of each turn in its order.  The outcome tells of all the calls.
pub proof fn law_every_call_is_kept(start: LoopView, turns: Seq<TurnView>, reply: Seq<char>)
    ensures
        start.after_all(turns).executed == start.executed + results_of(turns),
        start.after_all(turns).history == start.history + messages_of(turns),
        start.after_all(turns).outcome(reply).tool_calls == start.executed + results_of(turns),
        start.after_all(turns).outcome(reply).reply == reply,
    decreases turns.len(),
{
    if turns.len() == 0 {
        assert(start.executed + results_of(turns) =~= start.executed);
        assert(start.history + messages_of(turns) =~= start.history);
    } else {
        law_every_call_is_kept(start, turns.drop_last(), reply);
        let before = turns.drop_last();
        if let TurnView::Tools { results, messages } = turns.last() {
            assert(start.executed + results_of(before) + results =~= start.executed + results_of(
                turns,
            ));
            assert(start.history + messages_of(before) + messages =~= start.history + messages_of(
                turns,
            ));
        }
    }
}

/// A loop that has n steps asks n times, as long as no answer comes: behind fewer turns it asks
/// again, and behind n turns it ends with what is said of that.
pub proof fn law_loops_ask_until_steps_run_out(
    start: LoopView,
    turns: Seq<TurnView>,
    action: LoopAction,
)
    requires
        turns.len() <= start.steps_left,
        start.after_all(turns).between_turns(action),
    ensures
        action is Ask <==> turns.len() < start.steps_left,
        action is Finish <==> turns.len() == start.steps_left,
        action matches LoopAction::Finish(outcome) ==> {
            &&& outcome.reply@ == "max_steps reached without final response"@
            &&& outcome.tool_calls@ == start.executed + results_of(turns)
            &&& !outcome.memory_recall_used
        },
{
    law_steps_run_out(start, turns);
    law_every_call_is_kept(start, turns, "max_steps reached without final response"@);
}

/// A message without a source is offered every tool but the one for reactions; one with a source is
/// offered all of them.
pub proof fn law_only_reactions_need_a_message(
    definitions: Seq<DefinitionView>,
    definition: DefinitionView,
)
    ensures
        without(definitions, "react"@).contains(definition) <==> definitions.contains(definition)
            && definition.name != "react"@,
    decreases definitions.len(),
{
    if definitions.len() > 0 {
        let before = definitions.drop_last();
        law_only_reactions_need_a_message(before, definition);
        let kept = without(before, "react"@);
        assert(definitions.contains(definition) <==> before.contains(definition)
            || definitions.last() == definition) by {
            if definitions.contains(definition) {
                let i = choose|i: int| 0 <= i < definitions.len() && definitions[i] == definition;
                if i < before.len() {
                    assert(before[i] == definition);
                }
            }
            if before.contains(definition) {
                let i = choose|i: int| 0 <= i < before.len() && before[i] == definition;
                assert(definitions[i] == definition);
            }
            assert(definitions[definitions.len() - 1] == definitions.last());
        }
        if definitions.last().name != "react"@ {
            let grown = kept.push(definitions.last());
            assert(grown[kept.len() as int] == definitions.last());
            if kept.contains(definition) {
                let i = choose|i: int| 0 <= i < kept.len() && kept[i] == definition;
                assert(grown[i] == definition);
            }
            if grown.contains(definition) {
                let i = choose|i: int| 0 <= i < grown.len() && grown[i] == definition;
                if i < kept.len() {
                    assert(kept[i] == definition);
                }
            }
        }
    }
}

/// What a model is told is the prompt, what is added to it, and how to keep still.
pub proof fn law_prompts_are_told_whole(system_prompt: Seq<char>, extra: Seq<char>)
    ensures
        effective_prompt(system_prompt, extra).take((system_prompt.len() + extra.len()) as int)
            == system_prompt + extra,
{
    assert(effective_prompt(system_prompt, extra).take(
        (system_prompt.len() + extra.len()) as int,
    ) =~= system_prompt + extra);
}

/// A model that can call tools by itself does so.
pub proof fn law_native_tools_are_used(supports_native_tools: bool, r: DispatcherKind)
    requires
        call_ensures(resolve_dispatcher, (supports_native_tools,), r),
    ensures
        supports_native_tools <==> r == DispatcherKind::Native,
        !supports_native_tools <==> r == DispatcherKind::Xml,
{
}

/// Tools that were run are kept behind those that were run before, and the messages are said behind
/// those that were said before; the loop goes on with a step less, or ends with all that was run.
pub proof fn law_runs_of_tools_are_kept(
    state: &mut ReactLoopState,
    results: Vec<ToolExecutionResult>,
    messages: Vec<Message>,
    r: LoopAction,
)
    requires
        call_ensures(ReactLoopState::executed, (state, results, messages), r),
        old(state)@.steps_left > 0,
    ensures
        old(state)@.steps_left > 1 ==> r is Ask && final(state)@.executed == old(state)@.executed
            + results@ && final(state)@.steps_left == old(state)@.steps_left - 1,
        old(state)@.steps_left == 1 ==> match r {
            LoopAction::Finish(outcome) => outcome.tool_calls@ == old(state)@.executed + results@
                && outcome.reply@ == "max_steps reached without final response"@,
            _ => false,
        },
        final(state)@.history.len() == old(state)@.history.len() + messages@.len(),
        forall|i: int|
            0 <= i < old(state)@.history.len() ==> #[trigger] final(state)@.history[i] == old(
                state,
            )@.history[i],
        forall|i: int|
            0 <= i < messages@.len() ==> #[trigger] final(state)@.history[old(state)@.history.len()
                + i] == messages@[i]@,
{
}

/// An answer ends the loop with what it says and all tools that were run; calls are run, and what
/// says nothing costs a step.
pub proof fn law_answers_end_the_loop(
    state: &mut ReactLoopState,
    action: DispatchAction,
    r: LoopAction,
)
    requires
        call_ensures(ReactLoopState::answered, (state, action), r),
        old(state)@.steps_left > 0,
    ensures
        action matches DispatchAction::FinalResponse(reply) ==> match r {
            LoopAction::Finish(outcome) => outcome.reply@ == reply@ && outcome.tool_calls@ == old(
                state,
            )@.executed,
            _ => false,
        },
        action matches DispatchAction::FinalResponse(reply) ==> {
            let said = final(state)@.history.last();
            &&& final(state)@.history.len() == old(state)@.history.len() + 1
            &&& said.role == Role::Assistant
            &&& said.content == reply@
        },
        action matches DispatchAction::ToolCalls(calls) ==> r == LoopAction::Execute(calls)
            && final(state)@ == old(state)@,
        action is Empty && old(state)@.steps_left > 1 ==> r is Ask && final(state)@.steps_left
            == old(state)@.steps_left - 1 && final(state)@.executed == old(state)@.executed,
        action is Empty && old(state)@.steps_left == 1 ==> match r {
            LoopAction::Finish(outcome) => outcome.tool_calls@ == old(state)@.executed,
            _ => false,
        },
{
}

/// A model is asked as long as steps are left; then the loop ends with all tools that were run.
pub proof fn law_models_are_asked_while_steps_are_left(state: &mut ReactLoopState, r: LoopAction)
    requires
        call_ensures(ReactLoopState::next_turn, (state,), r),
    ensures
        old(state)@.steps_left > 0 <==> r is Ask,
        r is Ask ==> final(state)@ == old(state)@,
        old(state)@.steps_left == 0 ==> match r {
            LoopAction::Finish(outcome) => outcome.tool_calls@ == old(state)@.executed,
            _ => false,
        },
{
}

/// A loop starts with what was said before, and with no tools run.
pub proof fn law_loops_start_with_the_history(
    max_steps: u32,
    history: Vec<Message>,
    r: ReactLoopState,
    i: int,
)
    requires
        call_ensures(ReactLoopState::new, (max_steps, history), r),
    ensures
        r@.steps_left == max_steps,
        r@.executed.len() == 0,
        r@.history.len() == history@.len(),
        0 <= i < history@.len() ==> r@.history[i] == history@[i]@,
{
}

/// What goes wrong ends the loop as it is.
pub proof fn law_failures_end_the_loop(
    state: &mut ReactLoopState,
    error: FrameworkError,
    r: LoopAction,
)
    requires
        call_ensures(ReactLoopState::failed, (state, error), r),
    ensures
        r == LoopAction::Fail(error),
        final(state)@ == old(state)@,
{
}

} // verus!
