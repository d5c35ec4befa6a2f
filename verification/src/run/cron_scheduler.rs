//! What is done with each job when the clock ticks.
use vstd::prelude::*;
use crate::channels::{InboundMessage, InboundMessageKind, InboundView};
use crate::config::GatewayChannelKind;
use crate::error::{ErrorView, FrameworkError};
use crate::providers::types::copy_text;
use crate::text;
use crate::time::Timestamp;
use crate::tools::cron::{should_fire, CronJob, JobView};
use crate::tools::cron;

verus! {

/// How long a job's guard command may run.
pub open spec fn guard_seconds(job: JobView, default_guard_timeout: u64) -> u64 {
    if job.guard_timeout_seconds != 0 {
        job.guard_timeout_seconds
    } else if default_guard_timeout < 1 {
        1
    } else {
        default_guard_timeout
    }
}

/// How a guard command ended.
#[derive(Debug, PartialEq, Eq)]
pub enum GuardRun {
    TimedOut,
    FailedToStart(String),
    Exited { success: bool },
}

/// Whether a guard command lets its job run, or why that is not known.
pub open spec fn guard_verdict(run: GuardRun, timeout_seconds: u64) -> Result<bool, ErrorView> {
    match run {
        GuardRun::TimedOut => Err(
            ErrorView::Tool(
                "cron guard command timed out after "@ + text::decimal(timeout_seconds as nat)
                    + "s"@,
            ),
        ),
        GuardRun::FailedToStart(message) => Err(
            ErrorView::Tool("cron guard command failed to start: "@ + message@),
        ),
        GuardRun::Exited { success } => Ok(success),
    }
}

/// Whether a guard command lets its job run, or why that is not known.
pub fn guard_result(run: GuardRun, timeout_seconds: u64) -> (r: Result<bool, FrameworkError>)
    ensures
        match r {
            Ok(passed) => Ok::<bool, ErrorView>(passed),
            Err(error) => Err(error@),
        } == guard_verdict(run, timeout_seconds),
{
    match run {
        GuardRun::TimedOut => {
            let seconds = text::decimal_of(timeout_seconds);
            Err(
                FrameworkError::Tool(
                    text::concat3("cron guard command timed out after ", seconds.as_str(), "s"),
                ),
            )
        },
        GuardRun::FailedToStart(message) => Err(
            FrameworkError::Tool(
                text::concat2("cron guard command failed to start: ", message.as_str()),
            ),
        ),
        GuardRun::Exited { success } => Ok(success),
    }
}

/// The channel that a name stands for.
pub open spec fn channel_named(raw: Seq<char>) -> Option<GatewayChannelKind> {
    if text::trim(raw) == "discord"@ {
        Some(GatewayChannelKind::Discord)
    } else {
        None
    }
}

/// The channel that a name stands for.
pub fn parse_source_channel(raw: &str) -> (r: Option<GatewayChannelKind>)
    ensures
        r == channel_named(raw@),
{
    if text::same_text(text::trimmed(raw).as_str(), "discord") {
        Some(GatewayChannelKind::Discord)
    } else {
        None
    }
}

/// A channel's own name stands for it.
pub proof fn law_channel_names_are_read_back(kind: GatewayChannelKind)
    ensures
        channel_named(kind.label()) == Some(kind),
{
    reveal_strlit("discord");
    let name = "discord"@;
    assert(!text::is_white(name[0]) && !text::is_white(name[6]));
    assert(name.len() == 7);
    text::lemma_trim_start(name, text::CharClass::White);
    text::lemma_trim_end(name, text::CharClass::White);
    assert(text::trim_end_of(name, text::CharClass::White) == name);
    assert(text::trim_start_of(name, text::CharClass::White) == name);
}

/// The message that a job sends.
pub open spec fn job_message(job: JobView, trace_id: Seq<char>) -> Option<InboundView> {
    match channel_named(job.source_channel) {
        Some(source_channel) => Some(
            InboundView {
                trace_id,
                source_channel,
                target_agent_id: job.agent_id,
                session_key: "agent:"@ + job.agent_id + ":cron:"@ + job.id,
                source_message_id: None,
                channel_id: job.channel_id,
                guild_id: job.guild_id,
                is_dm: job.is_dm,
                user_id: "system"@,
                username: "cron"@,
                mentioned_bot: false,
                invoke: true,
                content: job.prompt,
                kind: InboundMessageKind::Text,
            },
        ),
        None => None,
    }
}

/// The message that a job sends; none where its channel is unknown.
pub fn inbound_for_job(job: &CronJob, trace_id: String) -> (r: Option<InboundMessage>)
    ensures
        match r {
            Some(inbound) => Some(inbound@),
            None => None,
        } == job_message(job@, trace_id@),
{
    let source_channel = match parse_source_channel(job.source_channel.as_str()) {
        Some(kind) => kind,
        None => {
            return None;
        },
    };
    let head = text::concat3("agent:", job.agent_id.as_str(), ":cron:");
    Some(
        InboundMessage {
            trace_id,
            source_channel,
            target_agent_id: job.agent_id.clone(),
            session_key: text::concat2(head.as_str(), job.id.as_str()),
            source_message_id: None,
            channel_id: job.channel_id.clone(),
            guild_id: copy_text(&job.guild_id),
            is_dm: job.is_dm,
            user_id: "system".to_owned(),
            username: "cron".to_owned(),
            mentioned_bot: false,
            invoke: true,
            content: job.prompt.clone(),
            kind: InboundMessageKind::Text,
        },
    )
}

/// A message of a job counts as one of the framework's own, so its sender gets no reaction and no
/// typing notice.
pub proof fn law_job_messages_are_the_systems(job: JobView, trace_id: Seq<char>)
    requires
        job_message(job, trace_id) is Some,
    ensures
        job_message(job, trace_id)->0.from_system(),
        job_message(job, trace_id)->0.invoke,
{
}

/// How a tick ended for a job.
#[derive(Debug, PartialEq, Eq)]
pub enum TickEnd {
    /// The job is not due.
    NotDue,
    /// The guard command let nothing be sent.
    Refused,
    /// Whether the guard command lets the job run is not known.
    GuardFailed(FrameworkError),
    /// The job's channel is not known.
    UnknownChannel,
    /// The message could not be sent.
    NotSent,
    /// The message was sent, and the job was to be marked.
    Fired,
}

/// How a tick ended for a job, as it reads.
pub enum EndView {
    NotDue,
    Refused,
    GuardFailed(ErrorView),
    UnknownChannel,
    NotSent,
    Fired,
}

impl View for TickEnd {
    type V = EndView;

    open spec fn view(&self) -> EndView {
        match self {
            TickEnd::NotDue => EndView::NotDue,
            TickEnd::Refused => EndView::Refused,
            TickEnd::GuardFailed(error) => EndView::GuardFailed(error@),
            TickEnd::UnknownChannel => EndView::UnknownChannel,
            TickEnd::NotSent => EndView::NotSent,
            TickEnd::Fired => EndView::Fired,
        }
    }
}

/// What is to be done for a job.
#[derive(Debug, PartialEq, Eq)]
pub enum TickAction {
    /// Run the job's guard command.
    RunGuard { command: String, workspace_root: String, timeout_seconds: u64 },
    /// Send the job's message.
    Send(InboundMessage),
    /// Keep when the job fired.
    MarkFired { job_id: String, at: Timestamp },
    /// Nothing more.
    Finish(TickEnd),
}

/// What is to be done for a job, as it reads.
#[verifier::ext_equal]
pub enum ActionView {
    RunGuard { command: Seq<char>, workspace_root: Seq<char>, timeout_seconds: u64 },
    Send(InboundView),
    MarkFired { job_id: Seq<char>, at: Timestamp },
    Finish(EndView),
}

impl View for TickAction {
    type V = ActionView;

    open spec fn view(&self) -> ActionView {
        match self {
            TickAction::RunGuard { command, workspace_root, timeout_seconds } =>
                ActionView::RunGuard {
                command: command@,
                workspace_root: workspace_root@,
                timeout_seconds: *timeout_seconds,
            },
            TickAction::Send(inbound) => ActionView::Send(inbound@),
            TickAction::MarkFired { job_id, at } => ActionView::MarkFired {
                job_id: job_id@,
                at: *at,
            },
            TickAction::Finish(end) => ActionView::Finish(end@),
        }
    }
}

/// What came of an action.
#[derive(Debug, PartialEq, Eq)]
pub enum TickEvent {
    /// The guard command ended, or could not be prepared.
    Guarded(Result<GuardRun, FrameworkError>),
    /// The message was sent, or not.
    Sent(bool),
    /// Whether or not it was kept when the job fired.
    Marked,
}

/// How far a job is.
#[derive(Debug, Clone, Copy, PartialEq, Eq, Structural)]
pub enum TickState {
    Guarding { timeout_seconds: u64 },
    Sending,
    Marking,
    Over,
}

/// What follows once nothing holds a job back.
pub open spec fn release(job: JobView, trace_id: Seq<char>) -> (TickState, ActionView) {
    match job_message(job, trace_id) {
        Some(inbound) => (TickState::Sending, ActionView::Send(inbound)),
        None => (TickState::Over, ActionView::Finish(EndView::UnknownChannel)),
    }
}

/// What is done first with a job, given whether it is due.
pub open spec fn first_step(
    job: JobView,
    is_due: bool,
    default_guard_timeout: u64,
    trace_id: Seq<char>,
) -> (TickState, ActionView) {
    if !is_due {
        (TickState::Over, ActionView::Finish(EndView::NotDue))
    } else {
        match job.guard_command {
            Some(command) => if text::is_blank(command) {
                release(job, trace_id)
            } else {
                let timeout_seconds = guard_seconds(job, default_guard_timeout);
                (
                    TickState::Guarding { timeout_seconds },
                    ActionView::RunGuard {
                        command,
                        workspace_root: job.workspace_root,
                        timeout_seconds,
                    },
                )
            },
            None => release(job, trace_id),
        }
    }
}

/// What is done next with a job.
pub open spec fn next_step(
    job: JobView,
    now: Timestamp,
    trace_id: Seq<char>,
    state: TickState,
    event: TickEvent,
) -> (TickState, ActionView) {
    match (state, event) {
        (TickState::Guarding { timeout_seconds }, TickEvent::Guarded(run)) => {
            let verdict = match run {
                Ok(run) => guard_verdict(run, timeout_seconds),
                Err(error) => Err(error@),
            };
            match verdict {
                Ok(true) => release(job, trace_id),
                Ok(false) => (TickState::Over, ActionView::Finish(EndView::Refused)),
                Err(error) => (TickState::Over, ActionView::Finish(EndView::GuardFailed(error))),
            }
        },
        (TickState::Sending, TickEvent::Sent(sent)) => if sent {
            (TickState::Marking, ActionView::MarkFired { job_id: job.id, at: now })
        } else {
            (TickState::Over, ActionView::Finish(EndView::NotSent))
        },
        (TickState::Marking, _) => (TickState::Over, ActionView::Finish(EndView::Fired)),
        _ => (TickState::Over, ActionView::Finish(EndView::NotSent)),
    }
}

/// One job at one tick of the clock.
#[derive(Debug)]
pub struct JobTick {
    job: CronJob,
    now: Timestamp,
    trace_id: String,
    state: TickState,
}

impl JobTick {
    /// The job.
    pub closed spec fn job(&self) -> JobView {
        self.job@
    }

    /// When the clock ticked.
    pub closed spec fn now(&self) -> Timestamp {
        self.now
    }

    /// The trace of the job's message.
    pub closed spec fn trace_id(&self) -> Seq<char> {
        self.trace_id@
    }

    /// How far the job is.
    pub closed spec fn state(&self) -> TickState {
        self.state
    }

    /// Begins with a job.
    pub fn start(job: CronJob, now: Timestamp, default_guard_timeout: u64, trace_id: String) -> (r: (
        Self,
        TickAction,
    ))
        requires
            job@.wf(),
            now.wf(),
            now.secs > -7_999_999_999_000,
        ensures
            r.0.job() == job@,
            r.0.now() == now,
            r.0.trace_id() == trace_id@,
            (r.0.state(), r.1@) == first_step(
                job@,
                cron::fires(job.schedule@, job.last_fired_at, now),
                default_guard_timeout,
                trace_id@,
            ),
    {
        let is_due = should_fire(&job, now);
        JobTick::start_given(job, is_due, now, default_guard_timeout, trace_id)
    }

    /// Begins with a job of which it is known whether it is due.
    pub fn start_given(
        job: CronJob,
        is_due: bool,
        now: Timestamp,
        default_guard_timeout: u64,
        trace_id: String,
    ) -> (r: (Self, TickAction))
        ensures
            r.0.job() == job@,
            r.0.now() == now,
            r.0.trace_id() == trace_id@,
            (r.0.state(), r.1@) == first_step(job@, is_due, default_guard_timeout, trace_id@),
    {
        let (state, action) = if !is_due {
            (TickState::Over, TickAction::Finish(TickEnd::NotDue))
        } else {
            match &job.guard_command {
                Some(command) => {
                    if text::blank(command.as_str()) {
                        released(&job, &trace_id)
                    } else {
                        let timeout_seconds: u64 = if job.guard_timeout_seconds != 0 {
                            job.guard_timeout_seconds
                        } else if default_guard_timeout < 1 {
                            1
                        } else {
                            default_guard_timeout
                        };
                        (
                            TickState::Guarding { timeout_seconds },
                            TickAction::RunGuard {
                                command: command.clone(),
                                workspace_root: job.workspace_root.clone(),
                                timeout_seconds,
                            },
                        )
                    }
                },
                None => released(&job, &trace_id),
            }
        };
        (JobTick { job, now, trace_id, state }, action)
    }

    /// Goes on, given what came of the last action.
    pub fn step(self, event: TickEvent) -> (r: (Self, TickAction))
        ensures
            r.0.job() == self.job(),
            r.0.now() == self.now(),
            r.0.trace_id() == self.trace_id(),
            (r.0.state(), r.1@) == next_step(
                self.job(),
                self.now(),
                self.trace_id(),
                self.state(),
                event,
            ),
    {
        let JobTick { job, now, trace_id, state } = self;
        let (next, action) = match (state, event) {
            (TickState::Guarding { timeout_seconds }, TickEvent::Guarded(run)) => {
                let verdict = match run {
                    Ok(run) => guard_result(run, timeout_seconds),
                    Err(error) => Err(error),
                };
                match verdict {
                    Ok(passed) => if passed {
                        released(&job, &trace_id)
                    } else {
                        (TickState::Over, TickAction::Finish(TickEnd::Refused))
                    },
                    Err(error) => (TickState::Over, TickAction::Finish(TickEnd::GuardFailed(error))),
                }
            },
            (TickState::Sending, TickEvent::Sent(sent)) => if sent {
                (TickState::Marking, TickAction::MarkFired { job_id: job.id.clone(), at: now })
            } else {
                (TickState::Over, TickAction::Finish(TickEnd::NotSent))
            },
            (TickState::Marking, _) => (TickState::Over, TickAction::Finish(TickEnd::Fired)),
            _ => (TickState::Over, TickAction::Finish(TickEnd::NotSent)),
        };
        (JobTick { job, now, trace_id, state: next }, action)
    }
}

/// What follows once nothing holds a job back.
fn released(job: &CronJob, trace_id: &String) -> (r: (TickState, TickAction))
    ensures
        (r.0, r.1@) == release(job@, trace_id@),
{
    match inbound_for_job(job, trace_id.clone()) {
        Some(inbound) => (TickState::Sending, TickAction::Send(inbound)),
        None => (TickState::Over, TickAction::Finish(TickEnd::UnknownChannel)),
    }
}

/// A job that is not due sends nothing and runs nothing.
pub proof fn law_only_due_jobs_are_touched(
    job: JobView,
    default_guard_timeout: u64,
    trace_id: Seq<char>,
)
    ensures
        first_step(job, false, default_guard_timeout, trace_id) == (
            TickState::Over,
            ActionView::Finish(EndView::NotDue),
        ),
{
}

/// A job with a guard command is sent only where the command ended well.
pub proof fn law_guards_hold_jobs_back(
    job: JobView,
    now: Timestamp,
    trace_id: Seq<char>,
    default_guard_timeout: u64,
    event: TickEvent,
)
    requires
        job.guard_command is Some,
        !text::is_blank(job.guard_command->0),
    ensures
        ({
            let (guarding, first) = first_step(job, true, default_guard_timeout, trace_id);
            let (_, second) = next_step(job, now, trace_id, guarding, event);
            &&& first is RunGuard
            &&& second is Send ==> event == TickEvent::Guarded(
                Ok(GuardRun::Exited { success: true }),
            )
        }),
{
}

/// A job is marked where its message was sent, and only there, with the time at which the clock
/// ticked; nothing follows that.
pub proof fn law_jobs_are_marked_once_sent(
    job: JobView,
    now: Timestamp,
    trace_id: Seq<char>,
    state: TickState,
    event: TickEvent,
)
    ensures
        ({
            let (next, action) = next_step(job, now, trace_id, state, event);
            &&& action is MarkFired <==> state == TickState::Sending && event == TickEvent::Sent(
                true,
            )
            &&& action is MarkFired ==> action == (ActionView::MarkFired { job_id: job.id, at: now })
            &&& action is MarkFired ==> next == TickState::Marking
            &&& state == TickState::Marking ==> next == TickState::Over
            &&& state == TickState::Over ==> next == TickState::Over && action is Finish
        }),
{
}

/// A job that is due says its prompt to its agent, in its channel, in a session of its own.
pub proof fn law_jobs_say_their_prompt(job: JobView, trace_id: Seq<char>)
    requires
        job.source_channel == "discord"@,
    ensures
        job_message(job, trace_id) is Some,
        ({
            let message = job_message(job, trace_id)->Some_0;
            &&& message.content == job.prompt
            &&& message.target_agent_id == job.agent_id
            &&& message.channel_id == job.channel_id
            &&& message.guild_id == job.guild_id
            &&& message.is_dm == job.is_dm
            &&& message.trace_id == trace_id
            &&& message.session_key == "agent:"@ + job.agent_id + ":cron:"@ + job.id
            &&& message.source_channel == GatewayChannelKind::Discord
            &&& message.source_message_id is None
            &&& message.user_id == "system"@
            &&& message.invoke
        }),
{
    law_channel_names_are_read_back(GatewayChannelKind::Discord);
}

/// A job that is due and has no guard is sent at once; one with a guard is sent when its guard
/// passed, and not when the guard did not pass, took too long or could not be run.
pub proof fn law_due_jobs_are_sent(
    job: JobView,
    now: Timestamp,
    trace_id: Seq<char>,
    default_guard_timeout: u64,
    run: GuardRun,
    error: FrameworkError,
)
    requires
        job.source_channel == "discord"@,
    ensures
        job.guard_command is None || text::is_blank(job.guard_command->0) ==> first_step(
            job,
            true,
            default_guard_timeout,
            trace_id,
        ) == (TickState::Sending, ActionView::Send(job_message(job, trace_id)->Some_0)),
        job.guard_command is Some && !text::is_blank(job.guard_command->0) ==> {
            let (guarding, first) = first_step(job, true, default_guard_timeout, trace_id);
            let (next, second) = next_step(
                job,
                now,
                trace_id,
                guarding,
                TickEvent::Guarded(Ok(run)),
            );
            let (_, third) = next_step(
                job,
                now,
                trace_id,
                guarding,
                TickEvent::Guarded(Err(error)),
            );
            &&& first is RunGuard
            &&& first->command == job.guard_command->0
            &&& first->workspace_root == job.workspace_root
            &&& run == (GuardRun::Exited { success: true }) ==> second == ActionView::Send(
                job_message(job, trace_id)->Some_0,
            ) && next == TickState::Sending
            &&& run != (GuardRun::Exited { success: true }) ==> second is Finish
            &&& run == (GuardRun::Exited { success: false }) ==> second == ActionView::Finish(
                EndView::Refused,
            )
            &&& third == ActionView::Finish(EndView::GuardFailed(error@))
        },
{
    law_jobs_say_their_prompt(job, trace_id);
}

/// A job that was sent is noted as fired at the time of the tick, and ends as fired; one that was
/// not sent is not noted.
pub proof fn law_sent_jobs_are_noted(job: JobView, now: Timestamp, trace_id: Seq<char>)
    ensures
        next_step(job, now, trace_id, TickState::Sending, TickEvent::Sent(true)) == (
            TickState::Marking,
            (ActionView::MarkFired { job_id: job.id, at: now }),
        ),
        next_step(job, now, trace_id, TickState::Marking, TickEvent::Marked).1
            == ActionView::Finish(EndView::Fired),
        next_step(job, now, trace_id, TickState::Sending, TickEvent::Sent(false)).1
            == ActionView::Finish(EndView::NotSent),
{
}

/// A guard runs as long as its job says, else as long as is usual, and at least for a second.
pub proof fn law_guards_run_as_long_as_set(job: JobView, default_guard_timeout: u64)
    ensures
        job.guard_timeout_seconds > 0 ==> guard_seconds(job, default_guard_timeout)
            == job.guard_timeout_seconds,
        job.guard_timeout_seconds == 0 && default_guard_timeout > 0 ==> guard_seconds(
            job,
            default_guard_timeout,
        ) == default_guard_timeout,
        guard_seconds(job, default_guard_timeout) >= 1,
{
}

/// A guard that ended says whether the job may run; one that took too long or did not start is an
/// error.
pub proof fn law_guards_say_whether_jobs_run(run: GuardRun, timeout_seconds: u64)
    ensures
        run matches GuardRun::Exited { success } ==> guard_verdict(run, timeout_seconds) == Ok::<
            bool,
            ErrorView,
        >(success),
        run is TimedOut || run is FailedToStart ==> guard_verdict(run, timeout_seconds) is Err,
{
}

} // verus!
