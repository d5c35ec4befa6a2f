//! The runs in the background: what is known of them, and who may see them.
use vstd::prelude::*;
use crate::channels::{CompletionRoute, InboundMessage, InboundMessageKind, InboundView};
use crate::channels;
use crate::error::{ErrorView, FrameworkError};
use crate::error;
use crate::json::{Json, JsonView};
use crate::json;
use crate::order::{sort_ranked, Newest};
use crate::order;
use crate::text;
use crate::time::Timestamp;
use crate::time;
use crate::tools::common::truncate_for_tool_output;
use crate::tools::common;

verus! {

/// How many runs that ended are kept.
pub const MAX_COMPLETED: usize = 64;

/// What runs in the background.
#[derive(Debug, Clone, Copy, PartialEq, Eq, Structural)]
pub enum AsyncToolRunKind {
    Process,
    Delegated,
}

impl AsyncToolRunKind {
    /// The kind's name.
    pub open spec fn label(self) -> Seq<char> {
        match self {
            AsyncToolRunKind::Process => "process"@,
            AsyncToolRunKind::Delegated => "delegated"@,
        }
    }

    /// The kind's name.
    pub fn as_str(&self) -> (r: &'static str)
        ensures
            r@ == self.label(),
    {
        match self {
            AsyncToolRunKind::Process => "process",
            AsyncToolRunKind::Delegated => "delegated",
        }
    }
}

/// How far a run is.
#[derive(Debug, Clone, Copy, PartialEq, Eq, Structural)]
pub enum AsyncToolRunStatus {
    Running,
    Completed,
    Killed,
}

impl AsyncToolRunStatus {
    /// The status's name.
    pub open spec fn label(self) -> Seq<char> {
        match self {
            AsyncToolRunStatus::Running => "running"@,
            AsyncToolRunStatus::Completed => "completed"@,
            AsyncToolRunStatus::Killed => "killed"@,
        }
    }

    /// The status's name.
    pub fn as_str(&self) -> (r: &'static str)
        ensures
            r@ == self.label(),
    {
        match self {
            AsyncToolRunStatus::Running => "running",
            AsyncToolRunStatus::Completed => "completed",
            AsyncToolRunStatus::Killed => "killed",
        }
    }
}

/// A run that was started.
#[derive(Debug, PartialEq, Eq)]
pub struct StartedAsyncToolRun {
    pub run_id: String,
    pub tool_name: String,
    pub kind: AsyncToolRunKind,
}

impl StartedAsyncToolRun {
    /// What the agent is told, as a document.
    pub open spec fn accepted(self) -> JsonView {
        JsonView::Object(
            map![
                "status"@ => JsonView::Str("accepted"@),
                "runId"@ => JsonView::Str(self.run_id@),
                "tool"@ => JsonView::Str(self.tool_name@),
                "kind"@ => JsonView::Str(self.kind.label()),
            ],
        )
    }

    /// What the agent is told, as a document.
    pub fn accepted_json(&self) -> (r: Json)
        ensures
            r.wf(),
            r@ == self.accepted(),
    {
        Json::object().with("status", Json::text("accepted")).with(
            "runId",
            Json::text(self.run_id.as_str()),
        ).with("tool", Json::text(self.tool_name.as_str())).with(
            "kind",
            Json::text(self.kind.as_str()),
        )
    }

    /// What the agent is told.
    pub fn accepted_output(&self) -> (r: String)
        ensures
            r@ == json::rendered_json(self.accepted()),
    {
        self.accepted_json().render()
    }
}

/// A process in the background.
#[derive(Debug, PartialEq, Eq)]
pub struct ProcessRunState {
    pub command: String,
    pub pid: Option<u32>,
    pub stdout_path: String,
    pub stderr_path: String,
    pub exit_code: Option<i32>,
}

/// A process in the background, as it reads.
#[verifier::ext_equal]
pub struct ProcessStateView {
    pub command: Seq<char>,
    pub pid: Option<u32>,
    pub stdout_path: Seq<char>,
    pub stderr_path: Seq<char>,
    pub exit_code: Option<i32>,
}

impl View for ProcessRunState {
    type V = ProcessStateView;

    open spec fn view(&self) -> ProcessStateView {
        ProcessStateView {
            command: self.command@,
            pid: self.pid,
            stdout_path: self.stdout_path@,
            stderr_path: self.stderr_path@,
            exit_code: self.exit_code,
        }
    }
}

/// Work that was handed to another agent.
#[derive(Debug, PartialEq, Eq)]
pub struct DelegatedRunState {
    pub request: String,
    pub reply: Option<String>,
    pub error: Option<String>,
}

/// Work that was handed to another agent, as it reads.
#[verifier::ext_equal]
pub struct DelegatedStateView {
    pub request: Seq<char>,
    pub reply: Option<Seq<char>>,
    pub error: Option<Seq<char>>,
}

impl View for DelegatedRunState {
    type V = DelegatedStateView;

    open spec fn view(&self) -> DelegatedStateView {
        DelegatedStateView {
            request: self.request@,
            reply: text::opt_view(self.reply),
            error: text::opt_view(self.error),
        }
    }
}

/// What is at work in a run.
#[derive(Debug, PartialEq, Eq)]
pub enum RunWork {
    Process(ProcessRunState),
    Delegated(DelegatedRunState),
}

/// What is at work in a run, as it reads.
#[verifier::ext_equal]
pub enum WorkView {
    Process(ProcessStateView),
    Delegated(DelegatedStateView),
}

impl View for RunWork {
    type V = WorkView;

    open spec fn view(&self) -> WorkView {
        match self {
            RunWork::Process(process) => WorkView::Process(process@),
            RunWork::Delegated(delegated) => WorkView::Delegated(delegated@),
        }
    }
}

impl WorkView {
    /// What kind of work it is.
    pub open spec fn kind(self) -> AsyncToolRunKind {
        match self {
            WorkView::Process(_) => AsyncToolRunKind::Process,
            WorkView::Delegated(_) => AsyncToolRunKind::Delegated,
        }
    }
}

/// A run in the background.
#[derive(Debug, PartialEq, Eq)]
pub struct AsyncToolRunEntry {
    pub run_id: String,
    pub tool_name: String,
    pub summary: String,
    pub agent_id: String,
    pub session_key: String,
    pub status: AsyncToolRunStatus,
    pub started_at: Timestamp,
    pub finished_at: Option<Timestamp>,
    pub claimed: bool,
    pub work: RunWork,
}

/// A run in the background, as it reads.
#[verifier::ext_equal]
pub struct RunView {
    pub run_id: Seq<char>,
    pub tool_name: Seq<char>,
    pub summary: Seq<char>,
    pub agent_id: Seq<char>,
    pub session_key: Seq<char>,
    pub status: AsyncToolRunStatus,
    pub started_at: Timestamp,
    pub finished_at: Option<Timestamp>,
    pub claimed: bool,
    pub work: WorkView,
}

impl View for AsyncToolRunEntry {
    type V = RunView;

    open spec fn view(&self) -> RunView {
        RunView {
            run_id: self.run_id@,
            tool_name: self.tool_name@,
            summary: self.summary@,
            agent_id: self.agent_id@,
            session_key: self.session_key@,
            status: self.status,
            started_at: self.started_at,
            finished_at: self.finished_at,
            claimed: self.claimed,
            work: self.work@,
        }
    }
}

impl RunView {
    /// Whether the run goes on.
    pub open spec fn running(self) -> bool {
        self.status == AsyncToolRunStatus::Running
    }

    /// Whether a session of an agent may see the run.
    pub open spec fn belongs_to(self, agent_id: Seq<char>, session_key: Seq<char>) -> bool {
        self.agent_id == agent_id && self.session_key == session_key
    }

    /// When the run ended, or else when it began.
    pub open spec fn end(self) -> Timestamp {
        match self.finished_at {
            Some(finished_at) => finished_at,
            None => self.started_at,
        }
    }
}

impl AsyncToolRunEntry {
    /// Whether a session of an agent may see the run.
    pub fn belongs_to(&self, agent_id: &str, session_key: &str) -> (r: bool)
        ensures
            r == self@.belongs_to(agent_id@, session_key@),
    {
        text::same_text(self.agent_id.as_str(), agent_id) && text::same_text(
            self.session_key.as_str(),
            session_key,
        )
    }

    /// Whether the run goes on.
    pub fn is_running(&self) -> (r: bool)
        ensures
            r == self@.running(),
    {
        self.status == AsyncToolRunStatus::Running
    }
}

/// Where a run stands among the runs.
pub open spec fn place(runs: Seq<RunView>, run_id: Seq<char>) -> Option<int>
    decreases runs.len(),
{
    if runs.len() == 0 {
        None
    } else if runs.last().run_id == run_id {
        Some(runs.len() - 1)
    } else {
        place(runs.drop_last(), run_id)
    }
}

/// A place lies within, and the run is there.
pub proof fn lemma_place(runs: Seq<RunView>, run_id: Seq<char>)
    ensures
        match place(runs, run_id) {
            Some(i) => 0 <= i < runs.len() && runs[i].run_id == run_id,
            None => forall|i: int|
                0 <= i < runs.len() ==> (#[trigger] runs[i]).run_id != run_id,
        },
    decreases runs.len(),
{
    if runs.len() > 0 && runs.last().run_id != run_id {
        lemma_place(runs.drop_last(), run_id);
        if place(runs, run_id) is None {
            assert forall|i: int| 0 <= i < runs.len() implies (#[trigger] runs[i]).run_id
                != run_id by {
                if i < runs.len() - 1 {
                    assert(runs.drop_last()[i] == runs[i]);
                }
            }
        }
    }
}

/// Whether no two runs have one name.
pub open spec fn distinct(runs: Seq<RunView>) -> bool {
    forall|i: int, j: int|
        0 <= i < j < runs.len() ==> (#[trigger] runs[i]).run_id != (#[trigger] runs[j]).run_id
}

/// The runs with one more; a run of the same name gives way to it.
pub open spec fn with_run(runs: Seq<RunView>, run: RunView) -> Seq<RunView> {
    match place(runs, run.run_id) {
        Some(i) => runs.update(i, run),
        None => runs.push(run),
    }
}

/// How many runs ended.
pub open spec fn ended_count(runs: Seq<RunView>) -> nat
    decreases runs.len(),
{
    if runs.len() == 0 {
        0
    } else {
        ended_count(runs.drop_last()) + (if runs.last().running() {
            0nat
        } else {
            1nat
        })
    }
}

/// The run that ended longest ago; the first of those that ended at one time.
pub open spec fn oldest_ended(runs: Seq<RunView>) -> Option<int>
    decreases runs.len(),
{
    if runs.len() == 0 {
        None
    } else {
        let before = oldest_ended(runs.drop_last());
        if runs.last().running() {
            before
        } else {
            match before {
                Some(i) if runs[i].end().at_most(runs.last().end()) => before,
                _ => Some(runs.len() - 1),
            }
        }
    }
}

/// The run that ended longest ago is one that ended; there is one wherever a run ended.
pub proof fn lemma_oldest_ended(runs: Seq<RunView>)
    ensures
        match oldest_ended(runs) {
            Some(i) => 0 <= i < runs.len() && !runs[i].running() && forall|j: int|
                0 <= j < runs.len() && !(#[trigger] runs[j]).running() ==> runs[i].end().at_most(
                    runs[j].end(),
                ),
            None => ended_count(runs) == 0 && forall|j: int|
                0 <= j < runs.len() ==> (#[trigger] runs[j]).running(),
        },
    decreases runs.len(),
{
    if runs.len() > 0 {
        let before = runs.drop_last();
        lemma_oldest_ended(before);
        assert forall|j: int| 0 <= j < before.len() implies #[trigger] runs[j] == before[j] by {}
        match oldest_ended(runs) {
            Some(i) => {
                assert forall|j: int|
                    0 <= j < runs.len() && !(
                    #[trigger] runs[j]).running() implies runs[i].end().at_most(
                    runs[j].end(),
                ) by {
                    if j < before.len() {
                        assert(!before[j].running());
                        match oldest_ended(before) {
                            Some(b) => {
                                assert(before[b].end().at_most(before[j].end()));
                                assert(runs[b] == before[b]);
                            },
                            None => {},
                        }
                    }
                }
            },
            None => {
                assert forall|j: int| 0 <= j < runs.len() implies (
                #[trigger] runs[j]).running() by {
                    if j < before.len() {
                        assert(before[j].running());
                    }
                }
            },
        }
    }
}

/// The runs that are kept: all that go on, and the last that ended.
pub open spec fn kept(runs: Seq<RunView>) -> Seq<RunView>
    decreases runs.len(),
{
    match oldest_ended(runs) {
        Some(i) if ended_count(runs) > MAX_COMPLETED && 0 <= i < runs.len() => kept(
            runs.remove(i),
        ),
        _ => runs,
    }
}

/// The files that a run leaves.
pub open spec fn files_of(run: RunView) -> Seq<Seq<char>> {
    match run.work {
        WorkView::Process(process) => seq![process.stdout_path, process.stderr_path],
        WorkView::Delegated(_) => Seq::empty(),
    }
}

/// The files of the runs that are not kept.
pub open spec fn dropped_files(runs: Seq<RunView>) -> Seq<Seq<char>>
    decreases runs.len(),
{
    match oldest_ended(runs) {
        Some(i) if ended_count(runs) > MAX_COMPLETED && 0 <= i < runs.len() => files_of(runs[i])
            + dropped_files(runs.remove(i)),
        _ => Seq::empty(),
    }
}

/// Taking a run away keeps the others.
proof fn lemma_removed(runs: Seq<RunView>, i: int, run: RunView)
    requires
        0 <= i < runs.len(),
        runs.contains(run),
        runs[i] != run,
    ensures
        runs.remove(i).contains(run),
{
    let j = choose|j: int| 0 <= j < runs.len() && runs[j] == run;
    if j < i {
        assert(runs.remove(i)[j] == run);
    } else {
        assert(runs.remove(i)[j - 1] == run);
    }
}

/// Whatever is dropped, no run that goes on is; of those that ended sixty-four stay, or all where
/// there are fewer.
pub proof fn law_only_ended_runs_are_dropped(runs: Seq<RunView>, run: RunView)
    ensures
        ended_count(kept(runs)) == if ended_count(runs) <= MAX_COMPLETED {
            ended_count(runs)
        } else {
            MAX_COMPLETED as nat
        },
        runs.contains(run) && run.running() ==> kept(runs).contains(run),
    decreases runs.len(),
{
    lemma_oldest_ended(runs);
    match oldest_ended(runs) {
        Some(i) => {
            if ended_count(runs) > MAX_COMPLETED {
                if runs.contains(run) && run.running() {
                    lemma_removed(runs, i, run);
                }
                lemma_ended_count_removed(runs, i);
                law_only_ended_runs_are_dropped(runs.remove(i), run);
            }
        },
        None => {},
    }
}

/// Without a run that ended, one less ended.
proof fn lemma_ended_count_removed(runs: Seq<RunView>, i: int)
    requires
        0 <= i < runs.len(),
        !runs[i].running(),
    ensures
        ended_count(runs.remove(i)) + 1 == ended_count(runs),
    decreases runs.len(),
{
    if i == runs.len() - 1 {
        assert(runs.remove(i) =~= runs.drop_last());
    } else {
        lemma_ended_count_removed(runs.drop_last(), i);
        assert(runs.remove(i).drop_last() =~= runs.drop_last().remove(i));
        assert(runs.remove(i).last() == runs.last());
    }
}

/// What is kept was there before.
proof fn lemma_kept(runs: Seq<RunView>, run: RunView)
    requires
        kept(runs).contains(run),
    ensures
        runs.contains(run),
    decreases runs.len(),
{
    match oldest_ended(runs) {
        Some(i) if ended_count(runs) > MAX_COMPLETED && 0 <= i < runs.len() => {
            lemma_kept(runs.remove(i), run);
            let j = choose|j: int| 0 <= j < runs.remove(i).len() && runs.remove(i)[j] == run;
            if j < i {
                assert(runs[j] == run);
            } else {
                assert(runs[j + 1] == run);
            }
        },
        _ => {},
    }
}

/// The runs that ended first are dropped first, and none is where few ended.
pub proof fn law_the_oldest_runs_are_dropped(runs: Seq<RunView>, dropped: RunView, stays: RunView)
    ensures
        ended_count(runs) <= MAX_COMPLETED ==> kept(runs) == runs,
        runs.contains(dropped) && !kept(runs).contains(dropped) && kept(runs).contains(stays)
            && !stays.running() ==> dropped.end().at_most(stays.end()),
    decreases runs.len(),
{
    lemma_oldest_ended(runs);
    match oldest_ended(runs) {
        Some(i) if ended_count(runs) > MAX_COMPLETED && 0 <= i < runs.len() => {
            law_the_oldest_runs_are_dropped(runs.remove(i), dropped, stays);
            if runs.contains(dropped) && !kept(runs).contains(dropped) && kept(runs).contains(stays)
                && !stays.running() {
                if runs[i] == dropped {
                    lemma_kept(runs, stays);
                    let j = choose|j: int| 0 <= j < runs.len() && runs[j] == stays;
                    assert(runs[i].end().at_most(runs[j].end()));
                } else {
                    lemma_removed(runs, i, dropped);
                }
            }
        },
        _ => {},
    }
}

/// Taking a run away keeps the names distinct.
proof fn lemma_removed_distinct(runs: Seq<RunView>, i: int)
    requires
        0 <= i < runs.len(),
        distinct(runs),
    ensures
        distinct(runs.remove(i)),
{
    let fewer = runs.remove(i);
    assert forall|a: int, b: int| 0 <= a < b < fewer.len() implies (#[trigger] fewer[a]).run_id
        != (#[trigger] fewer[b]).run_id by {
        let x = if a < i {
            a
        } else {
            a + 1
        };
        let y = if b < i {
            b
        } else {
            b + 1
        };
        assert(fewer[a] == runs[x] && fewer[b] == runs[y]);
    }
}

/// What is known of a run.
#[derive(Debug, PartialEq, Eq)]
pub struct AsyncToolRunSnapshot {
    pub run_id: String,
    pub tool_name: String,
    pub kind: AsyncToolRunKind,
    pub status: AsyncToolRunStatus,
    pub summary: String,
    pub details: AsyncToolRunDetails,
    pub started_at: Timestamp,
    pub finished_at: Option<Timestamp>,
}

/// What is known of the work in a run.
#[derive(Debug, PartialEq, Eq)]
pub enum AsyncToolRunDetails {
    Process(ProcessAsyncToolRunDetails),
    Delegated(DelegatedAsyncToolRunDetails),
}

/// What is known of a process.
#[derive(Debug, PartialEq, Eq)]
pub struct ProcessAsyncToolRunDetails {
    pub command: String,
    pub pid: Option<u32>,
    pub exit_code: Option<i32>,
    pub stdout: String,
    pub stderr: String,
}

/// What is known of work that was handed on.
#[derive(Debug, PartialEq, Eq)]
pub struct DelegatedAsyncToolRunDetails {
    pub request: String,
    pub reply: Option<String>,
    pub error: Option<String>,
}

/// Whether what is known tells of the work in a run, with what a process wrote.
pub open spec fn details_tell(
    details: AsyncToolRunDetails,
    work: WorkView,
    stdout: Seq<char>,
    stderr: Seq<char>,
) -> bool {
    match (details, work) {
        (AsyncToolRunDetails::Process(details), WorkView::Process(process)) => {
            &&& details.command@ == process.command
            &&& details.pid == process.pid
            &&& details.exit_code == process.exit_code
            &&& details.stdout@ == stdout
            &&& details.stderr@ == stderr
        },
        (AsyncToolRunDetails::Delegated(details), WorkView::Delegated(delegated)) => {
            &&& details.request@ == delegated.request
            &&& text::opt_view(details.reply) == delegated.reply
            &&& text::opt_view(details.error) == delegated.error
        },
        _ => false,
    }
}

/// Whether a snapshot tells of a run, with what a process wrote.
pub open spec fn tells_of(
    snapshot: AsyncToolRunSnapshot,
    run: RunView,
    stdout: Seq<char>,
    stderr: Seq<char>,
) -> bool {
    &&& snapshot.run_id@ == run.run_id
    &&& snapshot.tool_name@ == run.tool_name
    &&& snapshot.kind == run.work.kind()
    &&& snapshot.status == run.status
    &&& snapshot.summary@ == run.summary
    &&& details_tell(snapshot.details, run.work, stdout, stderr)
    &&& snapshot.started_at == run.started_at
    &&& snapshot.finished_at == run.finished_at
}

/// A copy of an optional text.
fn copied(value: &Option<String>) -> (r: Option<String>)
    ensures
        text::opt_view(r) == text::opt_view(*value),
{
    match value {
        Some(value) => Some(value.clone()),
        None => None,
    }
}

impl AsyncToolRunEntry {
    /// What is known of the run, given what a process wrote.
    pub fn snapshot(&self, stdout: String, stderr: String) -> (r: AsyncToolRunSnapshot)
        ensures
            tells_of(r, self@, stdout@, stderr@),
    {
        let (kind, details) = match &self.work {
            RunWork::Process(process) => (
                AsyncToolRunKind::Process,
                AsyncToolRunDetails::Process(
                    ProcessAsyncToolRunDetails {
                        command: process.command.clone(),
                        pid: process.pid,
                        exit_code: process.exit_code,
                        stdout,
                        stderr,
                    },
                ),
            ),
            RunWork::Delegated(delegated) => (
                AsyncToolRunKind::Delegated,
                AsyncToolRunDetails::Delegated(
                    DelegatedAsyncToolRunDetails {
                        request: delegated.request.clone(),
                        reply: copied(&delegated.reply),
                        error: copied(&delegated.error),
                    },
                ),
            ),
        };
        AsyncToolRunSnapshot {
            run_id: self.run_id.clone(),
            tool_name: self.tool_name.clone(),
            kind,
            status: self.status,
            summary: self.summary.clone(),
            details,
            started_at: self.started_at,
            finished_at: self.finished_at,
        }
    }
}

/// How many bytes of what a process wrote are kept in view.
pub const STDOUT_TAIL_BYTES: u64 = 32_768;

/// How many bytes of its complaints are kept in view.
pub const STDERR_TAIL_BYTES: u64 = 16_384;

/// Where the last bytes of a file begin.
pub fn tail_start(len: u64, max_bytes: u64) -> (r: u64)
    ensures
        r == if len > max_bytes {
            len - max_bytes
        } else {
            0
        },
{
    if len > max_bytes {
        len - max_bytes
    } else {
        0
    }
}

/// What has to be done to kill a run.
#[derive(Debug, Clone, Copy, PartialEq, Eq, Structural)]
pub enum KillStep {
    /// The run has ended.
    Done,
    /// The process is to be killed where it has a number.
    Kill(Option<u32>),
}

/// What has to be done to kill a run: nothing where it ended, and only processes can be killed.
pub open spec fn killing(run: RunView) -> Result<KillStep, ErrorView> {
    if !run.running() {
        Ok(KillStep::Done)
    } else {
        match run.work {
            WorkView::Process(process) => Ok(KillStep::Kill(process.pid)),
            WorkView::Delegated(_) => Err(
                ErrorView::Tool("background run kind does not support kill"@),
            ),
        }
    }
}

/// What a result with a step says.
pub open spec fn kill_result(r: Result<KillStep, FrameworkError>) -> Result<KillStep, ErrorView> {
    match r {
        Ok(step) => Ok(step),
        Err(error) => Err(error@),
    }
}

/// The error for a run that is not there, or not to be seen.
pub open spec fn unknown_run(run_id: Seq<char>) -> ErrorView {
    ErrorView::Tool("unknown background run_id: "@ + run_id)
}

/// The runs in the background.
#[derive(Debug, PartialEq, Eq)]
pub struct AsyncToolRunManager {
    pub runs: Vec<AsyncToolRunEntry>,
    pub counter: u64,
}

/// Runs as they read.
pub open spec fn run_views(runs: Seq<AsyncToolRunEntry>) -> Seq<RunView> {
    Seq::new(runs.len(), |i: int| runs[i]@)
}

impl View for AsyncToolRunManager {
    type V = Seq<RunView>;

    open spec fn view(&self) -> Seq<RunView> {
        run_views(self.runs@)
    }
}

/// The run that a session of an agent may see under a name.
pub open spec fn seen_run(
    runs: Seq<RunView>,
    run_id: Seq<char>,
    agent_id: Seq<char>,
    session_key: Seq<char>,
) -> Option<int> {
    match place(runs, run_id) {
        Some(i) if runs[i].belongs_to(agent_id, session_key) => Some(i),
        _ => None,
    }
}

/// Places where runs stand, as numbers.
pub open spec fn place_views(places: Seq<usize>) -> Seq<int> {
    Seq::new(places.len(), |i: int| places[i] as int)
}

/// All runs, each with when it began.
pub open spec fn begun(runs: Seq<RunView>) -> Seq<(Newest, int)> {
    Seq::new(runs.len(), |i: int| (Newest(runs[i].started_at), i))
}

/// Where runs stand, the last that began first.
pub open spec fn listed(runs: Seq<(Newest, int)>) -> Seq<int> {
    Seq::new(runs.len(), |i: int| order::ranked(runs)[i].1)
}

/// Of the places where runs stand, those of one kind, in the order they have.
pub open spec fn of_kind(runs: Seq<RunView>, places: Seq<int>, kind: AsyncToolRunKind) -> Seq<int>
    decreases places.len(),
{
    if places.len() == 0 {
        Seq::empty()
    } else {
        let before = of_kind(runs, places.drop_last(), kind);
        if runs[places.last()].work.kind() == kind {
            before.push(places.last())
        } else {
            before
        }
    }
}

/// Where runs stand, the last that began first.
fn places_newest_first(found: Vec<(Newest, usize)>, Ghost(wanted): Ghost<Seq<(Newest, int)>>) -> (r:
    Vec<usize>)
    requires
        found@.len() == wanted.len(),
        forall|k: int|
            0 <= k < found@.len() ==> #[trigger] wanted[k] == (found@[k].0, found@[k].1 as int),
    ensures
        place_views(r@) == listed(wanted),
        r@.len() == wanted.len(),
        forall|i: int|
            0 <= i < r@.len() ==> #[trigger] r@[i] as int == order::ranked(wanted)[i].1,
{
    let ghost unsorted = found@;
    let sorted = sort_ranked(found);
    proof {
        order::lemma_ranked_keys(unsorted, wanted, |k: usize| k as int);
        order::law_ranking_orders(unsorted);
    }
    let mut places: Vec<usize> = Vec::new();
    let mut k: usize = 0;
    while k < sorted.len()
        invariant
            k <= sorted@.len(),
            places@.len() == k,
            forall|j: int| 0 <= j < k ==> #[trigger] places@[j] == sorted@[j].1,
        decreases sorted@.len() - k,
    {
        places.push(sorted[k].1);
        k = k + 1;
    }
    assert forall|j: int| 0 <= j < places@.len() implies #[trigger] places@[j] as int
        == order::ranked(wanted)[j].1 by {
        assert(order::ranked(wanted)[j] == (sorted@[j].0, sorted@[j].1 as int));
    }
    assert(place_views(places@) =~= listed(wanted));
    places
}

/// The runs that a session of an agent may see.
pub open spec fn session_runs(
    runs: Seq<RunView>,
    agent_id: Seq<char>,
    session_key: Seq<char>,
) -> Seq<(Newest, int)>
    decreases runs.len(),
{
    if runs.len() == 0 {
        Seq::empty()
    } else {
        let before = session_runs(runs.drop_last(), agent_id, session_key);
        if runs.last().belongs_to(agent_id, session_key) {
            before.push((Newest(runs.last().started_at), runs.len() - 1))
        } else {
            before
        }
    }
}

/// The runs with one that ended.
pub open spec fn with_process_ended(
    runs: Seq<RunView>,
    run_id: Seq<char>,
    exit_code: Option<i32>,
    now: Timestamp,
) -> Seq<RunView> {
    match place(runs, run_id) {
        Some(i) if runs[i].running() => runs.update(
            i,
            RunView {
                status: AsyncToolRunStatus::Completed,
                finished_at: Some(now),
                work: match runs[i].work {
                    WorkView::Process(process) => WorkView::Process(
                        ProcessStateView { exit_code, ..process },
                    ),
                    work => work,
                },
                ..runs[i]
            },
        ),
        _ => runs,
    }
}

/// The runs with one whose work was answered.
pub open spec fn with_reply(
    runs: Seq<RunView>,
    run_id: Seq<char>,
    result: Result<Seq<char>, ErrorView>,
    now: Timestamp,
) -> Seq<RunView> {
    match place(runs, run_id) {
        Some(i) if runs[i].running() => runs.update(
            i,
            RunView {
                status: AsyncToolRunStatus::Completed,
                finished_at: Some(now),
                work: match runs[i].work {
                    WorkView::Delegated(delegated) => WorkView::Delegated(
                        match result {
                            Ok(reply) => DelegatedStateView {
                                reply: Some(reply),
                                error: None,
                                ..delegated
                            },
                            Err(error) => DelegatedStateView {
                                reply: None,
                                error: Some(error.message()),
                                ..delegated
                            },
                        },
                    ),
                    work => work,
                },
                ..runs[i]
            },
        ),
        _ => runs,
    }
}

/// The runs with one that was killed.
pub open spec fn with_killed(runs: Seq<RunView>, run_id: Seq<char>, now: Timestamp) -> Seq<RunView> {
    match place(runs, run_id) {
        Some(i) => match runs[i].work {
            WorkView::Process(process) if runs[i].running() => runs.update(
                i,
                RunView {
                    status: AsyncToolRunStatus::Killed,
                    finished_at: Some(now),
                    work: WorkView::Process(
                        ProcessStateView { exit_code: Some((-1) as i32), ..process },
                    ),
                    ..runs[i]
                },
            ),
            _ => runs,
        },
        None => runs,
    }
}

/// The runs with one whose outcome is waited for, or no more.
pub open spec fn with_claim(runs: Seq<RunView>, i: int, claimed: bool) -> Seq<RunView> {
    runs.update(i, RunView { claimed, ..runs[i] })
}

/// The runs after runs are claimed, and which of them have ended; or the error for the first that
/// is not to be seen.  Those claimed before it stay so.
pub open spec fn claimed_runs(
    runs: Seq<RunView>,
    run_ids: Seq<Seq<char>>,
    agent_id: Seq<char>,
    session_key: Seq<char>,
) -> (Seq<RunView>, Result<Seq<bool>, ErrorView>)
    decreases run_ids.len(),
{
    if run_ids.len() == 0 {
        (runs, Ok(Seq::empty()))
    } else {
        let (before, said) = claimed_runs(runs, run_ids.drop_last(), agent_id, session_key);
        match said {
            Err(error) => (before, Err(error)),
            Ok(ended) => match seen_run(before, run_ids.last(), agent_id, session_key) {
                Some(i) => (with_claim(before, i, true), Ok(ended.push(!before[i].running()))),
                None => (before, Err(unknown_run(run_ids.last()))),
            },
        }
    }
}

/// The runs after claims on those that go on are given up.
pub open spec fn unclaimed_runs(runs: Seq<RunView>, run_ids: Seq<Seq<char>>) -> Seq<RunView>
    decreases run_ids.len(),
{
    if run_ids.len() == 0 {
        runs
    } else {
        let before = unclaimed_runs(runs, run_ids.drop_last());
        match place(before, run_ids.last()) {
            Some(i) if before[i].running() => with_claim(before, i, false),
            _ => before,
        }
    }
}

/// Which of some runs go on, of those that a session may see; or the error for the first that it
/// may not.
pub open spec fn going_on(
    runs: Seq<RunView>,
    run_ids: Seq<Seq<char>>,
    agent_id: Seq<char>,
    session_key: Seq<char>,
) -> Result<Seq<Seq<char>>, ErrorView>
    decreases run_ids.len(),
{
    if run_ids.len() == 0 {
        Ok(Seq::empty())
    } else {
        match going_on(runs, run_ids.drop_last(), agent_id, session_key) {
            Err(error) => Err(error),
            Ok(before) => match seen_run(runs, run_ids.last(), agent_id, session_key) {
                Some(i) => Ok(
                    if runs[i].running() {
                        before.push(run_ids.last())
                    } else {
                        before
                    },
                ),
                None => Err(unknown_run(run_ids.last())),
            },
        }
    }
}

impl AsyncToolRunManager {
    /// No runs.
    pub fn new() -> (r: Self)
        ensures
            r@ == Seq::<RunView>::empty(),
            r.counter == 1,
    {
        let manager = AsyncToolRunManager { runs: Vec::new(), counter: 1 };
        assert(manager@ =~= Seq::<RunView>::empty());
        manager
    }

    /// A name for the next run, made of the time in milliseconds and a number that goes up.
    pub fn next_run_id(&mut self, now_millis: i64) -> (r: String)
        ensures
            r@ == "async-tool-run-"@ + text::decimal_int(now_millis as int) + "-"@ + text::decimal(
                old(self).counter as nat,
            ),
            final(self)@ == old(self)@,
            final(self).counter == if old(self).counter == u64::MAX {
                0
            } else {
                old(self).counter + 1
            },
    {
        let seq: u64 = self.counter;
        self.counter = if seq == u64::MAX {
            0
        } else {
            seq + 1
        };
        let stamp = text::concat3(
            "async-tool-run-",
            text::decimal_of_i64(now_millis).as_str(),
            "-",
        );
        text::concat2(stamp.as_str(), text::decimal_of(seq).as_str())
    }

    /// Where a run stands.
    fn find(&self, run_id: &str) -> (r: Option<usize>)
        ensures
            text::opt_pos(r) == place(self@, run_id@),
            r is Some ==> r->0 < self.runs@.len(),
    {
        let ghost all = self@;
        let mut i: usize = self.runs.len();
        assert(all.take(i as int) =~= all);
        while i > 0
            invariant
                i <= self.runs@.len(),
                all == self@,
                place(all.take(i as int), run_id@) == place(all, run_id@),
            decreases i,
        {
            assert(all.take(i as int).drop_last() =~= all.take(i - 1));
            assert(all.take(i as int).last() == self.runs@[i - 1]@);
            if text::same_text(self.runs[i - 1].run_id.as_str(), run_id) {
                return Some(i - 1);
            }
            i = i - 1;
        }
        None
    }

    /// Adds a run, and drops the runs that ended longest ago where there are too many.  The files
    /// that those left are handed back.
    fn insert(&mut self, entry: AsyncToolRunEntry) -> (r: Vec<String>)
        ensures
            final(self)@ == kept(with_run(old(self)@, entry@)),
            text::views(r@) == dropped_files(with_run(old(self)@, entry@)),
            final(self).counter == old(self).counter,
            distinct(old(self)@) ==> distinct(final(self)@),
    {
        let ghost before = self@;
        let ghost added = entry@;
        proof {
            lemma_place(before, added.run_id);
        }
        match self.find(entry.run_id.as_str()) {
            Some(i) => {
                self.runs.set(i, entry);
                assert(self@ =~= before.update(i as int, added));
            },
            None => {
                self.runs.push(entry);
                assert(self@ =~= before.push(added));
            },
        }
        proof {
            if distinct(before) {
                let after = self@;
                assert forall|a: int, b: int| 0 <= a < b < after.len() implies (
                #[trigger] after[a]).run_id != (#[trigger] after[b]).run_id by {
                    if a < before.len() && b < before.len() {
                        assert(before[a].run_id != before[b].run_id);
                    }
                }
            }
        }
        self.auto_evict()
    }

    /// The run that ended longest ago, and how many ended.
    fn oldest(&self) -> (r: (Option<usize>, usize))
        ensures
            text::opt_pos(r.0) == oldest_ended(self@),
            r.1 == ended_count(self@),
            r.1 <= self.runs@.len(),
    {
        let ghost all = self@;
        let mut best: Option<usize> = None;
        let mut count: usize = 0;
        let mut i: usize = 0;
        assert(all.take(0) =~= Seq::<RunView>::empty());
        while i < self.runs.len()
            invariant
                i <= self.runs@.len(),
                all == self@,
                text::opt_pos(best) == oldest_ended(all.take(i as int)),
                best is Some ==> best->0 < i,
                count == ended_count(all.take(i as int)),
                count <= i,
            decreases self.runs@.len() - i,
        {
            proof {
                assert(all.take(i + 1).drop_last() =~= all.take(i as int));
                assert(all.take(i + 1).last() == self.runs@[i as int]@);
            }
            let entry = &self.runs[i];
            if !entry.is_running() {
                count = count + 1;
                let end = match entry.finished_at {
                    Some(finished_at) => finished_at,
                    None => entry.started_at,
                };
                let older = match best {
                    Some(k) => {
                        let other = &self.runs[k];
                        assert(all.take(i + 1)[k as int] == other@);
                        let other_end = match other.finished_at {
                            Some(finished_at) => finished_at,
                            None => other.started_at,
                        };
                        !(other_end.secs < end.secs || (other_end.secs == end.secs
                            && other_end.nanos <= end.nanos))
                    },
                    None => true,
                };
                if older {
                    best = Some(i);
                }
            }
            i = i + 1;
        }
        assert(all.take(all.len() as int) =~= all);
        (best, count)
    }

    /// Drops the runs that ended longest ago where more than sixty-four ended.
    fn auto_evict(&mut self) -> (r: Vec<String>)
        ensures
            final(self)@ == kept(old(self)@),
            text::views(r@) == dropped_files(old(self)@),
            final(self).counter == old(self).counter,
            distinct(old(self)@) ==> distinct(final(self)@),
    {
        let ghost start = self@;
        let mut files: Vec<String> = Vec::new();
        assert(text::views(files@) + dropped_files(start) =~= dropped_files(start));
        loop
            invariant
                kept(self@) == kept(start),
                text::views(files@) + dropped_files(self@) == dropped_files(start),
                self.counter == old(self).counter,
                start == old(self)@,
                distinct(start) ==> distinct(self@),
            ensures
                kept(self@) == self@,
                kept(self@) == kept(start),
                text::views(files@) == dropped_files(start),
                self.counter == old(self).counter,
                start == old(self)@,
                distinct(start) ==> distinct(self@),
            decreases self.runs@.len(),
        {
            let ghost now = self@;
            let (best, count) = self.oldest();
            proof {
                lemma_oldest_ended(now);
            }
            match best {
                Some(i) if count > MAX_COMPLETED => {
                    let entry = self.runs.remove(i);
                    proof {
                        assert(self@ =~= now.remove(i as int));
                        assert(entry@ == now[i as int]);
                        if distinct(now) {
                            lemma_removed_distinct(now, i as int);
                        }
                    }
                    let ghost known = text::views(files@);
                    if let RunWork::Process(process) = entry.work {
                        let ghost one = process.stdout_path@;
                        let ghost two = process.stderr_path@;
                        files.push(process.stdout_path);
                        files.push(process.stderr_path);
                        assert(text::views(files@) =~= known + seq![one, two]);
                    } else {
                        assert(known + Seq::<Seq<char>>::empty() =~= known);
                    }
                    proof {
                        assert(known + dropped_files(now) =~= text::views(files@) + dropped_files(
                            self@,
                        ));
                    }
                },
                _ => {
                    assert(text::views(files@) + Seq::<Seq<char>>::empty() =~= text::views(
                        files@,
                    ));
                    break;
                },
            }
        }
        files
    }

    /// Adds a process that was started.  The files that dropped runs left are handed back.
    pub fn start_process(
        &mut self,
        run_id: &str,
        tool_name: &str,
        agent_id: &str,
        session_key: &str,
        process: ProcessRunState,
        now: Timestamp,
    ) -> (r: (StartedAsyncToolRun, Vec<String>))
        ensures
            r.0.run_id@ == run_id@ && r.0.tool_name@ == tool_name@ && r.0.kind
                == AsyncToolRunKind::Process,
            final(self)@ == kept(
                with_run(
                    old(self)@,
                    new_run(
                        run_id@,
                        tool_name@,
                        process.command@,
                        agent_id@,
                        session_key@,
                        now,
                        WorkView::Process(process@),
                    ),
                ),
            ),
            text::views(r.1@) == dropped_files(
                with_run(
                    old(self)@,
                    new_run(
                        run_id@,
                        tool_name@,
                        process.command@,
                        agent_id@,
                        session_key@,
                        now,
                        WorkView::Process(process@),
                    ),
                ),
            ),
            final(self).counter == old(self).counter,
            distinct(old(self)@) ==> distinct(final(self)@),
    {
        let entry = AsyncToolRunEntry {
            run_id: run_id.to_owned(),
            tool_name: tool_name.to_owned(),
            summary: process.command.clone(),
            agent_id: agent_id.to_owned(),
            session_key: session_key.to_owned(),
            status: AsyncToolRunStatus::Running,
            started_at: now,
            finished_at: None,
            claimed: false,
            work: RunWork::Process(process),
        };
        let files = self.insert(entry);
        (
            StartedAsyncToolRun {
                run_id: run_id.to_owned(),
                tool_name: tool_name.to_owned(),
                kind: AsyncToolRunKind::Process,
            },
            files,
        )
    }

    /// Adds work that was handed on.  The files that dropped runs left are handed back.
    pub fn start_delegated(
        &mut self,
        run_id: &str,
        tool_name: &str,
        request: &str,
        agent_id: &str,
        session_key: &str,
        now: Timestamp,
    ) -> (r: (StartedAsyncToolRun, Vec<String>))
        ensures
            r.0.run_id@ == run_id@ && r.0.tool_name@ == tool_name@ && r.0.kind
                == AsyncToolRunKind::Delegated,
            final(self)@ == kept(
                with_run(
                    old(self)@,
                    new_run(
                        run_id@,
                        tool_name@,
                        request@,
                        agent_id@,
                        session_key@,
                        now,
                        WorkView::Delegated(
                            DelegatedStateView { request: request@, reply: None, error: None },
                        ),
                    ),
                ),
            ),
            text::views(r.1@) == dropped_files(
                with_run(
                    old(self)@,
                    new_run(
                        run_id@,
                        tool_name@,
                        request@,
                        agent_id@,
                        session_key@,
                        now,
                        WorkView::Delegated(
                            DelegatedStateView { request: request@, reply: None, error: None },
                        ),
                    ),
                ),
            ),
            final(self).counter == old(self).counter,
            distinct(old(self)@) ==> distinct(final(self)@),
    {
        let entry = AsyncToolRunEntry {
            run_id: run_id.to_owned(),
            tool_name: tool_name.to_owned(),
            summary: request.to_owned(),
            agent_id: agent_id.to_owned(),
            session_key: session_key.to_owned(),
            status: AsyncToolRunStatus::Running,
            started_at: now,
            finished_at: None,
            claimed: false,
            work: RunWork::Delegated(
                DelegatedRunState { request: request.to_owned(), reply: None, error: None },
            ),
        };
        let files = self.insert(entry);
        (
            StartedAsyncToolRun {
                run_id: run_id.to_owned(),
                tool_name: tool_name.to_owned(),
                kind: AsyncToolRunKind::Delegated,
            },
            files,
        )
    }

    /// The run with a name.
    pub fn get(&self, run_id: &str) -> (r: Result<&AsyncToolRunEntry, FrameworkError>)
        ensures
            match place(self@, run_id@) {
                Some(i) => r is Ok && r->Ok_0@ == self@[i],
                None => r is Err && r->Err_0@ == ErrorView::Tool(
                    "unknown async tool run_id: "@ + run_id@,
                ),
            },
    {
        match self.find(run_id) {
            Some(i) => Ok(&self.runs[i]),
            None => Err(
                FrameworkError::Tool(text::concat2("unknown async tool run_id: ", run_id)),
            ),
        }
    }

    /// Where the run stands that a session of an agent may see under a name.
    fn find_seen(&self, run_id: &str, agent_id: &str, session_key: &str) -> (r: Option<usize>)
        ensures
            text::opt_pos(r) == seen_run(self@, run_id@, agent_id@, session_key@),
            r is Some ==> r->0 < self.runs@.len(),
    {
        match self.find(run_id) {
            Some(i) if self.runs[i].belongs_to(agent_id, session_key) => Some(i),
            _ => None,
        }
    }

    /// The run that a session of an agent may see under a name.
    pub fn get_for_session(&self, run_id: &str, agent_id: &str, session_key: &str) -> (r: Result<
        &AsyncToolRunEntry,
        FrameworkError,
    >)
        ensures
            match seen_run(self@, run_id@, agent_id@, session_key@) {
                Some(i) => r is Ok && r->Ok_0@ == self@[i],
                None => r is Err && r->Err_0@ == unknown_run(run_id@),
            },
    {
        match self.find_seen(run_id, agent_id, session_key) {
            Some(i) => Ok(&self.runs[i]),
            None => Err(
                FrameworkError::Tool(text::concat2("unknown background run_id: ", run_id)),
            ),
        }
    }

    /// Where the runs stand that a session of an agent may see, the last that began first.
    pub fn list_for_session(&self, agent_id: &str, session_key: &str) -> (r: Vec<usize>)
        ensures
            r@.len() == session_runs(self@, agent_id@, session_key@).len(),
            forall|i: int|
                0 <= i < r@.len() ==> #[trigger] r@[i] as int == order::ranked(
                    session_runs(self@, agent_id@, session_key@),
                )[i].1,
    {
        let ghost all = self@;
        let mut found: Vec<(Newest, usize)> = Vec::new();
        let mut i: usize = 0;
        assert(all.take(0) =~= Seq::<RunView>::empty());
        while i < self.runs.len()
            invariant
                i <= self.runs@.len(),
                all == self@,
                found@.len() == session_runs(all.take(i as int), agent_id@, session_key@).len(),
                forall|k: int|
                    0 <= k < found@.len() ==> #[trigger] session_runs(
                        all.take(i as int),
                        agent_id@,
                        session_key@,
                    )[k] == (found@[k].0, found@[k].1 as int),
            decreases self.runs@.len() - i,
        {
            proof {
                assert(all.take(i + 1).drop_last() =~= all.take(i as int));
                assert(all.take(i + 1).last() == self.runs@[i as int]@);
            }
            if self.runs[i].belongs_to(agent_id, session_key) {
                found.push((Newest(self.runs[i].started_at), i));
            }
            i = i + 1;
        }
        assert(all.take(all.len() as int) =~= all);
        places_newest_first(found, Ghost(session_runs(all, agent_id@, session_key@)))
    }

    /// Where the runs of all sessions stand, the last that began first.
    pub fn list(&self) -> (r: Vec<usize>)
        ensures
            place_views(r@) == listed(begun(self@)),
    {
        let ghost all = self@;
        let mut found: Vec<(Newest, usize)> = Vec::new();
        let mut i: usize = 0;
        while i < self.runs.len()
            invariant
                i <= self.runs@.len(),
                all == self@,
                found@.len() == i,
                forall|k: int|
                    0 <= k < i ==> #[trigger] begun(all)[k] == (found@[k].0, found@[k].1 as int),
            decreases self.runs@.len() - i,
        {
            found.push((Newest(self.runs[i].started_at), i));
            i = i + 1;
        }
        places_newest_first(found, Ghost(begun(all)))
    }

    /// Of the places where runs stand, those of one kind.
    fn only_kind(&self, places: Vec<usize>, kind: AsyncToolRunKind) -> (r: Vec<usize>)
        requires
            forall|i: int| 0 <= i < places@.len() ==> #[trigger] places@[i] < self.runs@.len(),
        ensures
            place_views(r@) == of_kind(self@, place_views(places@), kind),
    {
        let ghost all = place_views(places@);
        let mut found: Vec<usize> = Vec::new();
        let mut i: usize = 0;
        assert(all.take(0) =~= Seq::<int>::empty());
        assert(place_views(found@) =~= Seq::<int>::empty());
        while i < places.len()
            invariant
                i <= places@.len(),
                all == place_views(places@),
                forall|k: int| 0 <= k < places@.len() ==> #[trigger] places@[k] < self.runs@.len(),
                place_views(found@) == of_kind(self@, all.take(i as int), kind),
            decreases places@.len() - i,
        {
            let at: usize = places[i];
            let ghost before = place_views(found@);
            proof {
                assert(all.take(i + 1).drop_last() =~= all.take(i as int));
                assert(all.take(i + 1).last() == at as int);
                assert(self@[at as int] == self.runs@[at as int]@);
            }
            let fits = match (&self.runs[at].work, kind) {
                (RunWork::Process(_), AsyncToolRunKind::Process) => true,
                (RunWork::Delegated(_), AsyncToolRunKind::Delegated) => true,
                _ => false,
            };
            if fits {
                found.push(at);
                assert(place_views(found@) =~= before.push(at as int));
            }
            i = i + 1;
        }
        assert(all.take(all.len() as int) =~= all);
        found
    }

    /// Where the processes stand that a session of an agent may see, the last that began first.
    pub fn list_processes_for_session(&self, agent_id: &str, session_key: &str) -> (r: Vec<usize>)
        ensures
            place_views(r@) == of_kind(
                self@,
                listed(session_runs(self@, agent_id@, session_key@)),
                AsyncToolRunKind::Process,
            ),
    {
        let places = self.list_for_session(agent_id, session_key);
        proof {
            let wanted = session_runs(self@, agent_id@, session_key@);
            order::law_ranking_orders(wanted);
            assert(place_views(places@) =~= listed(wanted));
            assert forall|i: int| 0 <= i < places@.len() implies #[trigger] places@[i]
                < self.runs@.len() by {
                lemma_listed(self@, agent_id@, session_key@, i);
            }
        }
        self.only_kind(places, AsyncToolRunKind::Process)
    }

    /// Where the processes of all sessions stand, the last that began first.
    pub fn list_processes(&self) -> (r: Vec<usize>)
        ensures
            place_views(r@) == of_kind(
                self@,
                listed(begun(self@)),
                AsyncToolRunKind::Process,
            ),
    {
        let places = self.list();
        proof {
            assert(place_views(places@).len() == begun(self@).len());
            assert forall|i: int| 0 <= i < places@.len() implies #[trigger] places@[i]
                < self.runs@.len() by {
                assert(place_views(places@)[i] == places@[i] as int);
                lemma_begun_listed(self@, i);
            }
        }
        self.only_kind(places, AsyncToolRunKind::Process)
    }

    /// What has to be done to kill a run that is known.
    fn kill_step(&self, i: usize) -> (r: Result<KillStep, FrameworkError>)
        requires
            i < self.runs@.len(),
        ensures
            kill_result(r) == killing(self@[i as int]),
    {
        let entry = &self.runs[i];
        assert(self@[i as int] == entry@);
        if !entry.is_running() {
            return Ok(KillStep::Done);
        }
        match &entry.work {
            RunWork::Process(process) => Ok(KillStep::Kill(process.pid)),
            RunWork::Delegated(_) => Err(
                error::tool_error("background run kind does not support kill"),
            ),
        }
    }

    /// What has to be done to kill a run that a session of an agent may see.
    pub fn kill_for_session(&self, run_id: &str, agent_id: &str, session_key: &str) -> (r: Result<
        KillStep,
        FrameworkError,
    >)
        ensures
            kill_result(r) == match seen_run(self@, run_id@, agent_id@, session_key@) {
                None => Err(unknown_run(run_id@)),
                Some(i) => killing(self@[i]),
            },
    {
        match self.find_seen(run_id, agent_id, session_key) {
            None => Err(
                FrameworkError::Tool(text::concat2("unknown background run_id: ", run_id)),
            ),
            Some(i) => self.kill_step(i),
        }
    }

    /// What has to be done to kill a run of any session.
    pub fn cancel(&self, run_id: &str) -> (r: Result<KillStep, FrameworkError>)
        ensures
            kill_result(r) == match place(self@, run_id@) {
                None => Err(ErrorView::Tool("unknown async tool run_id: "@ + run_id@)),
                Some(i) => killing(self@[i]),
            },
    {
        match self.find(run_id) {
            None => Err(
                FrameworkError::Tool(text::concat2("unknown async tool run_id: ", run_id)),
            ),
            Some(i) => self.kill_step(i),
        }
    }

    /// Takes a run of any session off the list, and gives what was known of it.
    pub fn forget(&mut self, run_id: &str) -> (r: Result<AsyncToolRunEntry, FrameworkError>)
        ensures
            final(self).counter == old(self).counter,
            match place(old(self)@, run_id@) {
                Some(i) => r is Ok && r->Ok_0@ == old(self)@[i] && final(self)@ == old(
                    self,
                )@.remove(i),
                None => r is Err && r->Err_0@ == ErrorView::Tool(
                    "unknown async tool run_id: "@ + run_id@,
                ) && final(self)@ == old(self)@,
            },
    {
        let ghost before = self@;
        match self.find(run_id) {
            Some(i) => {
                let entry = self.runs.remove(i);
                assert(self@ =~= before.remove(i as int));
                Ok(entry)
            },
            None => Err(
                FrameworkError::Tool(text::concat2("unknown async tool run_id: ", run_id)),
            ),
        }
    }

    /// Notes that a process was killed.
    pub fn mark_killed(&mut self, run_id: &str, now: Timestamp)
        ensures
            final(self)@ == with_killed(old(self)@, run_id@, now),
            final(self).counter == old(self).counter,
    {
        let ghost before = self@;
        if let Some(i) = self.find(run_id) {
            assert(before[i as int] == self.runs@[i as int]@);
            let running = self.runs[i].is_running();
            let is_process = match &self.runs[i].work {
                RunWork::Process(_) => true,
                RunWork::Delegated(_) => false,
            };
            if running && is_process {
                let entry = self.runs.remove(i);
                let ghost was = entry@;
                let work = match entry.work {
                    RunWork::Process(process) => RunWork::Process(
                        ProcessRunState { exit_code: Some(-1), ..process },
                    ),
                    RunWork::Delegated(delegated) => RunWork::Delegated(delegated),
                };
                let after = AsyncToolRunEntry {
                    status: AsyncToolRunStatus::Killed,
                    finished_at: Some(now),
                    work,
                    ..entry
                };
                let ghost now_reads = after@;
                self.runs.insert(i, after);
                assert(self@ =~= before.update(i as int, now_reads));
            }
        }
    }

    /// Notes that a process ended.
    pub fn mark_process_completed(&mut self, run_id: &str, exit_code: Option<i32>, now: Timestamp)
        ensures
            final(self)@ == with_process_ended(old(self)@, run_id@, exit_code, now),
            final(self).counter == old(self).counter,
    {
        let ghost before = self@;
        if let Some(i) = self.find(run_id) {
            assert(before[i as int] == self.runs@[i as int]@);
            if self.runs[i].is_running() {
                let entry = self.runs.remove(i);
                let work = match entry.work {
                    RunWork::Process(process) => RunWork::Process(
                        ProcessRunState { exit_code, ..process },
                    ),
                    RunWork::Delegated(delegated) => RunWork::Delegated(delegated),
                };
                let after = AsyncToolRunEntry {
                    status: AsyncToolRunStatus::Completed,
                    finished_at: Some(now),
                    work,
                    ..entry
                };
                let ghost now_reads = after@;
                self.runs.insert(i, after);
                assert(self@ =~= before.update(i as int, now_reads));
            }
        }
    }

    /// Notes that work that was handed on was answered.
    pub fn mark_delegated_completed(
        &mut self,
        run_id: &str,
        result: &Result<String, FrameworkError>,
        now: Timestamp,
    )
        ensures
            final(self)@ == with_reply(old(self)@, run_id@, error::text_result(*result), now),
            final(self).counter == old(self).counter,
    {
        let ghost before = self@;
        if let Some(i) = self.find(run_id) {
            assert(before[i as int] == self.runs@[i as int]@);
            if self.runs[i].is_running() {
                let entry = self.runs.remove(i);
                let work = match entry.work {
                    RunWork::Process(process) => RunWork::Process(process),
                    RunWork::Delegated(delegated) => RunWork::Delegated(
                        match result {
                            Ok(reply) => DelegatedRunState {
                                reply: Some(reply.clone()),
                                error: None,
                                ..delegated
                            },
                            Err(error) => DelegatedRunState {
                                reply: None,
                                error: Some(error.message()),
                                ..delegated
                            },
                        },
                    ),
                };
                let after = AsyncToolRunEntry {
                    status: AsyncToolRunStatus::Completed,
                    finished_at: Some(now),
                    work,
                    ..entry
                };
                let ghost now_reads = after@;
                self.runs.insert(i, after);
                assert(self@ =~= before.update(i as int, now_reads));
            }
        }
    }

    /// Sets whether the outcome of a run is waited for.
    fn set_claim(&mut self, i: usize, claimed: bool)
        requires
            i < old(self).runs@.len(),
        ensures
            final(self)@ == with_claim(old(self)@, i as int, claimed),
            final(self).counter == old(self).counter,
            final(self).runs@.len() == old(self).runs@.len(),
    {
        let ghost before = self@;
        let entry = self.runs.remove(i);
        let after = AsyncToolRunEntry { claimed, ..entry };
        let ghost now_reads = after@;
        self.runs.insert(i, after);
        assert(self@ =~= before.update(i as int, now_reads));
    }

    /// Claims runs, and tells which of them have ended.
    pub fn claim_runs(&mut self, run_ids: &Vec<String>, agent_id: &str, session_key: &str) -> (r:
        Result<Vec<bool>, FrameworkError>)
        ensures
            ({
                let (after, said) = claimed_runs(
                    old(self)@,
                    text::views(run_ids@),
                    agent_id@,
                    session_key@,
                );
                &&& final(self)@ == after
                &&& match r {
                    Ok(ended) => said == Ok::<Seq<bool>, ErrorView>(ended@),
                    Err(error) => said == Err::<Seq<bool>, ErrorView>(error@),
                }
            }),
            final(self).counter == old(self).counter,
    {
        let ghost start = self@;
        let ghost all = text::views(run_ids@);
        let mut ended: Vec<bool> = Vec::new();
        let mut i: usize = 0;
        assert(all.take(0) =~= Seq::<Seq<char>>::empty());
        assert(ended@ =~= Seq::<bool>::empty());
        while i < run_ids.len()
            invariant
                i <= run_ids@.len(),
                all == text::views(run_ids@),
                start == old(self)@,
                self.counter == old(self).counter,
                claimed_runs(start, all.take(i as int), agent_id@, session_key@) == (
                    self@,
                    Ok::<Seq<bool>, ErrorView>(ended@),
                ),
            decreases run_ids@.len() - i,
        {
            proof {
                assert(all.take(i + 1).drop_last() =~= all.take(i as int));
                assert(all.take(i + 1).last() == run_ids@[i as int]@);
            }
            match self.find_seen(run_ids[i].as_str(), agent_id, session_key) {
                Some(k) => {
                    assert(self@[k as int] == self.runs@[k as int]@);
                    let is_ended = !self.runs[k].is_running();
                    self.set_claim(k, true);
                    ended.push(is_ended);
                },
                None => {
                    proof {
                        lemma_claim_error_stays(start, all, agent_id@, session_key@, i + 1);
                    }
                    return Err(
                        FrameworkError::Tool(
                            text::concat2("unknown background run_id: ", run_ids[i].as_str()),
                        ),
                    );
                },
            }
            i = i + 1;
        }
        assert(all.take(all.len() as int) =~= all);
        Ok(ended)
    }

    /// Gives up the claims on runs that go on.
    pub fn unclaim_runs(&mut self, run_ids: &Vec<String>)
        ensures
            final(self)@ == unclaimed_runs(old(self)@, text::views(run_ids@)),
            final(self).counter == old(self).counter,
    {
        let ghost start = self@;
        let ghost all = text::views(run_ids@);
        let mut i: usize = 0;
        assert(all.take(0) =~= Seq::<Seq<char>>::empty());
        while i < run_ids.len()
            invariant
                i <= run_ids@.len(),
                all == text::views(run_ids@),
                start == old(self)@,
                self.counter == old(self).counter,
                self@ == unclaimed_runs(start, all.take(i as int)),
            decreases run_ids@.len() - i,
        {
            proof {
                assert(all.take(i + 1).drop_last() =~= all.take(i as int));
                assert(all.take(i + 1).last() == run_ids@[i as int]@);
            }
            if let Some(k) = self.find(run_ids[i].as_str()) {
                assert(self@[k as int] == self.runs@[k as int]@);
                if self.runs[k].is_running() {
                    self.set_claim(k, false);
                }
            }
            i = i + 1;
        }
        assert(all.take(all.len() as int) =~= all);
    }

    /// Which of some runs go on.
    pub fn still_running(&self, run_ids: &Vec<String>, agent_id: &str, session_key: &str) -> (r:
        Result<Vec<String>, FrameworkError>)
        ensures
            match r {
                Ok(running) => Ok::<Seq<Seq<char>>, ErrorView>(text::views(running@)),
                Err(error) => Err(error@),
            } == going_on(self@, text::views(run_ids@), agent_id@, session_key@),
    {
        let ghost all = text::views(run_ids@);
        let mut running: Vec<String> = Vec::new();
        let mut i: usize = 0;
        assert(all.take(0) =~= Seq::<Seq<char>>::empty());
        assert(text::views(running@) =~= Seq::<Seq<char>>::empty());
        while i < run_ids.len()
            invariant
                i <= run_ids@.len(),
                all == text::views(run_ids@),
                going_on(self@, all.take(i as int), agent_id@, session_key@) == Ok::<
                    Seq<Seq<char>>,
                    ErrorView,
                >(text::views(running@)),
            decreases run_ids@.len() - i,
        {
            let ghost before = text::views(running@);
            proof {
                assert(all.take(i + 1).drop_last() =~= all.take(i as int));
                assert(all.take(i + 1).last() == run_ids@[i as int]@);
            }
            match self.find_seen(run_ids[i].as_str(), agent_id, session_key) {
                Some(k) => {
                    assert(self@[k as int] == self.runs@[k as int]@);
                    if self.runs[k].is_running() {
                        running.push(run_ids[i].clone());
                        assert(text::views(running@) =~= before.push(run_ids@[i as int]@));
                    }
                },
                None => {
                    proof {
                        lemma_going_error_stays(self@, all, agent_id@, session_key@, i + 1);
                    }
                    return Err(
                        FrameworkError::Tool(
                            text::concat2("unknown background run_id: ", run_ids[i].as_str()),
                        ),
                    );
                },
            }
            i = i + 1;
        }
        assert(all.take(all.len() as int) =~= all);
        Ok(running)
    }

    /// Whether the session is told of the outcome of a run: nobody waits for it.
    pub fn should_reinject(&self, run_id: &str) -> (r: bool)
        ensures
            r == match place(self@, run_id@) {
                Some(i) => !self@[i].claimed,
                None => false,
            },
    {
        match self.find(run_id) {
            Some(i) => {
                assert(self@[i as int] == self.runs@[i as int]@);
                !self.runs[i].claimed
            },
            None => false,
        }
    }

    /// What the session is told of a process that ended.
    pub fn completion_content_for_process(&self, run_id: &str, exit_code: Option<i32>) -> (r:
        String)
        ensures
            r@ == process_content(
                run_id@,
                exit_code,
                match place(self@, run_id@) {
                    Some(i) => self@[i].summary,
                    None => "unknown"@,
                },
            ),
    {
        let summary = match self.find(run_id) {
            Some(i) => {
                assert(self@[i as int] == self.runs@[i as int]@);
                self.runs[i].summary.as_str()
            },
            None => "unknown",
        };
        let code: i64 = match exit_code {
            Some(code) => code as i64,
            None => -1,
        };
        let head = text::concat3(
            "[async tool run completed] run_id=",
            run_id,
            " kind=process exit_code=",
        );
        let coded = text::concat2(head.as_str(), text::decimal_of_i64(code).as_str());
        text::concat3(coded.as_str(), " summary=", summary)
    }

    /// What the session is told of work that was answered.
    pub fn completion_content_for_delegated(
        &self,
        run_id: &str,
        result: &Result<String, FrameworkError>,
    ) -> (r: String)
        ensures
            r@ == delegated_content(
                run_id@,
                error::text_result(*result),
                match place(self@, run_id@) {
                    Some(i) => (self@[i].tool_name, self@[i].summary),
                    None => ("unknown"@, "unknown"@),
                },
            ),
    {
        let (tool_name, summary) = match self.find(run_id) {
            Some(i) => {
                assert(self@[i as int] == self.runs@[i as int]@);
                (self.runs[i].tool_name.as_str(), self.runs[i].summary.as_str())
            },
            None => ("unknown", "unknown"),
        };
        let named = text::concat3("[async tool run completed] run_id=", run_id, " tool=");
        match result {
            Ok(_) => {
                let head = text::concat3(
                    named.as_str(),
                    tool_name,
                    " kind=delegated status=ok summary=",
                );
                text::concat2(head.as_str(), summary)
            },
            Err(error) => {
                let head = text::concat3(
                    named.as_str(),
                    tool_name,
                    " kind=delegated status=error error=",
                );
                let told = text::concat2(head.as_str(), error.message().as_str());
                text::concat3(told.as_str(), " summary=", summary)
            },
        }
    }
}

/// A run that begins.
pub open spec fn new_run(
    run_id: Seq<char>,
    tool_name: Seq<char>,
    summary: Seq<char>,
    agent_id: Seq<char>,
    session_key: Seq<char>,
    now: Timestamp,
    work: WorkView,
) -> RunView {
    RunView {
        run_id,
        tool_name,
        summary,
        agent_id,
        session_key,
        status: AsyncToolRunStatus::Running,
        started_at: now,
        finished_at: None,
        claimed: false,
        work,
    }
}

/// What a session is told of a process that ended.
pub open spec fn process_content(run_id: Seq<char>, exit_code: Option<i32>, summary: Seq<char>) -> Seq<
    char,
> {
    "[async tool run completed] run_id="@ + run_id + " kind=process exit_code="@ + text::decimal_int(
        match exit_code {
            Some(code) => code as int,
            None => -1,
        },
    ) + " summary="@ + summary
}

/// What a session is told of work that was answered.
pub open spec fn delegated_content(
    run_id: Seq<char>,
    result: Result<Seq<char>, ErrorView>,
    run: (Seq<char>, Seq<char>),
) -> Seq<char> {
    let named = "[async tool run completed] run_id="@ + run_id + " tool="@ + run.0;
    match result {
        Ok(_) => named + " kind=delegated status=ok summary="@ + run.1,
        Err(error) => named + " kind=delegated status=error error="@ + error.message()
            + " summary="@ + run.1,
    }
}

/// An error of a claim stays the error, whatever follows.
proof fn lemma_claim_error_stays(
    runs: Seq<RunView>,
    run_ids: Seq<Seq<char>>,
    agent_id: Seq<char>,
    session_key: Seq<char>,
    n: int,
)
    requires
        0 <= n <= run_ids.len(),
        claimed_runs(runs, run_ids.take(n), agent_id, session_key).1 is Err,
    ensures
        claimed_runs(runs, run_ids, agent_id, session_key) == claimed_runs(
            runs,
            run_ids.take(n),
            agent_id,
            session_key,
        ),
    decreases run_ids.len(),
{
    if n == run_ids.len() {
        assert(run_ids.take(n) =~= run_ids);
    } else {
        assert(run_ids.drop_last().take(n) =~= run_ids.take(n));
        lemma_claim_error_stays(runs, run_ids.drop_last(), agent_id, session_key, n);
    }
}

/// An error for a run that is not to be seen stays the error, whatever follows.
proof fn lemma_going_error_stays(
    runs: Seq<RunView>,
    run_ids: Seq<Seq<char>>,
    agent_id: Seq<char>,
    session_key: Seq<char>,
    n: int,
)
    requires
        0 <= n <= run_ids.len(),
        going_on(runs, run_ids.take(n), agent_id, session_key) is Err,
    ensures
        going_on(runs, run_ids, agent_id, session_key) == going_on(
            runs,
            run_ids.take(n),
            agent_id,
            session_key,
        ),
    decreases run_ids.len(),
{
    if n == run_ids.len() {
        assert(run_ids.take(n) =~= run_ids);
    } else {
        assert(run_ids.drop_last().take(n) =~= run_ids.take(n));
        lemma_going_error_stays(runs, run_ids.drop_last(), agent_id, session_key, n);
    }
}

/// What a session is told, as a message.
pub open spec fn told(route: channels::RouteView, content: Seq<char>) -> InboundView {
    InboundView {
        trace_id: route.trace_id,
        source_channel: route.source_channel,
        target_agent_id: route.target_agent_id,
        session_key: route.session_key,
        source_message_id: None,
        channel_id: route.channel_id,
        guild_id: route.guild_id,
        is_dm: route.is_dm,
        user_id: "system"@,
        username: "system"@,
        mentioned_bot: false,
        invoke: true,
        content,
        kind: InboundMessageKind::Text,
    }
}

/// What a session is told, as a message.
pub fn completion_message(route: CompletionRoute, content: String) -> (r: InboundMessage)
    ensures
        r@ == told(route@, content@),
{
    InboundMessage {
        trace_id: route.trace_id,
        source_channel: route.source_channel,
        target_agent_id: route.target_agent_id,
        session_key: route.session_key,
        source_message_id: None,
        channel_id: route.channel_id,
        guild_id: route.guild_id,
        is_dm: route.is_dm,
        user_id: "system".to_owned(),
        username: "system".to_owned(),
        mentioned_bot: false,
        invoke: true,
        content,
        kind: InboundMessageKind::Text,
    }
}

/// What a run is called and what it is about, as far as it is known.
pub open spec fn known_run(runs: Seq<RunView>, run_id: Seq<char>) -> (Seq<char>, Seq<char>) {
    match place(runs, run_id) {
        Some(i) => (runs[i].tool_name, runs[i].summary),
        None => ("unknown"@, "unknown"@),
    }
}

/// What the session is told of a run that ended: nothing where somebody waits for the run, where
/// it is not known or where nobody is to be told.
pub open spec fn told_of_end(
    runs: Seq<RunView>,
    run_id: Seq<char>,
    route: Option<channels::RouteView>,
    content: Seq<char>,
) -> Option<InboundView> {
    match (place(runs, run_id), route) {
        (Some(i), Some(route)) => if runs[i].claimed {
            None
        } else {
            Some(told(route, content))
        },
        _ => None,
    }
}

/// A message that may be missing, as it reads.
pub open spec fn opt_inbound(message: Option<InboundMessage>) -> Option<InboundView> {
    match message {
        Some(message) => Some(message@),
        None => None,
    }
}

/// A route that may be missing, as it reads.
pub open spec fn opt_route(route: Option<CompletionRoute>) -> Option<channels::RouteView> {
    match route {
        Some(route) => Some(route@),
        None => None,
    }
}

/// Whether runs are the same but for whether their outcomes are waited for.
spec fn same_but_claims(a: Seq<RunView>, b: Seq<RunView>) -> bool {
    &&& a.len() == b.len()
    &&& forall|i: int|
        0 <= i < a.len() ==> (#[trigger] a[i]) == (RunView { claimed: a[i].claimed, ..b[i] })
}

/// Runs that are the same but for claims stand in the same places.
proof fn lemma_same_places(a: Seq<RunView>, b: Seq<RunView>, run_id: Seq<char>)
    requires
        same_but_claims(a, b),
    ensures
        place(a, run_id) == place(b, run_id),
    decreases a.len(),
{
    if a.len() > 0 {
        assert(a.last().run_id == b.last().run_id);
        assert forall|i: int| 0 <= i < a.len() - 1 implies (#[trigger] a.drop_last()[i]) == (RunView {
            claimed: a.drop_last()[i].claimed,
            ..b.drop_last()[i]
        }) by {
            assert(a.drop_last()[i] == a[i] && b.drop_last()[i] == b[i]);
        }
        lemma_same_places(a.drop_last(), b.drop_last(), run_id);
    }
}

/// Giving up claims changes nothing else.
proof fn lemma_unclaimed(runs: Seq<RunView>, run_ids: Seq<Seq<char>>)
    ensures
        same_but_claims(unclaimed_runs(runs, run_ids), runs),
    decreases run_ids.len(),
{
    if run_ids.len() > 0 {
        let before = unclaimed_runs(runs, run_ids.drop_last());
        lemma_unclaimed(runs, run_ids.drop_last());
        lemma_place(before, run_ids.last());
    }
}

/// A session may see each of the runs that it was told of.
proof fn lemma_all_seen(
    runs: Seq<RunView>,
    run_ids: Seq<Seq<char>>,
    agent_id: Seq<char>,
    session_key: Seq<char>,
    i: int,
)
    requires
        going_on(runs, run_ids, agent_id, session_key) is Ok,
        0 <= i < run_ids.len(),
    ensures
        seen_run(runs, run_ids[i], agent_id, session_key) is Some,
    decreases run_ids.len(),
{
    if i < run_ids.len() - 1 {
        assert(run_ids.drop_last()[i] == run_ids[i]);
        lemma_all_seen(runs, run_ids.drop_last(), agent_id, session_key, i);
    }
}

impl AsyncToolRunManager {
    /// What the session is told of a run that ended.
    fn tell_of_end(&self, run_id: &str, route: Option<CompletionRoute>, content: String) -> (r:
        Option<InboundMessage>)
        ensures
            opt_inbound(r) == told_of_end(self@, run_id@, opt_route(route), content@),
    {
        if !self.should_reinject(run_id) {
            return None;
        }
        match route {
            Some(route) => Some(completion_message(route, content)),
            None => None,
        }
    }

    /// Ends the run of a process, and gives what its session is told of it.
    pub fn end_process(
        &mut self,
        run_id: &str,
        exit_code: Option<i32>,
        route: Option<CompletionRoute>,
        now: Timestamp,
    ) -> (r: Option<InboundMessage>)
        ensures
            final(self)@ == with_process_ended(old(self)@, run_id@, exit_code, now),
            final(self).counter == old(self).counter,
            opt_inbound(r) == told_of_end(
                final(self)@,
                run_id@,
                opt_route(route),
                process_content(run_id@, exit_code, known_run(final(self)@, run_id@).1),
            ),
    {
        self.mark_process_completed(run_id, exit_code, now);
        let content = self.completion_content_for_process(run_id, exit_code);
        self.tell_of_end(run_id, route, content)
    }

    /// Ends a run of work that was handed on, and gives what its session is told of it.
    pub fn end_delegated(
        &mut self,
        run_id: &str,
        result: &Result<String, FrameworkError>,
        route: Option<CompletionRoute>,
        now: Timestamp,
    ) -> (r: Option<InboundMessage>)
        ensures
            final(self)@ == with_reply(old(self)@, run_id@, error::text_result(*result), now),
            final(self).counter == old(self).counter,
            opt_inbound(r) == told_of_end(
                final(self)@,
                run_id@,
                opt_route(route),
                delegated_content(
                    run_id@,
                    error::text_result(*result),
                    known_run(final(self)@, run_id@),
                ),
            ),
    {
        self.mark_delegated_completed(run_id, result, now);
        let content = self.completion_content_for_delegated(run_id, result);
        self.tell_of_end(run_id, route, content)
    }

    /// Ends a wait for runs that were claimed: the claims on those that go on are given up, and
    /// the places of all of them are given.
    pub fn wait_for_session(
        &mut self,
        run_ids: &Vec<String>,
        agent_id: &str,
        session_key: &str,
    ) -> (r: Result<Vec<usize>, FrameworkError>)
        ensures
            match going_on(old(self)@, text::views(run_ids@), agent_id@, session_key@) {
                Err(error) => r is Err && r->Err_0@ == error && final(self)@ == old(self)@,
                Ok(running) => {
                    &&& final(self)@ == unclaimed_runs(old(self)@, running)
                    &&& r is Ok
                    &&& r->Ok_0@.len() == run_ids@.len()
                    &&& forall|i: int|
                        0 <= i < run_ids@.len() ==> seen_run(
                            final(self)@,
                            run_ids@[i]@,
                            agent_id@,
                            session_key@,
                        ) == Some(#[trigger] r->Ok_0@[i] as int)
                },
            },
            final(self).counter == old(self).counter,
    {
        let ghost all = text::views(run_ids@);
        let running = match self.still_running(run_ids, agent_id, session_key) {
            Ok(running) => running,
            Err(error) => {
                return Err(error);
            },
        };
        let ghost before = self@;
        self.unclaim_runs(&running);
        let mut places: Vec<usize> = Vec::new();
        let mut i: usize = 0;
        while i < run_ids.len()
            invariant
                i <= run_ids@.len(),
                all == text::views(run_ids@),
                before == old(self)@,
                going_on(before, all, agent_id@, session_key@) is Ok,
                self@ == unclaimed_runs(before, text::views(running@)),
                self.counter == old(self).counter,
                places@.len() == i,
                forall|k: int|
                    0 <= k < i ==> seen_run(self@, run_ids@[k]@, agent_id@, session_key@) == Some(
                        #[trigger] places@[k] as int,
                    ),
            decreases run_ids@.len() - i,
        {
            proof {
                lemma_all_seen(before, all, agent_id@, session_key@, i as int);
                lemma_unclaimed(before, text::views(running@));
                lemma_same_places(self@, before, run_ids@[i as int]@);
                lemma_place(before, run_ids@[i as int]@);
            }
            match self.find_seen(run_ids[i].as_str(), agent_id, session_key) {
                Some(k) => {
                    places.push(k);
                },
                None => {
                    assert(false);
                },
            }
            i = i + 1;
        }
        Ok(places)
    }
}

/// Claiming changes nothing but claims, and gives up none.
proof fn lemma_claimed(
    runs: Seq<RunView>,
    run_ids: Seq<Seq<char>>,
    agent_id: Seq<char>,
    session_key: Seq<char>,
)
    ensures
        ({
            let after = claimed_runs(runs, run_ids, agent_id, session_key).0;
            &&& same_but_claims(after, runs)
            &&& forall|i: int| 0 <= i < runs.len() && runs[i].claimed ==> (#[trigger] after[i]).claimed
        }),
    decreases run_ids.len(),
{
    if run_ids.len() > 0 {
        let before = claimed_runs(runs, run_ids.drop_last(), agent_id, session_key).0;
        lemma_claimed(runs, run_ids.drop_last(), agent_id, session_key);
        lemma_place(before, run_ids.last());
    }
}

/// Each of the runs that were claimed is claimed.
proof fn lemma_each_claimed(
    runs: Seq<RunView>,
    run_ids: Seq<Seq<char>>,
    agent_id: Seq<char>,
    session_key: Seq<char>,
    k: int,
)
    requires
        claimed_runs(runs, run_ids, agent_id, session_key).1 is Ok,
        0 <= k < run_ids.len(),
    ensures
        ({
            let after = claimed_runs(runs, run_ids, agent_id, session_key).0;
            match place(after, run_ids[k]) {
                Some(i) => after[i].claimed,
                None => false,
            }
        }),
    decreases run_ids.len(),
{
    let before = claimed_runs(runs, run_ids.drop_last(), agent_id, session_key).0;
    let after = claimed_runs(runs, run_ids, agent_id, session_key).0;
    lemma_claimed(runs, run_ids.drop_last(), agent_id, session_key);
    lemma_claimed(runs, run_ids, agent_id, session_key);
    lemma_place(before, run_ids.last());
    assert(same_but_claims(after, before));
    lemma_same_places(after, before, run_ids[k]);
    lemma_place(before, run_ids[k]);
    if k < run_ids.len() - 1 {
        assert(run_ids.drop_last()[k] == run_ids[k]);
        lemma_each_claimed(runs, run_ids.drop_last(), agent_id, session_key, k);
    }
}

/// A session that waits for runs is not told of their ends besides: of a run that was claimed no
/// message comes when it ends.
pub proof fn law_waited_runs_are_not_told(
    runs: Seq<RunView>,
    run_ids: Seq<Seq<char>>,
    agent_id: Seq<char>,
    session_key: Seq<char>,
    k: int,
    exit_code: Option<i32>,
    result: Result<Seq<char>, ErrorView>,
    route: Option<channels::RouteView>,
    content: Seq<char>,
    now: Timestamp,
)
    requires
        claimed_runs(runs, run_ids, agent_id, session_key).1 is Ok,
        0 <= k < run_ids.len(),
    ensures
        ({
            let after = claimed_runs(runs, run_ids, agent_id, session_key).0;
            let id = run_ids[k];
            &&& told_of_end(with_process_ended(after, id, exit_code, now), id, route, content) is None
            &&& told_of_end(with_reply(after, id, result, now), id, route, content) is None
        }),
{
    let after = claimed_runs(runs, run_ids, agent_id, session_key).0;
    let id = run_ids[k];
    lemma_each_claimed(runs, run_ids, agent_id, session_key, k);
    lemma_place(after, id);
    let i = place(after, id)->0;
    lemma_updated_place(after, id, with_process_ended(after, id, exit_code, now)[i]);
    lemma_updated_place(after, id, with_reply(after, id, result, now)[i]);
    assert(after.update(i, after[i]) =~= after);
}

/// A run that changes but keeps its name stays where it is.
proof fn lemma_updated_place(runs: Seq<RunView>, run_id: Seq<char>, run: RunView)
    requires
        place(runs, run_id) is Some,
        run.run_id == run_id,
    ensures
        place(runs.update(place(runs, run_id)->0, run), run_id) == place(runs, run_id),
    decreases runs.len(),
{
    lemma_place(runs, run_id);
    let i = place(runs, run_id)->0;
    if runs.last().run_id != run_id {
        lemma_place(runs.drop_last(), run_id);
        lemma_updated_place(runs.drop_last(), run_id, run);
        assert(runs.update(i, run).drop_last() =~= runs.drop_last().update(i, run));
    }
}

/// A run that ended stays as it ended: neither its end nor its death is noted again.
pub proof fn law_ended_runs_do_not_change(
    runs: Seq<RunView>,
    run_id: Seq<char>,
    exit_code: Option<i32>,
    result: Result<Seq<char>, ErrorView>,
    now: Timestamp,
)
    requires
        place(runs, run_id) matches Some(i) ==> !runs[i].running(),
    ensures
        with_process_ended(runs, run_id, exit_code, now) == runs,
        with_reply(runs, run_id, result, now) == runs,
        with_killed(runs, run_id, now) == runs,
{
}

/// A session's runs are listed with the newest first.
pub proof fn law_the_newest_runs_are_listed_first(
    runs: Seq<RunView>,
    agent_id: Seq<char>,
    session_key: Seq<char>,
    i: int,
    j: int,
)
    requires
        0 <= i <= j < session_runs(runs, agent_id, session_key).len(),
    ensures
        ({
            let listed = order::ranked(session_runs(runs, agent_id, session_key));
            &&& 0 <= listed[i].1 < runs.len()
            &&& 0 <= listed[j].1 < runs.len()
            &&& runs[listed[j].1].started_at.at_most(runs[listed[i].1].started_at)
        }),
{
    let found = session_runs(runs, agent_id, session_key);
    let listed = order::ranked(found);
    order::law_ranking_orders(found);
    lemma_listed(runs, agent_id, session_key, i);
    lemma_listed(runs, agent_id, session_key, j);
    assert(order::Ranked::rank(&listed[i].0) <= order::Ranked::rank(&listed[j].0));
}

/// What is listed of all runs is one of them.
proof fn lemma_begun_listed(runs: Seq<RunView>, i: int)
    requires
        0 <= i < runs.len(),
    ensures
        0 <= listed(begun(runs))[i] < runs.len(),
{
    broadcast use vstd::seq_lib::group_to_multiset_ensures;

    let found = begun(runs);
    let sorted = order::ranked(found);
    order::law_ranking_orders(found);
    assert(sorted.contains(sorted[i]));
    assert(sorted.to_multiset().count(sorted[i]) > 0);
    assert(found.to_multiset().count(sorted[i]) > 0);
    assert(found.contains(sorted[i]));
}

/// A list of one kind shows the runs of that kind, and no others.
pub proof fn law_lists_of_a_kind_show_that_kind(
    runs: Seq<RunView>,
    places: Seq<int>,
    kind: AsyncToolRunKind,
    place: int,
)
    ensures
        of_kind(runs, places, kind).contains(place) <==> places.contains(place)
            && runs[place].work.kind() == kind,
    decreases places.len(),
{
    if places.len() > 0 {
        let earlier = places.drop_last();
        let before = of_kind(runs, earlier, kind);
        let all = of_kind(runs, places, kind);
        law_lists_of_a_kind_show_that_kind(runs, earlier, kind, place);
        if all.contains(place) {
            let k = choose|k: int| 0 <= k < all.len() && all[k] == place;
            if k < before.len() {
                assert(before[k] == place);
                let j = choose|j: int| 0 <= j < earlier.len() && earlier[j] == place;
                assert(places[j] == place);
            } else {
                assert(places[places.len() - 1] == place);
            }
        }
        if places.contains(place) && runs[place].work.kind() == kind {
            let j = choose|j: int| 0 <= j < places.len() && places[j] == place;
            if j < earlier.len() {
                assert(earlier[j] == place);
                let k = choose|k: int| 0 <= k < before.len() && before[k] == place;
                assert(all[k] == place);
            } else {
                assert(all[all.len() - 1] == place);
            }
        }
    }
}

/// What is listed at a place is the run that it says, with its start.
proof fn lemma_listed(runs: Seq<RunView>, agent_id: Seq<char>, session_key: Seq<char>, i: int)
    requires
        0 <= i < session_runs(runs, agent_id, session_key).len(),
    ensures
        ({
            let entry = order::ranked(session_runs(runs, agent_id, session_key))[i];
            0 <= entry.1 < runs.len() && entry.0 == Newest(runs[entry.1].started_at)
        }),
{
    broadcast use vstd::seq_lib::group_to_multiset_ensures;

    let found = session_runs(runs, agent_id, session_key);
    let listed = order::ranked(found);
    order::law_ranking_orders(found);
    assert(listed.contains(listed[i]));
    assert(listed.to_multiset().count(listed[i]) > 0);
    assert(found.to_multiset().count(listed[i]) > 0);
    assert(found.contains(listed[i]));
    let k = choose|k: int| 0 <= k < found.len() && found[k] == listed[i];
    lemma_session_starts(runs, agent_id, session_key, k);
}

/// A session's run stands with its start.
proof fn lemma_session_starts(
    runs: Seq<RunView>,
    agent_id: Seq<char>,
    session_key: Seq<char>,
    k: int,
)
    requires
        0 <= k < session_runs(runs, agent_id, session_key).len(),
    ensures
        ({
            let entry = session_runs(runs, agent_id, session_key)[k];
            0 <= entry.1 < runs.len() && entry.0 == Newest(runs[entry.1].started_at)
        }),
    decreases runs.len(),
{
    let before = session_runs(runs.drop_last(), agent_id, session_key);
    if k < before.len() {
        lemma_session_starts(runs.drop_last(), agent_id, session_key, k);
    }
}

/// A session sees no run of another session, nor one of another agent.
pub proof fn law_sessions_see_their_own_runs(
    runs: Seq<RunView>,
    agent_id: Seq<char>,
    session_key: Seq<char>,
    k: int,
)
    requires
        0 <= k < session_runs(runs, agent_id, session_key).len(),
    ensures
        ({
            let i = session_runs(runs, agent_id, session_key)[k].1;
            0 <= i < runs.len() && runs[i].belongs_to(agent_id, session_key)
        }),
    decreases runs.len(),
{
    if runs.len() > 0 {
        let before = session_runs(runs.drop_last(), agent_id, session_key);
        if k < before.len() {
            law_sessions_see_their_own_runs(runs.drop_last(), agent_id, session_key, k);
        }
    }
}

/// A number as a document, or null.
fn number_or_null(value: Option<i64>) -> (r: Json)
    ensures
        r.wf(),
        r@ == opt_number(value),
{
    match value {
        Some(value) => Json::signed(value),
        None => Json::Null,
    }
}

/// A number as a document, or null.
pub open spec fn opt_number(value: Option<i64>) -> JsonView {
    match value {
        Some(value) => JsonView::Number(json::integer_number(value as int)),
        None => JsonView::Null,
    }
}

/// A process number as it is written down.
pub open spec fn pid_number(pid: Option<u32>) -> Option<i64> {
    match pid {
        Some(pid) => Some(pid as i64),
        None => None,
    }
}

/// An exit code as it is written down.
pub open spec fn code_number(exit_code: Option<i32>) -> Option<i64> {
    match exit_code {
        Some(code) => Some(code as i64),
        None => None,
    }
}

/// Whether the times of a snapshot can be written.
pub open spec fn times_ok(snapshot: AsyncToolRunSnapshot) -> bool {
    snapshot.started_at.wf() && (snapshot.finished_at is Some ==> snapshot.finished_at->0.wf())
}

/// A snapshot as a document: what a process wrote is cut where it is too long.
pub open spec fn snapshot_json(snapshot: AsyncToolRunSnapshot) -> JsonView {
    let started = JsonView::Str(
        time::written_rfc3339(snapshot.started_at.secs as int, snapshot.started_at.nanos as int),
    );
    let finished = json::opt_text_json(time::opt_written(snapshot.finished_at));
    match snapshot.details {
        AsyncToolRunDetails::Process(details) => JsonView::Object(
            map![
                "status"@ => JsonView::Str(snapshot.status.label()),
                "sessionId"@ => JsonView::Str(snapshot.run_id@),
                "command"@ => JsonView::Str(details.command@),
                "pid"@ => opt_number(pid_number(details.pid)),
                "startedAt"@ => started,
                "finishedAt"@ => finished,
                "exitCode"@ => opt_number(code_number(details.exit_code)),
                "stdout"@ => JsonView::Str(common::tool_clip(text::trim(details.stdout@), 8000)),
                "stderr"@ => JsonView::Str(common::tool_clip(text::trim(details.stderr@), 4000)),
            ],
        ),
        AsyncToolRunDetails::Delegated(details) => JsonView::Object(
            map![
                "status"@ => JsonView::Str(snapshot.status.label()),
                "sessionId"@ => JsonView::Str(snapshot.run_id@),
                "request"@ => JsonView::Str(details.request@),
                "startedAt"@ => started,
                "finishedAt"@ => finished,
                "reply"@ => json::opt_text_json(text::opt_view(details.reply)),
                "error"@ => json::opt_text_json(text::opt_view(details.error)),
            ],
        ),
    }
}

/// A snapshot as a document.
#[verifier::rlimit(80)]
pub fn snapshot_to_json(snapshot: &AsyncToolRunSnapshot) -> (r: Json)
    requires
        times_ok(*snapshot),
    ensures
        r.wf(),
        r@ == snapshot_json(*snapshot),
{
    let started = snapshot.started_at.to_rfc3339();
    let finished = time::written(snapshot.finished_at);
    match &snapshot.details {
        AsyncToolRunDetails::Process(details) => {
            let pid: Option<i64> = match details.pid {
                Some(pid) => Some(pid as i64),
                None => None,
            };
            let exit_code: Option<i64> = match details.exit_code {
                Some(code) => Some(code as i64),
                None => None,
            };
            let stdout = truncate_for_tool_output(
                text::trimmed(details.stdout.as_str()).as_str(),
                8000,
            );
            let stderr = truncate_for_tool_output(
                text::trimmed(details.stderr.as_str()).as_str(),
                4000,
            );
            Json::object().with("status", Json::text(snapshot.status.as_str())).with(
                "sessionId",
                Json::text(snapshot.run_id.as_str()),
            ).with("command", Json::text(details.command.as_str())).with(
                "pid",
                number_or_null(pid),
            ).with("startedAt", Json::text(started.as_str())).with(
                "finishedAt",
                Json::text_or_null(&finished),
            ).with("exitCode", number_or_null(exit_code)).with(
                "stdout",
                Json::text(stdout.as_str()),
            ).with("stderr", Json::text(stderr.as_str()))
        },
        AsyncToolRunDetails::Delegated(details) => Json::object().with(
            "status",
            Json::text(snapshot.status.as_str()),
        ).with("sessionId", Json::text(snapshot.run_id.as_str())).with(
            "request",
            Json::text(details.request.as_str()),
        ).with("startedAt", Json::text(started.as_str())).with(
            "finishedAt",
            Json::text_or_null(&finished),
        ).with("reply", Json::text_or_null(&details.reply)).with(
            "error",
            Json::text_or_null(&details.error),
        ),
    }
}

/// The last run with an id is the one that is found under it; among runs with distinct ids that is
/// the only one.
pub proof fn law_runs_are_found_by_their_id(runs: Seq<RunView>, run_id: Seq<char>, i: int)
    ensures
        match place(runs, run_id) {
            Some(at) => {
                &&& 0 <= at < runs.len()
                &&& runs[at].run_id == run_id
                &&& forall|j: int| at < j < runs.len() ==> (#[trigger] runs[j]).run_id != run_id
            },
            None => forall|j: int| 0 <= j < runs.len() ==> (#[trigger] runs[j]).run_id != run_id,
        },
        distinct(runs) && 0 <= i < runs.len() ==> place(runs, runs[i].run_id) == Some(i),
    decreases runs.len(),
{
    if runs.len() > 0 {
        let before = runs.drop_last();
        assert(distinct(runs) ==> distinct(before)) by {
            if distinct(runs) {
                assert forall|a: int, b: int| 0 <= a < b < before.len() implies (
                #[trigger] before[a]).run_id != (#[trigger] before[b]).run_id by {
                    assert(runs[a].run_id != runs[b].run_id);
                }
            }
        }
        law_runs_are_found_by_their_id(before, run_id, i);
        if 0 <= i < before.len() && distinct(runs) {
            assert(before[i] == runs[i]);
            assert(runs[i].run_id != runs[runs.len() - 1].run_id);
        }
        assert forall|j: int| 0 <= j < before.len() implies before[j] == #[trigger] runs[j] by {}
    }
}

/// Whether two runs differ at most in how they stand: in their status, their end and their work.
pub open spec fn same_run(a: RunView, b: RunView) -> bool {
    &&& a.run_id == b.run_id
    &&& a.tool_name == b.tool_name
    &&& a.summary == b.summary
    &&& a.agent_id == b.agent_id
    &&& a.session_key == b.session_key
    &&& a.started_at == b.started_at
    &&& a.claimed == b.claimed
}

/// Whether two processes differ at most in their exit code.
pub open spec fn same_process(a: ProcessStateView, b: ProcessStateView) -> bool {
    a.command == b.command && a.pid == b.pid && a.stdout_path == b.stdout_path && a.stderr_path
        == b.stderr_path
}

/// The end of a running process is noted with the code that it ended with, whatever that is, and
/// with the time; nothing else of it changes, and no other run does.
pub proof fn law_ended_processes_keep_their_code(
    runs: Seq<RunView>,
    i: int,
    exit_code: Option<i32>,
    now: Timestamp,
)
    requires
        distinct(runs),
        0 <= i < runs.len(),
        runs[i].status == AsyncToolRunStatus::Running,
        runs[i].work is Process,
    ensures
        ({
            let after = with_process_ended(runs, runs[i].run_id, exit_code, now);
            &&& after.len() == runs.len()
            &&& place(after, runs[i].run_id) == Some(i)
            &&& after[i].status == AsyncToolRunStatus::Completed
            &&& after[i].finished_at == Some(now)
            &&& after[i].work is Process
            &&& after[i].work->Process_0.exit_code == exit_code
            &&& same_process(after[i].work->Process_0, runs[i].work->Process_0)
            &&& same_run(after[i], runs[i])
            &&& forall|j: int| 0 <= j < runs.len() && j != i ==> #[trigger] after[j] == runs[j]
        }),
{
    law_runs_are_found_by_their_id(runs, runs[i].run_id, i);
    let after = with_process_ended(runs, runs[i].run_id, exit_code, now);
    assert(distinct(after)) by {
        assert forall|a: int, b: int| 0 <= a < b < after.len() implies (#[trigger] after[a]).run_id
            != (#[trigger] after[b]).run_id by {
            assert(runs[a].run_id != runs[b].run_id);
        }
    }
    law_runs_are_found_by_their_id(after, runs[i].run_id, i);
}

/// A process that is killed counts as having ended with -1, at the time of the kill; nothing else
/// of it changes, and no other run does.
pub proof fn law_killed_processes_are_noted(runs: Seq<RunView>, i: int, now: Timestamp)
    requires
        distinct(runs),
        0 <= i < runs.len(),
        runs[i].status == AsyncToolRunStatus::Running,
        runs[i].work is Process,
    ensures
        ({
            let after = with_killed(runs, runs[i].run_id, now);
            &&& after.len() == runs.len()
            &&& after[i].status == AsyncToolRunStatus::Killed
            &&& after[i].finished_at == Some(now)
            &&& after[i].work is Process
            &&& after[i].work->Process_0.exit_code == Some(-1i32)
            &&& same_process(after[i].work->Process_0, runs[i].work->Process_0)
            &&& same_run(after[i], runs[i])
            &&& forall|j: int| 0 <= j < runs.len() && j != i ==> #[trigger] after[j] == runs[j]
        }),
{
    law_runs_are_found_by_their_id(runs, runs[i].run_id, i);
}

/// Work that was handed on is answered with the reply that came, or with the message of the error;
/// nothing else of it changes, and no other run does.
pub proof fn law_handed_on_work_keeps_its_reply(
    runs: Seq<RunView>,
    i: int,
    result: Result<Seq<char>, ErrorView>,
    now: Timestamp,
)
    requires
        distinct(runs),
        0 <= i < runs.len(),
        runs[i].status == AsyncToolRunStatus::Running,
        runs[i].work is Delegated,
    ensures
        ({
            let after = with_reply(runs, runs[i].run_id, result, now);
            &&& after.len() == runs.len()
            &&& after[i].status == AsyncToolRunStatus::Completed
            &&& after[i].finished_at == Some(now)
            &&& after[i].work is Delegated
            &&& after[i].work->Delegated_0.request == runs[i].work->Delegated_0.request
            &&& after[i].work->Delegated_0.reply == (match result {
                Ok(reply) => Some(reply),
                Err(_) => None,
            })
            &&& after[i].work->Delegated_0.error == (match result {
                Ok(_) => None,
                Err(error) => Some(error.message()),
            })
            &&& same_run(after[i], runs[i])
            &&& forall|j: int| 0 <= j < runs.len() && j != i ==> #[trigger] after[j] == runs[j]
        }),
{
    law_runs_are_found_by_their_id(runs, runs[i].run_id, i);
}

/// A run that begins is found under its id, running, with all that was said of it; the runs with
/// other ids stay as they are.
pub proof fn law_begun_runs_are_found(
    runs: Seq<RunView>,
    run_id: Seq<char>,
    tool_name: Seq<char>,
    summary: Seq<char>,
    agent_id: Seq<char>,
    session_key: Seq<char>,
    now: Timestamp,
    work: WorkView,
)
    ensures
        ({
            let after = with_run(
                runs,
                new_run(run_id, tool_name, summary, agent_id, session_key, now, work),
            );
            let at = place(after, run_id)->Some_0;
            &&& place(after, run_id) is Some
            &&& 0 <= at < after.len()
            &&& after[at].run_id == run_id
            &&& after[at].tool_name == tool_name
            &&& after[at].summary == summary
            &&& after[at].agent_id == agent_id
            &&& after[at].session_key == session_key
            &&& after[at].status == AsyncToolRunStatus::Running
            &&& after[at].started_at == now
            &&& after[at].finished_at is None
            &&& !after[at].claimed
            &&& after[at].work == work
            &&& forall|j: int|
                0 <= j < runs.len() && (#[trigger] runs[j]).run_id != run_id ==> after[j] == runs[j]
            &&& after.len() == runs.len() + (if place(runs, run_id) is Some {
                0nat
            } else {
                1nat
            })
        }),
{
    let run = new_run(run_id, tool_name, summary, agent_id, session_key, now, work);
    let after = with_run(runs, run);
    law_runs_are_found_by_their_id(runs, run_id, 0);
    law_runs_are_found_by_their_id(after, run_id, 0);
    let at = place(after, run_id);
    match place(runs, run_id) {
        Some(i) => {
            assert(after[i].run_id == run_id);
            assert(at is Some);
            if at->Some_0 > i {
                assert(after[at->Some_0] == runs[at->Some_0]);
            }
        },
        None => {
            assert(after[runs.len() as int] == run);
        },
    }
}

/// What is shown of a run is what is known of it: how it stands, when it began and ended, and what
/// its process ended with or its work was answered.
pub proof fn law_snapshots_show_the_run(
    snapshot: AsyncToolRunSnapshot,
    run: RunView,
    stdout: Seq<char>,
    stderr: Seq<char>,
)
    requires
        tells_of(snapshot, run, stdout, stderr),
    ensures
        snapshot.run_id@ == run.run_id,
        snapshot.tool_name@ == run.tool_name,
        snapshot.summary@ == run.summary,
        snapshot.status == run.status,
        snapshot.started_at == run.started_at,
        snapshot.finished_at == run.finished_at,
        match run.work {
            WorkView::Process(process) => {
                &&& snapshot.kind == AsyncToolRunKind::Process
                &&& snapshot.details is Process
                &&& snapshot.details->Process_0.exit_code == process.exit_code
                &&& snapshot.details->Process_0.pid == process.pid
                &&& snapshot.details->Process_0.command@ == process.command
                &&& snapshot.details->Process_0.stdout@ == stdout
                &&& snapshot.details->Process_0.stderr@ == stderr
            },
            WorkView::Delegated(delegated) => {
                &&& snapshot.kind == AsyncToolRunKind::Delegated
                &&& snapshot.details is Delegated
                &&& snapshot.details->Delegated_0.request@ == delegated.request
                &&& text::opt_view(snapshot.details->Delegated_0.reply) == delegated.reply
                &&& text::opt_view(snapshot.details->Delegated_0.error) == delegated.error
            },
        },
{
}

/// The answer to a question for a process names its status, its id and its command, and two
/// processes that ended with different codes are not answered alike.
pub proof fn law_answers_tell_how_a_process_ended(
    a: AsyncToolRunSnapshot,
    b: AsyncToolRunSnapshot,
)
    requires
        a.details is Process,
        b.details is Process,
    ensures
        snapshot_json(a).get("status"@) == Some(
            JsonView::Str(
                match a.status {
                    AsyncToolRunStatus::Running => "running"@,
                    AsyncToolRunStatus::Completed => "completed"@,
                    AsyncToolRunStatus::Killed => "killed"@,
                },
            ),
        ),
        snapshot_json(a).get("sessionId"@) == Some(JsonView::Str(a.run_id@)),
        snapshot_json(a).get("command"@) == Some(JsonView::Str(a.details->Process_0.command@)),
        snapshot_json(a).get("exitCode"@) == Some(
            match a.details->Process_0.exit_code {
                Some(code) => JsonView::Number(json::integer_number(code as int)),
                None => JsonView::Null,
            },
        ),
        (a.details->Process_0.exit_code is Some) != (b.details->Process_0.exit_code is Some)
            ==> snapshot_json(a) != snapshot_json(b),
{
    reveal_strlit("status");
    reveal_strlit("sessionId");
    reveal_strlit("command");
    reveal_strlit("pid");
    reveal_strlit("startedAt");
    reveal_strlit("finishedAt");
    reveal_strlit("exitCode");
    reveal_strlit("stdout");
    reveal_strlit("stderr");
    assert("status"@.len() == 6 && "sessionId"@.len() == 9 && "command"@.len() == 7);
    assert("status"@[2] == 'a' && "stdout"@[2] == 'd' && "stderr"@[2] == 'd');
    assert("sessionId"@[1] == 'e' && "startedAt"@[1] == 't');
    assert("exitCode"@.len() == 8);
    assert("exitCode"@ != "finishedAt"@);
    assert(snapshot_json(a).get("exitCode"@) != snapshot_json(b).get("exitCode"@)
        || (a.details->Process_0.exit_code is Some) == (b.details->Process_0.exit_code is Some));
}

/// The session that a process belongs to is told its id, its code and its summary, once it ended and
/// nobody waits for it; a run that is waited for is not told.
pub proof fn law_ends_are_told_with_their_code(
    runs: Seq<RunView>,
    i: int,
    exit_code: Option<i32>,
    route: channels::RouteView,
    now: Timestamp,
)
    requires
        distinct(runs),
        0 <= i < runs.len(),
        runs[i].status == AsyncToolRunStatus::Running,
        runs[i].work is Process,
    ensures
        ({
            let id = runs[i].run_id;
            let after = with_process_ended(runs, id, exit_code, now);
            let content = process_content(id, exit_code, known_run(after, id).1);
            &&& content == "[async tool run completed] run_id="@ + id
                + " kind=process exit_code="@ + text::decimal_int(
                match exit_code {
                    Some(code) => code as int,
                    None => -1,
                },
            ) + " summary="@ + runs[i].summary
            &&& told_of_end(after, id, Some(route), content) is None <==> runs[i].claimed
            &&& !runs[i].claimed ==> {
                let message = told_of_end(after, id, Some(route), content)->Some_0;
                &&& message.content == content
                &&& message.session_key == route.session_key
                &&& message.target_agent_id == route.target_agent_id
                &&& message.channel_id == route.channel_id
                &&& message.trace_id == route.trace_id
                &&& message.invoke
                &&& message.user_id == "system"@
            }
        }),
{
    law_ended_processes_keep_their_code(runs, i, exit_code, now);
}

/// Only a running process is killed, by its number; what ended is left alone, and work that was
/// handed on cannot be killed.
pub proof fn law_only_running_processes_are_killed(run: RunView)
    ensures
        killing(run) == Ok::<KillStep, ErrorView>(KillStep::Done) <==> run.status
            != AsyncToolRunStatus::Running,
        run.status == AsyncToolRunStatus::Running && run.work is Process ==> killing(run) == Ok::<
            KillStep,
            ErrorView,
        >(KillStep::Kill(run.work->Process_0.pid)),
        killing(run) is Err <==> run.status == AsyncToolRunStatus::Running && run.work is Delegated,
{
}

/// A session sees a run exactly where the run's agent and session are its own.
pub proof fn law_runs_of_others_are_unknown(
    runs: Seq<RunView>,
    i: int,
    agent_id: Seq<char>,
    session_key: Seq<char>,
)
    requires
        distinct(runs),
        0 <= i < runs.len(),
    ensures
        seen_run(runs, runs[i].run_id, agent_id, session_key) == if runs[i].agent_id == agent_id
            && runs[i].session_key == session_key {
            Some(i)
        } else {
            None
        },
{
    law_runs_are_found_by_their_id(runs, runs[i].run_id, i);
}

/// Every run of a session is listed.
pub proof fn law_sessions_miss_no_run(
    runs: Seq<RunView>,
    agent_id: Seq<char>,
    session_key: Seq<char>,
    i: int,
) -> (k: int)
    requires
        0 <= i < runs.len(),
        runs[i].agent_id == agent_id,
        runs[i].session_key == session_key,
    ensures
        0 <= k < session_runs(runs, agent_id, session_key).len(),
        session_runs(runs, agent_id, session_key)[k] == (Newest(runs[i].started_at), i),
    decreases runs.len(),
{
    if i == runs.len() - 1 {
        session_runs(runs, agent_id, session_key).len() - 1
    } else {
        law_sessions_miss_no_run(runs.drop_last(), agent_id, session_key, i)
    }
}

/// A process that ended is noted as such, with the time and exactly the code that it ended with; all
/// else that is known of it stays, and so do all other runs.
pub proof fn law_ends_are_noted(
    manager: &mut AsyncToolRunManager,
    run_id: &str,
    exit_code: Option<i32>,
    now: Timestamp,
    i: int,
)
    requires
        call_ensures(
            AsyncToolRunManager::mark_process_completed,
            (manager, run_id, exit_code, now),
            (),
        ),
        distinct(old(manager)@),
        0 <= i < old(manager).runs@.len(),
        old(manager).runs@[i].run_id@ == run_id@,
        old(manager).runs@[i].status == AsyncToolRunStatus::Running,
        old(manager).runs@[i].work is Process,
    ensures
        final(manager).runs@.len() == old(manager).runs@.len(),
        ({
            let before = old(manager).runs@[i];
            let after = final(manager).runs@[i];
            &&& after.status == AsyncToolRunStatus::Completed
            &&& after.finished_at == Some(now)
            &&& after.started_at == before.started_at
            &&& after.run_id@ == run_id@
            &&& after.tool_name@ == before.tool_name@
            &&& after.summary@ == before.summary@
            &&& after.agent_id@ == before.agent_id@
            &&& after.session_key@ == before.session_key@
            &&& after.claimed == before.claimed
            &&& after.work matches RunWork::Process(process) && process.exit_code == exit_code
                && process.command@ == before.work->Process_0.command@ && process.pid
                == before.work->Process_0.pid && process.stdout_path@
                == before.work->Process_0.stdout_path@ && process.stderr_path@
                == before.work->Process_0.stderr_path@
        }),
        forall|j: int|
            0 <= j < old(manager).runs@.len() && j != i ==> (#[trigger] final(manager).runs@[j])@
                == old(manager).runs@[j]@,
{
    let runs = old(manager)@;
    let after = final(manager)@;
    law_ended_processes_keep_their_code(runs, i, exit_code, now);
    assert(runs[i] == old(manager).runs@[i]@);
    assert(after[i] == final(manager).runs@[i]@);
    assert forall|j: int| 0 <= j < old(manager).runs@.len() && j != i implies (
    #[trigger] final(manager).runs@[j])@ == old(manager).runs@[j]@ by {
        assert(after[j] == runs[j]);
    }
}

/// A process that was killed is noted as such.
pub proof fn law_kills_are_noted(
    manager: &mut AsyncToolRunManager,
    run_id: &str,
    now: Timestamp,
    i: int,
)
    requires
        call_ensures(AsyncToolRunManager::mark_killed, (manager, run_id, now), ()),
        distinct(old(manager)@),
        0 <= i < old(manager).runs@.len(),
        old(manager).runs@[i].run_id@ == run_id@,
        old(manager).runs@[i].status == AsyncToolRunStatus::Running,
        old(manager).runs@[i].work is Process,
    ensures
        final(manager).runs@.len() == old(manager).runs@.len(),
        final(manager).runs@[i].status == AsyncToolRunStatus::Killed,
        final(manager).runs@[i].finished_at == Some(now),
        final(manager).runs@[i].work matches RunWork::Process(process) && process.exit_code == Some(
            -1i32,
        ),
        forall|j: int|
            0 <= j < old(manager).runs@.len() && j != i ==> (#[trigger] final(manager).runs@[j])@
                == old(manager).runs@[j]@,
{
    let runs = old(manager)@;
    let after = final(manager)@;
    law_killed_processes_are_noted(runs, i, now);
    assert(runs[i] == old(manager).runs@[i]@);
    assert(after[i] == final(manager).runs@[i]@);
    assert forall|j: int| 0 <= j < old(manager).runs@.len() && j != i implies (
    #[trigger] final(manager).runs@[j])@ == old(manager).runs@[j]@ by {
        assert(after[j] == runs[j]);
    }
}

/// Work that was handed on is noted with its reply, or with what went wrong.
pub proof fn law_replies_are_noted(
    manager: &mut AsyncToolRunManager,
    run_id: &str,
    result: &Result<String, FrameworkError>,
    now: Timestamp,
    i: int,
)
    requires
        call_ensures(
            AsyncToolRunManager::mark_delegated_completed,
            (manager, run_id, result, now),
            (),
        ),
        distinct(old(manager)@),
        0 <= i < old(manager).runs@.len(),
        old(manager).runs@[i].run_id@ == run_id@,
        old(manager).runs@[i].status == AsyncToolRunStatus::Running,
        old(manager).runs@[i].work is Delegated,
    ensures
        final(manager).runs@[i].status == AsyncToolRunStatus::Completed,
        final(manager).runs@[i].finished_at == Some(now),
        final(manager).runs@[i].work is Delegated,
        ({
            let known = final(manager).runs@[i].work->Delegated_0;
            &&& *result is Ok ==> known.reply is Some && known.reply->0@ == (*result)->Ok_0@
                && known.error is None
            &&& *result is Err ==> known.reply is None && known.error is Some && known.error->0@
                == (*result)->Err_0@.message()
        }),
{
    let runs = old(manager)@;
    let after = final(manager)@;
    law_handed_on_work_keeps_its_reply(runs, i, error::text_result(*result), now);
    assert(runs[i] == old(manager).runs@[i]@);
    assert(after[i] == final(manager).runs@[i]@);
}

/// A snapshot shows the run as it is, with what it wrote.
pub proof fn law_snapshots_are_of_their_run(
    entry: &AsyncToolRunEntry,
    stdout: String,
    stderr: String,
    snapshot: AsyncToolRunSnapshot,
)
    requires
        call_ensures(AsyncToolRunEntry::snapshot, (entry, stdout, stderr), snapshot),
    ensures
        snapshot.run_id@ == entry.run_id@,
        snapshot.tool_name@ == entry.tool_name@,
        snapshot.summary@ == entry.summary@,
        snapshot.status == entry.status,
        snapshot.started_at == entry.started_at,
        snapshot.finished_at == entry.finished_at,
        entry.work matches RunWork::Process(process) ==> match snapshot.details {
            AsyncToolRunDetails::Process(details) => details.exit_code == process.exit_code
                && details.pid == process.pid && details.command@ == process.command@
                && details.stdout@ == stdout@ && details.stderr@ == stderr@,
            _ => false,
        },
        entry.work matches RunWork::Delegated(delegated) ==> match snapshot.details {
            AsyncToolRunDetails::Delegated(details) => details.request@ == delegated.request@
                && text::opt_view(details.reply) == text::opt_view(delegated.reply)
                && text::opt_view(details.error) == text::opt_view(delegated.error),
            _ => false,
        },
{
    law_snapshots_show_the_run(snapshot, entry@, stdout@, stderr@);
}

/// A run that is forgotten is gone, and no other is; it is handed back as it was.
pub proof fn law_forgotten_runs_are_gone(
    manager: &mut AsyncToolRunManager,
    run_id: &str,
    r: Result<AsyncToolRunEntry, FrameworkError>,
    i: int,
)
    requires
        call_ensures(AsyncToolRunManager::forget, (manager, run_id), r),
        distinct(old(manager)@),
        0 <= i < old(manager).runs@.len(),
        old(manager).runs@[i].run_id@ == run_id@,
    ensures
        r is Ok,
        r->Ok_0@ == old(manager).runs@[i]@,
        final(manager)@ == old(manager)@.remove(i),
        place(final(manager)@, run_id@) is None,
{
    let runs = old(manager)@;
    assert(runs[i].run_id == run_id@);
    law_runs_are_found_by_their_id(runs, run_id@, i);
    law_runs_are_found_by_their_id(runs.remove(i), run_id@, 0);
    if place(runs.remove(i), run_id@) is Some {
        let at = place(runs.remove(i), run_id@)->0;
        let was = if at < i {
            at
        } else {
            at + 1
        };
        assert(runs.remove(i)[at] == runs[was]);
        assert(runs[was].run_id == run_id@);
        if was < i {
            assert(runs[was].run_id != runs[i].run_id);
        } else {
            assert(runs[i].run_id != runs[was].run_id);
        }
    }
}

/// A run in the background has an id of its own: the time and a number that goes up.
pub proof fn law_runs_are_numbered(manager: &mut AsyncToolRunManager, now_millis: i64, r: String)
    requires
        call_ensures(AsyncToolRunManager::next_run_id, (manager, now_millis), r),
        old(manager).counter < u64::MAX,
    ensures
        final(manager).counter == old(manager).counter + 1,
        final(manager)@ == old(manager)@,
        r@ == "async-tool-run-"@ + text::decimal_int(now_millis as int) + "-"@ + text::decimal(
            old(manager).counter as nat,
        ),
{
}

/// The files of runs that are dropped are those that hold what they wrote.
pub proof fn law_files_are_dropped_with_their_run(runs: Seq<RunView>, run: RunView)
    ensures
        ended_count(runs) <= 64 ==> dropped_files(runs).len() == 0,
        run.work matches WorkView::Process(process) ==> files_of(run) == seq![
            process.stdout_path,
            process.stderr_path,
        ],
        run.work is Delegated ==> files_of(run).len() == 0,
        ended_count(runs) > 64 ==> (oldest_ended(runs) matches Some(i) ==> 0 <= i < runs.len()
            ==> dropped_files(runs) == files_of(runs[i]) + dropped_files(runs.remove(i))),
{
}

/// Waited for are the runs that still go on, and one that is not known is an error.
pub proof fn law_runs_that_go_on_are_waited_for(
    runs: Seq<RunView>,
    run_ids: Seq<Seq<char>>,
    next: Seq<char>,
    agent_id: Seq<char>,
    session_key: Seq<char>,
)
    ensures
        going_on(runs, Seq::empty(), agent_id, session_key) == Ok::<Seq<Seq<char>>, ErrorView>(
            Seq::empty(),
        ),
        going_on(runs, run_ids, agent_id, session_key) matches Ok(before) ==> match seen_run(
            runs,
            next,
            agent_id,
            session_key,
        ) {
            Some(i) => going_on(runs, run_ids.push(next), agent_id, session_key) == Ok::<
                Seq<Seq<char>>,
                ErrorView,
            >(
                if runs[i].status == AsyncToolRunStatus::Running {
                    before.push(next)
                } else {
                    before
                },
            ),
            None => going_on(runs, run_ids.push(next), agent_id, session_key) is Err,
        },
        going_on(runs, run_ids, agent_id, session_key) is Err ==> going_on(
            runs,
            run_ids.push(next),
            agent_id,
            session_key,
        ) is Err,
{
    assert(run_ids.push(next).drop_last() =~= run_ids);
}

/// What is told of work that was handed on names it and what came of it.
pub proof fn law_ends_of_handed_on_work_are_told(
    run_id: Seq<char>,
    reply: Seq<char>,
    error: ErrorView,
    tool_name: Seq<char>,
    summary: Seq<char>,
)
    ensures
        delegated_content(run_id, Ok(reply), (tool_name, summary))
            == "[async tool run completed] run_id="@ + run_id + " tool="@ + tool_name
            + " kind=delegated status=ok summary="@ + summary,
        delegated_content(run_id, Err(error), (tool_name, summary))
            == "[async tool run completed] run_id="@ + run_id + " tool="@ + tool_name
            + " kind=delegated status=error error="@ + error.message() + " summary="@ + summary,
{
}

/// Of a file that is too long the end is shown.
pub proof fn law_the_end_of_a_file_is_shown(len: u64, max_bytes: u64, r: u64)
    requires
        call_ensures(tail_start, (len, max_bytes), r),
    ensures
        len <= max_bytes ==> r == 0,
        len > max_bytes ==> len - r == max_bytes,
{
}

/// A run that is waited for is claimed, and nothing else of it changes; it is told whether it has
/// ended. A run of somebody else is not claimed.
pub proof fn law_waited_runs_are_claimed(
    runs: Seq<RunView>,
    i: int,
    agent_id: Seq<char>,
    session_key: Seq<char>,
)
    requires
        distinct(runs),
        0 <= i < runs.len(),
    ensures
        ({
            let (after, said) = claimed_runs(runs, seq![runs[i].run_id], agent_id, session_key);
            &&& runs[i].agent_id == agent_id && runs[i].session_key == session_key ==> {
                &&& said == Ok::<Seq<bool>, ErrorView>(
                    seq![runs[i].status != AsyncToolRunStatus::Running],
                )
                &&& after.len() == runs.len()
                &&& after[i].claimed
                &&& after[i] == (RunView { claimed: true, ..runs[i] })
                &&& forall|j: int| 0 <= j < runs.len() && j != i ==> #[trigger] after[j] == runs[j]
            }
            &&& runs[i].agent_id != agent_id || runs[i].session_key != session_key ==> said is Err
                && after == runs
        }),
{
    law_runs_of_others_are_unknown(runs, i, agent_id, session_key);
    let ids = seq![runs[i].run_id];
    assert(ids.drop_last() =~= Seq::<Seq<char>>::empty());
    assert(claimed_runs(runs, ids.drop_last(), agent_id, session_key) == (
        runs,
        Ok::<Seq<bool>, ErrorView>(Seq::empty()),
    ));
    assert(Seq::<bool>::empty().push(!runs[i].running()) =~= seq![
        runs[i].status != AsyncToolRunStatus::Running,
    ]);
}

/// A run that is no longer waited for, and goes on, is not claimed any more, and nothing else
/// changes.
pub proof fn law_claims_are_given_up(runs: Seq<RunView>, i: int)
    requires
        distinct(runs),
        0 <= i < runs.len(),
    ensures
        ({
            let after = unclaimed_runs(runs, seq![runs[i].run_id]);
            &&& runs[i].status == AsyncToolRunStatus::Running ==> after == runs.update(
                i,
                RunView { claimed: false, ..runs[i] },
            )
            &&& runs[i].status != AsyncToolRunStatus::Running ==> after == runs
        }),
{
    law_runs_are_found_by_their_id(runs, runs[i].run_id, i);
    let ids = seq![runs[i].run_id];
    assert(ids.drop_last() =~= Seq::<Seq<char>>::empty());
    assert(unclaimed_runs(runs, ids.drop_last()) == runs);
}

/// Claims are made, and given up, one run after another.
pub proof fn law_claims_are_made_in_turn(
    runs: Seq<RunView>,
    run_ids: Seq<Seq<char>>,
    next: Seq<char>,
    agent_id: Seq<char>,
    session_key: Seq<char>,
)
    ensures
        unclaimed_runs(runs, run_ids.push(next)) == unclaimed_runs(
            unclaimed_runs(runs, run_ids),
            seq![next],
        ),
        claimed_runs(runs, run_ids, agent_id, session_key).1 is Err ==> claimed_runs(
            runs,
            run_ids.push(next),
            agent_id,
            session_key,
        ) == claimed_runs(runs, run_ids, agent_id, session_key),
        claimed_runs(runs, run_ids, agent_id, session_key).1 is Ok ==> claimed_runs(
            runs,
            run_ids.push(next),
            agent_id,
            session_key,
        ).0 == claimed_runs(
            claimed_runs(runs, run_ids, agent_id, session_key).0,
            seq![next],
            agent_id,
            session_key,
        ).0,
{
    assert(run_ids.push(next).drop_last() =~= run_ids);
    assert(seq![next].drop_last() =~= Seq::<Seq<char>>::empty());
    let middle = unclaimed_runs(runs, run_ids);
    assert(unclaimed_runs(middle, Seq::empty()) == middle);
    let (between, said) = claimed_runs(runs, run_ids, agent_id, session_key);
    assert(claimed_runs(between, Seq::empty(), agent_id, session_key) == (
        between,
        Ok::<Seq<bool>, ErrorView>(Seq::empty()),
    ));
}

} // verus!
