//! Starting and stopping the service.
use vstd::prelude::*;
use crate::text;

verus! {

/// What a file with a process number says.
#[derive(Debug, Clone, Copy, PartialEq, Eq, Structural)]
pub enum PidFile {
    Missing,
    Pid(u32),
    /// The file does not hold a number.
    Malformed,
}

/// What a file with a process number says, given its content where there is one.
pub open spec fn pid_of(content: Option<Seq<char>>) -> PidFile {
    match content {
        None => PidFile::Missing,
        Some(content) => match text::parse_number(text::trim(content), u32::MAX as int) {
            Some(pid) => PidFile::Pid(pid as u32),
            None => PidFile::Malformed,
        },
    }
}

/// What a file with a process number says, given its content where there is one.
pub fn read_pid(content: &Option<String>) -> (r: PidFile)
    ensures
        r == pid_of(text::opt_view(*content)),
{
    match content {
        None => PidFile::Missing,
        Some(content) => {
            let raw = text::trimmed(content.as_str());
            match text::number_in(raw.as_str(), u32::MAX as u64) {
                Some(pid) => PidFile::Pid(pid as u32),
                None => PidFile::Malformed,
            }
        },
    }
}

/// What a process number is written down as.
pub fn pid_line(pid: u32) -> (r: String)
    ensures
        r@ == text::decimal(pid as nat) + "\n"@,
{
    text::concat2(text::decimal_of(pid as u64).as_str(), "\n")
}

/// What is done to start the service.
#[derive(Debug, PartialEq, Eq)]
pub enum StartStep {
    /// The service runs; this is what is said.
    AlreadyRunning(String),
    /// A process is launched, after an old file with a process number is removed where there is
    /// one.
    Launch { remove_stale: bool },
}

/// What is done to start the service.
pub fn start_step(pid: Option<u32>, running: bool) -> (r: StartStep)
    ensures
        match r {
            StartStep::AlreadyRunning(said) => pid is Some && running && said@
                == "service already running (pid "@ + text::decimal(pid->0 as nat) + ")"@,
            StartStep::Launch { remove_stale } => remove_stale == pid is Some && !(pid is Some
                && running),
        },
{
    match pid {
        Some(pid) => {
            if running {
                StartStep::AlreadyRunning(
                    text::concat3(
                        "service already running (pid ",
                        text::decimal_of(pid as u64).as_str(),
                        ")",
                    ),
                )
            } else {
                StartStep::Launch { remove_stale: true }
            }
        },
        None => StartStep::Launch { remove_stale: false },
    }
}

/// What is said when the service was started.
pub open spec fn started(
    pid: u32,
    pid_path: Seq<char>,
    log_path: Seq<char>,
    json_log_path: Seq<char>,
) -> Seq<Seq<char>> {
    seq![
        "service started (pid "@ + text::decimal(pid as nat) + ")"@,
        "pid file: "@ + pid_path,
        "log file: "@ + log_path,
        "json log file: "@ + json_log_path,
    ]
}

/// What is said when the service was started.
pub fn started_lines(pid: u32, pid_path: &str, log_path: &str, json_log_path: &str) -> (r: Vec<
    String,
>)
    ensures
        text::views(r@) == started(pid, pid_path@, log_path@, json_log_path@),
{
    let lines = vec![
        text::concat3("service started (pid ", text::decimal_of(pid as u64).as_str(), ")"),
        text::concat2("pid file: ", pid_path),
        text::concat2("log file: ", log_path),
        text::concat2("json log file: ", json_log_path),
    ];
    assert(text::views(lines@) =~= started(pid, pid_path@, log_path@, json_log_path@));
    lines
}

/// How far stopping the service has come.
#[derive(Debug, Clone, Copy, PartialEq, Eq, Structural)]
pub enum StopState {
    /// Nothing was done.
    Asked,
    /// The process was told to end.
    Terminated,
    /// The process was killed.
    Killed,
}

/// What is done next to stop the service.
#[derive(Debug, Clone, Copy, PartialEq, Eq)]
pub enum StopAction {
    /// The process is told to end, and waited for so many milliseconds.
    Terminate { pid: u32, wait_ms: u64 },
    /// The process is killed, and waited for so many milliseconds.
    Kill { pid: u32, wait_ms: u64 },
    /// The service is stopped; the file with the process number is removed or not, and this is said.
    Done { remove_pid_file: bool, said: &'static str },
    /// The service cannot be stopped; this is said.
    Fail { said: &'static str },
}

/// What is done next to stop the service, as it reads.
#[verifier::ext_equal]
pub enum StopView {
    Terminate { pid: u32, wait_ms: u64 },
    Kill { pid: u32, wait_ms: u64 },
    Done { remove_pid_file: bool, said: Seq<char> },
    Fail { said: Seq<char> },
}

impl View for StopAction {
    type V = StopView;

    open spec fn view(&self) -> StopView {
        match self {
            StopAction::Terminate { pid, wait_ms } => StopView::Terminate {
                pid: *pid,
                wait_ms: *wait_ms,
            },
            StopAction::Kill { pid, wait_ms } => StopView::Kill { pid: *pid, wait_ms: *wait_ms },
            StopAction::Done { remove_pid_file, said } => StopView::Done {
                remove_pid_file: *remove_pid_file,
                said: said@,
            },
            StopAction::Fail { said } => StopView::Fail { said: said@ },
        }
    }
}

/// What is done next to stop the service, given whether the process is gone.
pub open spec fn stop_next(state: StopState, pid: Option<u32>, gone: bool) -> StopView {
    match pid {
        None => StopView::Done { remove_pid_file: false, said: "service is not running"@ },
        Some(pid) => match state {
            StopState::Asked => if gone {
                StopView::Done {
                    remove_pid_file: true,
                    said: "service is not running (removed stale pid file)"@,
                }
            } else {
                StopView::Terminate { pid, wait_ms: 5000 }
            },
            StopState::Terminated => if gone {
                StopView::Done { remove_pid_file: true, said: "service stopped"@ }
            } else {
                StopView::Kill { pid, wait_ms: 2000 }
            },
            StopState::Killed => if gone {
                StopView::Done { remove_pid_file: true, said: "service stopped (forced)"@ }
            } else {
                StopView::Fail { said: "service did not stop after termination attempts"@ }
            },
        },
    }
}

/// What is done next to stop the service, given whether the process is gone.
pub fn stop_step(state: StopState, pid: Option<u32>, gone: bool) -> (r: StopAction)
    ensures
        r@ == stop_next(state, pid, gone),
{
    let pid = match pid {
        Some(pid) => pid,
        None => {
            return StopAction::Done { remove_pid_file: false, said: "service is not running" };
        },
    };
    match state {
        StopState::Asked => {
            if gone {
                StopAction::Done {
                    remove_pid_file: true,
                    said: "service is not running (removed stale pid file)",
                }
            } else {
                StopAction::Terminate { pid, wait_ms: 5000 }
            }
        },
        StopState::Terminated => {
            if gone {
                StopAction::Done { remove_pid_file: true, said: "service stopped" }
            } else {
                StopAction::Kill { pid, wait_ms: 2000 }
            }
        },
        StopState::Killed => {
            if gone {
                StopAction::Done { remove_pid_file: true, said: "service stopped (forced)" }
            } else {
                StopAction::Fail { said: "service did not stop after termination attempts" }
            }
        },
    }
}

/// The file with the process number is removed only when the process is gone, and a process is
/// killed only after it was told to end.
pub proof fn law_stopping_is_gentle(state: StopState, pid: Option<u32>, gone: bool)
    ensures
        stop_next(state, pid, gone) matches StopView::Done { remove_pid_file, .. } ==> (
        remove_pid_file ==> gone),
        stop_next(state, pid, gone) is Kill ==> state == StopState::Terminated && !gone,
{
}

/// How many milliseconds lie between two looks at a process.
pub const EXIT_POLL_MS: u64 = 100;

/// How often a process is looked at before a last time.
pub fn exit_polls(wait_ms: u64) -> (r: u64)
    ensures
        r == wait_ms / 100,
{
    wait_ms / EXIT_POLL_MS
}

/// What is said of the service.
pub open spec fn status(
    pid: Option<u32>,
    running: bool,
    paths: (Seq<char>, Seq<char>, Seq<char>, Seq<char>),
    log_size: Option<u64>,
) -> Seq<Seq<char>> {
    let first = match pid {
        Some(pid) => seq![
            if running {
                "status: running"@
            } else {
                "status: stopped (stale pid file)"@
            },
            "pid: "@ + text::decimal(pid as nat),
        ],
        None => seq!["status: stopped"@],
    };
    let second = first + seq![
        "state dir: "@ + paths.0,
        "pid file: "@ + paths.1,
        "log file: "@ + paths.2,
        "json log file: "@ + paths.3,
    ];
    match log_size {
        Some(size) => second.push("log size: "@ + text::decimal(size as nat) + " bytes"@),
        None => second,
    }
}

/// What is said of the service, given the directory of its state and its files.
pub fn status_lines(
    pid: Option<u32>,
    running: bool,
    state_dir: &str,
    pid_path: &str,
    log_path: &str,
    json_log_path: &str,
    log_size: Option<u64>,
) -> (r: Vec<String>)
    ensures
        text::views(r@) == status(
            pid,
            running,
            (state_dir@, pid_path@, log_path@, json_log_path@),
            log_size,
        ),
{
    let mut lines: Vec<String> = Vec::new();
    match pid {
        Some(pid) => {
            lines.push(
                (if running {
                    "status: running"
                } else {
                    "status: stopped (stale pid file)"
                }).to_owned(),
            );
            lines.push(text::concat2("pid: ", text::decimal_of(pid as u64).as_str()));
        },
        None => {
            lines.push("status: stopped".to_owned());
        },
    }
    lines.push(text::concat2("state dir: ", state_dir));
    lines.push(text::concat2("pid file: ", pid_path));
    lines.push(text::concat2("log file: ", log_path));
    lines.push(text::concat2("json log file: ", json_log_path));
    if let Some(size) = log_size {
        lines.push(text::concat3("log size: ", text::decimal_of(size).as_str(), " bytes"));
    }
    assert(text::views(lines@) =~= status(
        pid,
        running,
        (state_dir@, pid_path@, log_path@, json_log_path@),
        log_size,
    ));
    lines
}

/// Where reading a growing file goes on, where there is something to read: at the start, once it
/// has become shorter.
pub fn follow_from(cursor: u64, file_len: u64) -> (r: (u64, bool))
    ensures
        r == if file_len < cursor {
            (0u64, file_len > 0)
        } else {
            (cursor, file_len > cursor)
        },
{
    let from: u64 = if file_len < cursor {
        0
    } else {
        cursor
    };
    (from, file_len > from)
}

/// Which memories are shown.
#[derive(Debug, Clone, Copy, PartialEq, Eq, Structural)]
pub enum MemoryMode {
    Short,
    Long,
    Both,
}

impl MemoryMode {
    /// The mode's name.
    pub fn memory_mode_name(self) -> (r: &'static str)
        ensures
            r@ == match self {
                MemoryMode::Short => "short"@,
                MemoryMode::Long => "long"@,
                MemoryMode::Both => "both"@,
            },
    {
        match self {
            MemoryMode::Short => "short",
            MemoryMode::Long => "long",
            MemoryMode::Both => "both",
        }
    }

    /// Whether the short-term memory is shown.
    pub fn shows_short(self) -> (r: bool)
        ensures
            r == (self != MemoryMode::Long),
    {
        self != MemoryMode::Long
    }

    /// Whether the long-term memory is shown.
    pub fn shows_long(self) -> (r: bool)
        ensures
            r == (self != MemoryMode::Short),
    {
        self != MemoryMode::Short
    }
}

/// Where the first agent with a name stands.
pub open spec fn agent_place(ids: Seq<Seq<char>>, agent_id: Seq<char>, from: int) -> Option<int>
    decreases ids.len() - from,
{
    if from < 0 || from >= ids.len() {
        None
    } else if ids[from] == agent_id {
        Some(from)
    } else {
        agent_place(ids, agent_id, from + 1)
    }
}

/// Where the first agent with a name stands; or what is said where there is none.
pub fn resolve_agent(ids: &Vec<String>, agent_id: &str) -> (r: Result<usize, String>)
    ensures
        match agent_place(text::views(ids@), agent_id@, 0) {
            Some(i) => r is Ok && r->Ok_0 == i,
            None => r is Err && r->Err_0@ == "unknown agent id '"@ + agent_id@
                + "'. configured agents: "@ + text::join(text::views(ids@), ", "@),
        },
{
    let ghost all = text::views(ids@);
    let mut i: usize = 0;
    while i < ids.len()
        invariant
            i <= ids@.len(),
            all == text::views(ids@),
            agent_place(all, agent_id@, i as int) == agent_place(all, agent_id@, 0),
        decreases ids@.len() - i,
    {
        assert(all[i as int] == ids@[i as int]@);
        if text::same_text(ids[i].as_str(), agent_id) {
            return Ok(i);
        }
        i = i + 1;
    }
    let head = text::concat3("unknown agent id '", agent_id, "'. configured agents: ");
    Err(text::concat2(head.as_str(), text::joined(ids, ", ").as_str()))
}

/// The number of a process that is written to its file is read back.
pub proof fn law_process_numbers_are_read_back(pid: u32, line: String)
    requires
        call_ensures(pid_line, (pid,), line),
    ensures
        pid_of(Some(line@)) == PidFile::Pid(pid),
        pid_of(None) == PidFile::Missing,
{
    let number = text::decimal(pid as nat);
    text::lemma_decimal_digits(pid as nat);
    text::lemma_decimal_read_back(pid as nat);
    reveal_strlit("\n");
    assert(line@ =~= number.push('\n'));
    assert(line@.drop_last() =~= number);
    reveal_with_fuel(text::trim_start_of, 2);
    reveal_with_fuel(text::trim_end_of, 3);
    assert(!text::is_white(number[0]));
    assert(!text::is_white(number.last()));
    assert(text::trim(line@) == number);
    assert(number[0] != '+');
}

/// The service is started unless it runs already; what is left of one that ended is removed.
pub proof fn law_services_are_started_once(pid: Option<u32>, running: bool, r: StartStep)
    requires
        call_ensures(start_step, (pid, running), r),
    ensures
        r is AlreadyRunning <==> pid is Some && running,
        r is Launch ==> r->remove_stale == pid is Some,
{
}

/// The service is stopped in steps: it is asked to end, then forced to, and each step names the
/// process that was found.
pub proof fn law_services_are_stopped_in_steps(pid: u32)
    ensures
        stop_next(StopState::Asked, Some(pid), false) == (StopView::Terminate { pid, wait_ms: 5000 }),
        stop_next(StopState::Terminated, Some(pid), false) == (StopView::Kill { pid, wait_ms: 2000 }),
        stop_next(StopState::Killed, Some(pid), false) is Fail,
        stop_next(StopState::Asked, None, false) == (StopView::Done {
            remove_pid_file: false,
            said: "service is not running"@,
        }),
        forall|state: StopState|
            #![trigger stop_next(state, Some(pid), true)]
            stop_next(state, Some(pid), true) matches StopView::Done { remove_pid_file, .. }
                && remove_pid_file,
{
}

/// The status names the process and whether it runs, and where everything lies.
pub proof fn law_the_status_tells_all(
    pid: u32,
    running: bool,
    paths: (Seq<char>, Seq<char>, Seq<char>, Seq<char>),
    size: u64,
)
    ensures
        ({
            let lines = status(Some(pid), running, paths, Some(size));
            &&& lines.len() == 7
            &&& lines[0] == if running {
                "status: running"@
            } else {
                "status: stopped (stale pid file)"@
            }
            &&& lines[1] == "pid: "@ + text::decimal(pid as nat)
            &&& lines[2] == "state dir: "@ + paths.0
            &&& lines[3] == "pid file: "@ + paths.1
            &&& lines[4] == "log file: "@ + paths.2
            &&& lines[5] == "json log file: "@ + paths.3
            &&& lines[6] == "log size: "@ + text::decimal(size as nat) + " bytes"@
        }),
        status(None, running, paths, None).len() == 5,
        status(None, running, paths, None)[0] == "status: stopped"@,
{
}

/// A log is followed from where it was read to, and from its start where it became shorter.
pub proof fn law_logs_are_followed_on(cursor: u64, file_len: u64, from: u64, more: bool)
    requires
        call_ensures(follow_from, (cursor, file_len), (from, more)),
    ensures
        file_len >= cursor ==> from == cursor,
        file_len < cursor ==> from == 0,
        more <==> from < file_len,
{
}

/// An agent is found by its id, and only by it.
pub proof fn law_agents_are_found_by_their_id(ids: Seq<Seq<char>>, agent_id: Seq<char>, from: int)
    requires
        0 <= from <= ids.len(),
    ensures
        match agent_place(ids, agent_id, from) {
            Some(i) => from <= i < ids.len() && ids[i] == agent_id,
            None => forall|i: int| from <= i < ids.len() ==> #[trigger] ids[i] != agent_id,
        },
    decreases ids.len() - from,
{
    if from < ids.len() && ids[from] != agent_id {
        law_agents_are_found_by_their_id(ids, agent_id, from + 1);
    }
}

/// Of the memories each is shown that is asked for.
pub proof fn law_asked_memories_are_shown(mode: MemoryMode, short: bool, long: bool)
    requires
        call_ensures(MemoryMode::shows_short, (mode,), short),
        call_ensures(MemoryMode::shows_long, (mode,), long),
    ensures
        short <==> mode == MemoryMode::Short || mode == MemoryMode::Both,
        long <==> mode == MemoryMode::Long || mode == MemoryMode::Both,
{
}

/// A process that is waited for is looked at ten times a second.
pub proof fn law_exits_are_looked_for(wait_ms: u64, r: u64)
    requires
        call_ensures(exit_polls, (wait_ms,), r),
    ensures
        r * 100 <= wait_ms < r * 100 + 100,
{
}

/// A service that was started tells its process and where its files lie, each under its name.
pub proof fn law_started_services_tell_their_files(
    pid: u32,
    pid_path: &str,
    log_path: &str,
    json_log_path: &str,
    r: Vec<String>,
)
    requires
        call_ensures(started_lines, (pid, pid_path, log_path, json_log_path), r),
    ensures
        r@.len() == 4,
        r@[0]@ == "service started (pid "@ + text::decimal(pid as nat) + ")"@,
        r@[1]@ == "pid file: "@ + pid_path@,
        r@[2]@ == "log file: "@ + log_path@,
        r@[3]@ == "json log file: "@ + json_log_path@,
{
    let told = text::views(r@);
    assert(told.len() == r@.len());
    assert(told[0] == r@[0]@ && told[1] == r@[1]@ && told[2] == r@[2]@ && told[3] == r@[3]@);
}

} // verus!
