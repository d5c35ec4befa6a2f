//! What a sandbox lets its guests reach, and what is made of how they end.
use vstd::prelude::*;
use crate::error::{ErrorView, FrameworkError};
use crate::error;
use crate::paths;
use crate::text;

verus! {

/// A directory of the host that a guest sees.
#[derive(Debug, PartialEq, Eq)]
pub struct WasmPreopenedDir {
    pub host_path: String,
    pub guest_path: String,
}

/// What a tool may reach.
#[derive(Debug, PartialEq, Eq)]
pub struct SandboxPolicy {
    pub network_enabled: bool,
    pub extra_writable_paths: Vec<String>,
}

impl Default for SandboxPolicy {
    fn default() -> (r: Self)
        ensures
            !r.network_enabled,
            r.extra_writable_paths@ == Seq::<String>::empty(),
    {
        SandboxPolicy { network_enabled: false, extra_writable_paths: Vec::new() }
    }
}

/// The settings of the runtime that runs commands of the host.
#[derive(Debug, PartialEq, Eq)]
pub struct SandboxRuntimeConfig {
    pub allowed_domains: Vec<String>,
    pub allow_read: Vec<String>,
    pub deny_read: Vec<String>,
    pub allow_write: Vec<String>,
    pub deny_write: Vec<String>,
    pub allow_git_config: Option<bool>,
    pub allow_pty: Option<bool>,
}

/// What may be written to: the workspace, the temporary directory and what the policy adds.
pub open spec fn writable_paths(workspace_root: Seq<char>, extra: Seq<Seq<char>>) -> Seq<Seq<char>> {
    seq![workspace_root, "/tmp"@] + extra
}

/// What may be written to.
pub fn build_write_allow_paths(workspace_root: &str, policy: &SandboxPolicy) -> (r: Vec<String>)
    ensures
        text::views(r@) == writable_paths(
            workspace_root@,
            text::views(policy.extra_writable_paths@),
        ),
{
    let mut allow: Vec<String> = Vec::new();
    allow.push(workspace_root.to_owned());
    allow.push("/tmp".to_owned());
    let ghost extra = text::views(policy.extra_writable_paths@);
    let mut i: usize = 0;
    assert(text::views(allow@) =~= seq![workspace_root@, "/tmp"@] + extra.take(0));
    while i < policy.extra_writable_paths.len()
        invariant
            i <= policy.extra_writable_paths@.len(),
            extra == text::views(policy.extra_writable_paths@),
            text::views(allow@) == seq![workspace_root@, "/tmp"@] + extra.take(i as int),
        decreases policy.extra_writable_paths@.len() - i,
    {
        let ghost before = text::views(allow@);
        allow.push(policy.extra_writable_paths[i].clone());
        i = i + 1;
        assert(text::views(allow@) =~= before.push(extra[i - 1]));
        assert(seq![workspace_root@, "/tmp"@] + extra.take(i as int) =~= before.push(extra[i - 1]));
    }
    assert(extra.take(i as int) =~= extra);
    allow
}

/// The settings of the runtime for a policy.  Without the network, the only domain is one that
/// does not exist.
pub fn build_runtime_config(workspace_root: &str, policy: &SandboxPolicy) -> (r:
    SandboxRuntimeConfig)
    ensures
        text::views(r.allowed_domains@) == if policy.network_enabled {
            Seq::<Seq<char>>::empty()
        } else {
            seq!["sandbox.invalid"@]
        },
        text::views(r.allow_write@) == writable_paths(
            workspace_root@,
            text::views(policy.extra_writable_paths@),
        ),
        r.allow_read@.len() == 0 && r.deny_read@.len() == 0 && r.deny_write@.len() == 0,
        r.allow_git_config == Some(false) && r.allow_pty == Some(false),
{
    let mut allowed_domains: Vec<String> = Vec::new();
    if !policy.network_enabled {
        allowed_domains.push("sandbox.invalid".to_owned());
        assert(text::views(allowed_domains@) =~= seq!["sandbox.invalid"@]);
    } else {
        assert(text::views(allowed_domains@) =~= Seq::<Seq<char>>::empty());
    }
    SandboxRuntimeConfig {
        allowed_domains,
        allow_read: Vec::new(),
        deny_read: Vec::new(),
        allow_write: build_write_allow_paths(workspace_root, policy),
        deny_write: Vec::new(),
        allow_git_config: Some(false),
        allow_pty: Some(false),
    }
}

/// How a command of the host ended.
#[derive(Debug, PartialEq, Eq)]
pub enum HostOutcome {
    Completed { stdout: String, stderr: String, code: Option<i32> },
    Violated { stdout: String, stderr: String, code: Option<i32> },
    Failed(String),
    TimedOut,
}

/// What a command of the host printed and returned.
#[derive(Debug, PartialEq, Eq)]
pub struct HostRunResult {
    pub stdout: String,
    pub stderr: String,
    pub exit_code: i32,
    /// Whether the command tried what the sandbox forbids.
    pub sandbox_violated: bool,
}

/// What a command of the host printed and returned, as it reads.
#[verifier::ext_equal]
pub struct HostRunView {
    pub stdout: Seq<char>,
    pub stderr: Seq<char>,
    pub exit_code: i32,
    pub sandbox_violated: bool,
}

impl View for HostRunResult {
    type V = HostRunView;

    open spec fn view(&self) -> HostRunView {
        HostRunView {
            stdout: self.stdout@,
            stderr: self.stderr@,
            exit_code: self.exit_code,
            sandbox_violated: self.sandbox_violated,
        }
    }
}

/// The code of a process, -1 where it has none.
pub open spec fn code_or_unknown(code: Option<i32>) -> i32 {
    match code {
        Some(code) => code,
        None => (-1) as i32,
    }
}

/// What is made of how a command ended.
pub open spec fn host_run(outcome: HostOutcome, timeout_seconds: u64) -> Result<
    HostRunView,
    ErrorView,
> {
    match outcome {
        HostOutcome::Completed { stdout, stderr, code } => Ok(
            HostRunView {
                stdout: text::trim(stdout@),
                stderr: text::trim(stderr@),
                exit_code: code_or_unknown(code),
                sandbox_violated: false,
            },
        ),
        HostOutcome::Violated { stdout, stderr, code } => Ok(
            HostRunView {
                stdout: text::trim(stdout@),
                stderr: text::trim(stderr@),
                exit_code: code_or_unknown(code),
                sandbox_violated: true,
            },
        ),
        HostOutcome::Failed(message) => Err(
            ErrorView::Tool("exec failed in sandbox runtime: "@ + message@),
        ),
        HostOutcome::TimedOut => Err(
            ErrorView::Tool(
                "exec timed out after "@ + text::decimal(timeout_seconds as nat)
                    + "s in sandbox runtime"@,
            ),
        ),
    }
}

/// The code of a process, -1 where it has none.
pub fn exit_code_of(code: Option<i32>) -> (r: i32)
    ensures
        r == code_or_unknown(code),
{
    match code {
        Some(code) => code,
        None => -1,
    }
}

/// What is made of how a command ended.
pub fn host_run_result(outcome: HostOutcome, timeout_seconds: u64) -> (r: Result<
    HostRunResult,
    FrameworkError,
>)
    ensures
        match r {
            Ok(run) => Ok::<HostRunView, ErrorView>(run@),
            Err(error) => Err(error@),
        } == host_run(outcome, timeout_seconds),
{
    match outcome {
        HostOutcome::Completed { stdout, stderr, code } => Ok(
            HostRunResult {
                stdout: text::trimmed(stdout.as_str()),
                stderr: text::trimmed(stderr.as_str()),
                exit_code: exit_code_of(code),
                sandbox_violated: false,
            },
        ),
        HostOutcome::Violated { stdout, stderr, code } => Ok(
            HostRunResult {
                stdout: text::trimmed(stdout.as_str()),
                stderr: text::trimmed(stderr.as_str()),
                exit_code: exit_code_of(code),
                sandbox_violated: true,
            },
        ),
        HostOutcome::Failed(message) => Err(
            FrameworkError::Tool(
                text::concat2("exec failed in sandbox runtime: ", message.as_str()),
            ),
        ),
        HostOutcome::TimedOut => {
            let seconds = text::decimal_of(timeout_seconds);
            Err(
                FrameworkError::Tool(
                    text::concat3("exec timed out after ", seconds.as_str(), "s in sandbox runtime"),
                ),
            )
        },
    }
}

/// How the wait for a process in the sandbox ended.
#[derive(Debug, PartialEq, Eq)]
pub enum WaitEnd {
    /// The process ended; it has no code where a signal ended it.
    Exited { code: Option<i32> },
    /// The process ended and had done what the sandbox does not allow.
    Violated { code: Option<i32> },
    /// It is not known how the process ended.
    Failed(String),
}

/// The code that a process counts as having ended with: one that did what is not allowed counts
/// as having ended with a code other than 0.
pub open spec fn waited(end: WaitEnd) -> Option<i32> {
    match end {
        WaitEnd::Exited { code } => code,
        WaitEnd::Violated { code } => if code is None || code == Some(0i32) {
            Some((-1) as i32)
        } else {
            code
        },
        WaitEnd::Failed(_) => None,
    }
}

/// The code that a process counts as having ended with.
pub fn waited_code(end: WaitEnd) -> (r: Option<i32>)
    ensures
        r == waited(end),
        end is Violated ==> r is Some && r->0 != 0i32,
{
    match end {
        WaitEnd::Exited { code } => code,
        WaitEnd::Violated { code } => match code {
            Some(0) => Some(-1),
            Some(other) => Some(other),
            None => Some(-1),
        },
        WaitEnd::Failed(_) => None,
    }
}

/// Where a guest sees the workspace.
pub const WASM_WORKSPACE_MOUNT: &'static str = "/workspace";

/// Where a guest sees the persona.
pub const WASM_PERSONA_MOUNT: &'static str = "/persona";

/// Where a guest sees its own temporary directory.
pub const WASM_TMP_MOUNT: &'static str = "/tmp";

/// Where a guest sees the workspace.
pub fn workspace_guest_mount_path() -> (r: &'static str)
    ensures
        r@ == WASM_WORKSPACE_MOUNT@,
{
    WASM_WORKSPACE_MOUNT
}

/// Where a guest sees the persona.
pub fn persona_guest_mount_path() -> (r: &'static str)
    ensures
        r@ == WASM_PERSONA_MOUNT@,
{
    WASM_PERSONA_MOUNT
}

/// A directory from the root, given the current directory or why it is not known.
pub open spec fn workspace_root_of(
    workspace_root: Seq<char>,
    cwd: Result<Seq<char>, Seq<char>>,
) -> Result<Seq<char>, ErrorView> {
    if paths::is_absolute(workspace_root) {
        Ok(workspace_root)
    } else {
        match cwd {
            Ok(cwd) => Ok(paths::joined_path(cwd, workspace_root)),
            Err(message) => Err(ErrorView::Io(message)),
        }
    }
}

/// What the current directory is, or why it is not known.
pub open spec fn cwd_view(cwd: Result<String, String>) -> Result<Seq<char>, Seq<char>> {
    match cwd {
        Ok(cwd) => Ok(cwd@),
        Err(message) => Err(message@),
    }
}

/// A directory from the root, given the current directory or why it is not known.
pub fn normalize_workspace_root(workspace_root: &str, cwd: &Result<String, String>) -> (r: Result<
    String,
    FrameworkError,
>)
    ensures
        error::text_result(r) == workspace_root_of(workspace_root@, cwd_view(*cwd)),
{
    if paths::absolute(workspace_root) {
        return Ok(workspace_root.to_owned());
    }
    match cwd {
        Ok(cwd) => Ok(paths::join(cwd.as_str(), workspace_root)),
        Err(message) => Err(FrameworkError::Io(message.clone())),
    }
}

/// A file below directories below a directory.
pub open spec fn below(root: Seq<char>, names: Seq<Seq<char>>) -> Seq<char>
    decreases names.len(),
{
    if names.len() == 0 {
        root
    } else {
        paths::joined_path(below(root, names.drop_last()), names.last())
    }
}

/// Where a guest's program is looked for, one place after another.
pub open spec fn artifact_places(
    artifact_name: Seq<char>,
    assets_dir: Option<Seq<char>>,
    install_prefix: Option<Seq<char>>,
    build_root: Seq<char>,
) -> Seq<Seq<char>> {
    (match assets_dir {
        Some(root) => seq![paths::joined_path(root, artifact_name)],
        None => Seq::empty(),
    }) + (match install_prefix {
        Some(prefix) => seq![below(prefix, seq!["share"@, "simpleclaw"@, "wasm"@, artifact_name])],
        None => Seq::empty(),
    }) + seq![
        below(build_root, seq!["target"@, "wasm32-wasip1"@, "release"@, artifact_name]),
        below(build_root, seq!["target"@, "wasm32-wasip1"@, "debug"@, artifact_name]),
    ]
}

/// A file below three directories below a directory.
fn join4(root: &str, a: &str, b: &str, c: &str, name: &str) -> (r: String)
    ensures
        r@ == below(root@, seq![a@, b@, c@, name@]),
{
    let first = paths::join(root, a);
    let second = paths::join(first.as_str(), b);
    let third = paths::join(second.as_str(), c);
    proof {
        let all = seq![a@, b@, c@, name@];
        assert(all.drop_last() =~= seq![a@, b@, c@]);
        assert(seq![a@, b@, c@].drop_last() =~= seq![a@, b@]);
        assert(seq![a@, b@].drop_last() =~= seq![a@]);
        assert(seq![a@].drop_last() =~= Seq::<Seq<char>>::empty());
        reveal_with_fuel(below, 5);
    }
    paths::join(third.as_str(), name)
}

/// Where a guest's program is looked for, one place after another.
pub fn artifact_candidates(
    artifact_name: &str,
    assets_dir: Option<&str>,
    install_prefix: Option<&str>,
    build_root: &str,
) -> (r: Vec<String>)
    ensures
        text::views(r@) == artifact_places(
            artifact_name@,
            crate::json::opt_str(assets_dir),
            crate::json::opt_str(install_prefix),
            build_root@,
        ),
{
    let mut places: Vec<String> = Vec::new();
    let ghost mut listed = Seq::<Seq<char>>::empty();
    if let Some(root) = assets_dir {
        let place = paths::join(root, artifact_name);
        proof {
            listed = listed.push(place@);
        }
        places.push(place);
    }
    if let Some(prefix) = install_prefix {
        let place = join4(prefix, "share", "simpleclaw", "wasm", artifact_name);
        proof {
            listed = listed.push(place@);
        }
        places.push(place);
    }
    let release = join4(build_root, "target", "wasm32-wasip1", "release", artifact_name);
    let debug = join4(build_root, "target", "wasm32-wasip1", "debug", artifact_name);
    proof {
        listed = listed.push(release@).push(debug@);
    }
    places.push(release);
    places.push(debug);
    assert(text::views(places@) =~= listed);
    assert(listed =~= artifact_places(
        artifact_name@,
        crate::json::opt_str(assets_dir),
        crate::json::opt_str(install_prefix),
        build_root@,
    ));
    places
}

/// The first of the places that holds a file.
pub open spec fn first_file(places: Seq<Seq<char>>, is_file: Seq<bool>) -> Option<Seq<char>>
    decreases places.len(),
{
    if places.len() == 0 {
        None
    } else {
        match first_file(places.drop_last(), is_file.drop_last()) {
            Some(place) => Some(place),
            None => if is_file.last() {
                Some(places.last())
            } else {
                None
            },
        }
    }
}

/// The program of a guest, or where it was looked for in vain.
pub open spec fn found_artifact(
    artifact_name: Seq<char>,
    places: Seq<Seq<char>>,
    is_file: Seq<bool>,
) -> Result<Seq<char>, ErrorView> {
    match first_file(places, is_file) {
        Some(place) => Ok(place),
        None => Err(
            ErrorView::Tool(
                "missing wasm artifact: name="@ + artifact_name + " searched=["@ + text::join(
                    places,
                    ", "@,
                )
                    + "] (build with: cargo build --package read_tool --package edit_tool --target wasm32-wasip1 --release)"@,
            ),
        ),
    }
}

/// The program of a guest, given at which of the places a file stands.
pub fn resolve_guest_artifact_path(
    artifact_name: &str,
    candidates: &Vec<String>,
    is_file: &Vec<bool>,
) -> (r: Result<String, FrameworkError>)
    requires
        candidates@.len() == is_file@.len(),
    ensures
        error::text_result(r) == found_artifact(
            artifact_name@,
            text::views(candidates@),
            is_file@,
        ),
{
    let ghost places = text::views(candidates@);
    let mut i: usize = 0;
    while i < candidates.len()
        invariant
            i <= candidates@.len(),
            candidates@.len() == is_file@.len(),
            places == text::views(candidates@),
            first_file(places.take(i as int), is_file@.take(i as int)) is None,
        decreases candidates@.len() - i,
    {
        proof {
            assert(places.take(i + 1).drop_last() =~= places.take(i as int));
            assert(is_file@.take(i + 1).drop_last() =~= is_file@.take(i as int));
            assert(places.take(i + 1).last() == candidates@[i as int]@);
        }
        if is_file[i] {
            proof {
                lemma_first_file(places, is_file@, i + 1);
            }
            return Ok(candidates[i].clone());
        }
        i = i + 1;
    }
    assert(places.take(i as int) =~= places);
    assert(is_file@.take(i as int) =~= is_file@);
    let searched = text::joined(candidates, ", ");
    let head = text::concat3("missing wasm artifact: name=", artifact_name, " searched=[");
    Err(
        FrameworkError::Tool(
            text::concat3(
                head.as_str(),
                searched.as_str(),
                "] (build with: cargo build --package read_tool --package edit_tool --target wasm32-wasip1 --release)",
            ),
        ),
    )
}

/// A file among the first places is the first file of all.
proof fn lemma_first_file(places: Seq<Seq<char>>, is_file: Seq<bool>, n: int)
    requires
        0 <= n <= places.len(),
        places.len() == is_file.len(),
        first_file(places.take(n), is_file.take(n)) is Some,
    ensures
        first_file(places, is_file) == first_file(places.take(n), is_file.take(n)),
    decreases places.len() - n,
{
    if n < places.len() {
        assert(places.take(n + 1).drop_last() =~= places.take(n));
        assert(is_file.take(n + 1).drop_last() =~= is_file.take(n));
        lemma_first_file(places, is_file, n + 1);
    } else {
        assert(places.take(n) =~= places);
        assert(is_file.take(n) =~= is_file);
    }
}

/// The name of a guest's own temporary directory.
pub fn isolated_tmp_name(secs: u64, subsec_nanos: u64, counter: u64) -> (r: String)
    ensures
        r@ == "simpleclaw_wasm_"@ + text::decimal(secs as nat) + "_"@ + text::decimal(
            subsec_nanos as nat,
        ) + "_"@ + text::decimal(counter as nat),
{
    let first = text::concat3("simpleclaw_wasm_", text::decimal_of(secs).as_str(), "_");
    let second = text::concat3(first.as_str(), text::decimal_of(subsec_nanos).as_str(), "_");
    text::concat2(second.as_str(), text::decimal_of(counter).as_str())
}

/// The name under which a guest's program is started.
pub fn guest_program_name(file_name: Option<&str>) -> (r: String)
    ensures
        r@ == match file_name {
            Some(name) => name@,
            None => "guest"@,
        },
{
    match file_name {
        Some(name) => name.to_owned(),
        None => "guest".to_owned(),
    }
}

/// How the start function of a guest ended.
#[derive(Debug, PartialEq, Eq)]
pub enum GuestEnd {
    Returned,
    Exited(i32),
    Failed(String),
}

/// The exit code of a guest.
pub fn guest_exit_code(end: GuestEnd, module: &str) -> (r: Result<i32, FrameworkError>)
    ensures
        match r {
            Ok(code) => Ok::<i32, ErrorView>(code),
            Err(error) => Err(error@),
        } == match end {
            GuestEnd::Returned => Ok::<i32, ErrorView>(0),
            GuestEnd::Exited(code) => Ok(code),
            GuestEnd::Failed(message) => Err(
                ErrorView::Tool(
                    "wasm guest failed during _start: module="@ + module@ + " error="@ + message@,
                ),
            ),
        },
{
    match end {
        GuestEnd::Returned => Ok(0),
        GuestEnd::Exited(code) => Ok(code),
        GuestEnd::Failed(message) => {
            let head = text::concat3("wasm guest failed during _start: module=", module, " error=");
            Err(FrameworkError::Tool(text::concat2(head.as_str(), message.as_str())))
        },
    }
}

/// How a run in the sandbox ended is told as it is: what it wrote, without the white space around
/// it, its code, and whether it broke out; a run that failed or took too long is an error.
pub proof fn law_runs_end_as_told(outcome: HostOutcome, timeout_seconds: u64)
    ensures
        outcome matches HostOutcome::Completed { stdout, stderr, code } ==> {
            let run = host_run(outcome, timeout_seconds)->Ok_0;
            &&& host_run(outcome, timeout_seconds) is Ok
            &&& run.stdout == text::trim(stdout@)
            &&& run.stderr == text::trim(stderr@)
            &&& code is Some ==> run.exit_code == code->0
            &&& code is None ==> run.exit_code == -1
            &&& !run.sandbox_violated
        },
        outcome matches HostOutcome::Violated { stdout, stderr, code } ==> {
            let run = host_run(outcome, timeout_seconds)->Ok_0;
            &&& host_run(outcome, timeout_seconds) is Ok
            &&& run.stdout == text::trim(stdout@)
            &&& run.stderr == text::trim(stderr@)
            &&& code is Some ==> run.exit_code == code->0
            &&& code is None ==> run.exit_code == -1
            &&& run.sandbox_violated
        },
        outcome matches HostOutcome::Failed(message) ==> host_run(outcome, timeout_seconds) == Err::<
            HostRunView,
            ErrorView,
        >(ErrorView::Tool("exec failed in sandbox runtime: "@ + message@)),
        outcome is TimedOut ==> host_run(outcome, timeout_seconds) == Err::<HostRunView, ErrorView>(
            ErrorView::Tool(
                "exec timed out after "@ + text::decimal(timeout_seconds as nat)
                    + "s in sandbox runtime"@,
            ),
        ),
{
}

/// A process that ended has the code it ended with; one that broke out never counts as a success.
pub proof fn law_waits_tell_the_code(code: Option<i32>, message: String)
    ensures
        waited(WaitEnd::Exited { code }) == code,
        waited(WaitEnd::Failed(message)) is None,
        code is Some && code->0 != 0 ==> waited(WaitEnd::Violated { code }) == code,
        code is None || code->0 == 0 ==> waited(WaitEnd::Violated { code }) == Some((-1) as i32),
{
}

/// Written may be in the workspace, in the place for things that pass, and in what was added, and
/// nowhere else.
pub proof fn law_added_places_may_be_written(
    workspace_root: Seq<char>,
    extra: Seq<Seq<char>>,
    place: Seq<char>,
)
    ensures
        writable_paths(workspace_root, extra).contains(place) <==> place == workspace_root || place
            == "/tmp"@ || extra.contains(place),
{
    let all = writable_paths(workspace_root, extra);
    assert(all[0] == workspace_root);
    assert(all[1] == "/tmp"@);
    if extra.contains(place) {
        let i = choose|i: int| 0 <= i < extra.len() && extra[i] == place;
        assert(all[i + 2] == place);
    }
    if all.contains(place) {
        let i = choose|i: int| 0 <= i < all.len() && all[i] == place;
        if i >= 2 {
            assert(extra[i - 2] == place);
        }
    }
}

/// Without the network no address can be reached; what may be written is the same either way, and
/// reading is not held back.
pub proof fn law_closed_networks_reach_nothing(
    workspace_root: &str,
    policy: &SandboxPolicy,
    r: SandboxRuntimeConfig,
)
    requires
        call_ensures(build_runtime_config, (workspace_root, policy), r),
    ensures
        policy.network_enabled <==> r.allowed_domains@.len() == 0,
        !policy.network_enabled ==> text::views(r.allowed_domains@) == seq!["sandbox.invalid"@],
        text::views(r.allow_write@) == writable_paths(
            workspace_root@,
            text::views(policy.extra_writable_paths@),
        ),
        r.allow_read@.len() == 0,
        r.deny_read@.len() == 0,
        r.deny_write@.len() == 0,
        r.allow_git_config == Some(false),
        r.allow_pty == Some(false),
{
    assert(text::views(r.allowed_domains@).len() == r.allowed_domains@.len());
}

/// The first place that holds the file is taken, and where none holds it every place is named.
pub proof fn law_the_first_file_is_taken(
    name: Seq<char>,
    places: Seq<Seq<char>>,
    is_file: Seq<bool>,
    k: int,
)
    requires
        places.len() == is_file.len(),
    ensures
        0 <= k < places.len() && is_file[k] && (forall|i: int| 0 <= i < k ==> !#[trigger] is_file[i])
            ==> found_artifact(name, places, is_file) == Ok::<Seq<char>, ErrorView>(places[k]),
        (forall|i: int| 0 <= i < is_file.len() ==> !#[trigger] is_file[i]) ==> found_artifact(
            name,
            places,
            is_file,
        ) is Err && first_file(places, is_file) is None,
    decreases places.len(),
{
    if places.len() > 0 {
        let before = is_file.drop_last();
        law_the_first_file_is_taken(name, places.drop_last(), before, k);
        if 0 <= k < places.len() && is_file[k] && (forall|i: int|
            0 <= i < k ==> !#[trigger] is_file[i]) {
            if k == places.len() - 1 {
                assert forall|i: int| 0 <= i < before.len() implies !#[trigger] before[i] by {
                    assert(before[i] == is_file[i]);
                }
            } else {
                assert(before[k] == is_file[k]);
                assert forall|i: int| 0 <= i < k implies !#[trigger] before[i] by {
                    assert(before[i] == is_file[i]);
                }
            }
        }
        if forall|i: int| 0 <= i < is_file.len() ==> !#[trigger] is_file[i] {
            assert forall|i: int| 0 <= i < before.len() implies !#[trigger] before[i] by {
                assert(before[i] == is_file[i]);
            }
        }
    }
}

/// A workspace that is named from the root stays where it is; any other lies where one stands, and
/// cannot be found where that is not known.
pub proof fn law_workspaces_lie_where_they_say(
    workspace_root: Seq<char>,
    cwd: Result<Seq<char>, Seq<char>>,
)
    ensures
        workspace_root.len() > 0 && workspace_root[0] == '/' ==> workspace_root_of(
            workspace_root,
            cwd,
        ) == Ok::<Seq<char>, ErrorView>(workspace_root),
        !paths::is_absolute(workspace_root) && cwd is Ok ==> workspace_root_of(workspace_root, cwd)
            == Ok::<Seq<char>, ErrorView>(paths::joined_path(cwd->Ok_0, workspace_root)),
        !paths::is_absolute(workspace_root) && cwd is Err ==> workspace_root_of(workspace_root, cwd)
            == Err::<Seq<char>, ErrorView>(ErrorView::Io(cwd->Err_0)),
{
}

/// What was built is looked for where it was set up first, then where it is installed, and then
/// where it is built.
pub proof fn law_artifacts_are_looked_for(
    name: Seq<char>,
    assets_dir: Option<Seq<char>>,
    install_prefix: Option<Seq<char>>,
    build_root: Seq<char>,
)
    ensures
        ({
            let places = artifact_places(name, assets_dir, install_prefix, build_root);
            let n = places.len() as int;
            &&& n >= 2
            &&& assets_dir is Some ==> places[0] == paths::joined_path(assets_dir->0, name)
            &&& install_prefix is Some ==> n >= 3 && places[n - 3] == below(
                install_prefix->0,
                seq!["share"@, "simpleclaw"@, "wasm"@, name],
            )
            &&& places[n - 2] == below(
                build_root,
                seq!["target"@, "wasm32-wasip1"@, "release"@, name],
            )
            &&& places[n - 1] == below(
                build_root,
                seq!["target"@, "wasm32-wasip1"@, "debug"@, name],
            )
            &&& n == 2 + (if assets_dir is Some {
                1int
            } else {
                0
            }) + (if install_prefix is Some {
                1int
            } else {
                0
            })
        }),
{
}

/// A place below another is reached name by name.
pub proof fn law_places_below_are_reached_by_name(
    root: Seq<char>,
    names: Seq<Seq<char>>,
    name: Seq<char>,
)
    ensures
        below(root, Seq::empty()) == root,
        below(root, names.push(name)) == paths::joined_path(below(root, names), name),
{
    assert(names.push(name).drop_last() =~= names);
}

/// A guest ends with the code that it gave, with none where it just came to its end.
pub proof fn law_guests_end_with_their_code(
    end: GuestEnd,
    module: &str,
    r: Result<i32, FrameworkError>,
)
    requires
        call_ensures(guest_exit_code, (end, module), r),
    ensures
        end is Returned ==> r == Ok::<i32, FrameworkError>(0),
        end matches GuestEnd::Exited(code) ==> r == Ok::<i32, FrameworkError>(code),
        end is Failed ==> r is Err,
{
}

/// A place for things that pass is named by the time and a number.
pub proof fn law_passing_places_are_numbered(
    secs: u64,
    subsec_nanos: u64,
    counter: u64,
    r: String,
)
    requires
        call_ensures(isolated_tmp_name, (secs, subsec_nanos, counter), r),
    ensures
        r@ == "simpleclaw_wasm_"@ + text::decimal(secs as nat) + "_"@ + text::decimal(
            subsec_nanos as nat,
        ) + "_"@ + text::decimal(counter as nat),
{
}

} // verus!
