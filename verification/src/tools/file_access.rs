//! Where a file tool may go: what a path means, and through which mount a guest sees it.
use vstd::prelude::*;
use crate::config::ToolSandboxConfig;
use crate::error::{ErrorView, FrameworkError, SandboxCapability, SandboxPermissionDenied};
use crate::error;
use crate::paths::{normalize_absolute_path, NormalPath, PathView};
use crate::paths;
use crate::sandbox::{
    normalize_workspace_root, WasmPreopenedDir, WASM_PERSONA_MOUNT, WASM_WORKSPACE_MOUNT,
};
use crate::sandbox;
use crate::text::CharClass;
use crate::text;

verus! {

/// What the mounts of extra directories start with.
pub const EXTRA_ROOT_PREFIX: &'static str = "/__extra/";

/// How a file tool gets at a path.
#[derive(Debug, PartialEq, Eq)]
pub enum FileToolRoute {
    Sandboxed { guest_path: String, preopened_dirs: Vec<WasmPreopenedDir> },
    NeedsApproval { capability: SandboxCapability, target: String, reason: String },
}

/// How a file tool gets at a path, as it reads.
#[verifier::ext_equal]
pub enum RouteView {
    Sandboxed { guest_path: Seq<char>, preopened_dirs: Seq<(Seq<char>, Seq<char>)> },
    NeedsApproval { capability: SandboxCapability, target: Seq<char>, reason: Seq<char> },
}

impl View for FileToolRoute {
    type V = RouteView;

    open spec fn view(&self) -> RouteView {
        match self {
            FileToolRoute::Sandboxed { guest_path, preopened_dirs } => RouteView::Sandboxed {
                guest_path: guest_path@,
                preopened_dirs: Seq::new(
                    preopened_dirs@.len(),
                    |i: int| (preopened_dirs@[i].host_path@, preopened_dirs@[i].guest_path@),
                ),
            },
            FileToolRoute::NeedsApproval { capability, target, reason } => {
                RouteView::NeedsApproval {
                    capability: *capability,
                    target: target@,
                    reason: reason@,
                }
            },
        }
    }
}

impl FileToolRoute {
    /// The path that a guest sees.
    pub fn guest_path(&self) -> (r: Option<&str>)
        ensures
            crate::json::opt_str(r) == match self@ {
                RouteView::Sandboxed { guest_path, .. } => Some(guest_path),
                RouteView::NeedsApproval { .. } => None,
            },
    {
        match self {
            FileToolRoute::Sandboxed { guest_path, .. } => Some(guest_path.as_str()),
            FileToolRoute::NeedsApproval { .. } => None,
        }
    }

    /// The directories that a guest sees besides the usual ones.
    pub fn preopened_dirs(&self) -> (r: &[WasmPreopenedDir])
        ensures
            match *self {
                FileToolRoute::Sandboxed { preopened_dirs, .. } => r@ == preopened_dirs@,
                FileToolRoute::NeedsApproval { .. } => r@.len() == 0,
            },
    {
        match self {
            FileToolRoute::Sandboxed { preopened_dirs, .. } => preopened_dirs.as_slice(),
            FileToolRoute::NeedsApproval { .. } => &[],
        }
    }
}

/// Whether what a guest printed tells of a refusal by the sandbox.
pub open spec fn tells_of_denial(stderr: Seq<char>) -> bool {
    let lowered = text::lower(stderr);
    text::contains(lowered, "path denied by sandbox"@) || text::contains(
        lowered,
        "permission denied"@,
    ) || text::contains(lowered, "operation not permitted"@) || text::contains(
        lowered,
        "access denied"@,
    )
}

/// Whether what a guest printed tells of a refusal by the sandbox.
pub fn is_sandbox_permission_denial(stderr: &str) -> (r: bool)
    ensures
        r == tells_of_denial(stderr@),
{
    let lowered = text::lowered(stderr);
    text::has_text(lowered.as_str(), "path denied by sandbox") || text::has_text(
        lowered.as_str(),
        "permission denied",
    ) || text::has_text(lowered.as_str(), "operation not permitted") || text::has_text(
        lowered.as_str(),
        "access denied",
    )
}

/// The error of a guest that failed.
pub open spec fn guest_error(
    tool_name: Seq<char>,
    target: Seq<char>,
    capability: SandboxCapability,
    exit_code: i32,
    stderr: Seq<char>,
) -> ErrorView {
    if tells_of_denial(stderr) {
        ErrorView::Sandbox {
            tool_name,
            execution_kind: "wasm_sandbox"@,
            capability,
            target,
            diagnostic: stderr,
        }
    } else {
        ErrorView::Tool(
            tool_name + " tool failed: exit_code="@ + text::decimal_int(exit_code as int)
                + " stderr="@ + stderr,
        )
    }
}

/// The error of a guest that failed: a refusal by the sandbox, or a failure of the tool.
pub fn classify_wasm_tool_error(
    tool_name: &str,
    target: &str,
    capability: SandboxCapability,
    exit_code: i32,
    stderr: &str,
) -> (r: FrameworkError)
    ensures
        r@ == guest_error(tool_name@, target@, capability, exit_code, stderr@),
{
    if is_sandbox_permission_denial(stderr) {
        return FrameworkError::Sandbox(
            SandboxPermissionDenied {
                tool_name: tool_name.to_owned(),
                execution_kind: "wasm_sandbox".to_owned(),
                capability,
                target: target.to_owned(),
                diagnostic: stderr.to_owned(),
            },
        );
    }
    let code = text::decimal_of_i64(exit_code as i64);
    let head = text::concat3(tool_name, " tool failed: exit_code=", code.as_str());
    FrameworkError::Tool(text::concat3(head.as_str(), " stderr=", stderr))
}

/// The names in a path, the dot that it may start with, and whether it starts at the root: what
/// tells whether two paths are written alike.
pub open spec fn spelling(path: Seq<char>) -> (bool, bool, Seq<Seq<char>>) {
    (
        paths::is_absolute(path),
        !paths::is_absolute(path) && paths::pieces(path)[0] == "."@,
        spelled_names(paths::pieces(path)),
    )
}

/// The pieces without the empty ones and the single dots.
pub open spec fn spelled_names(steps: Seq<Seq<char>>) -> Seq<Seq<char>>
    decreases steps.len(),
{
    if steps.len() == 0 {
        Seq::empty()
    } else {
        let before = spelled_names(steps.drop_last());
        if steps.last().len() == 0 || steps.last() == "."@ {
            before
        } else {
            before.push(steps.last())
        }
    }
}

/// The pieces without the empty ones and the single dots.
fn spelled_names_of(steps: &Vec<String>) -> (r: Vec<String>)
    ensures
        text::views(r@) == spelled_names(text::views(steps@)),
{
    let ghost all = text::views(steps@);
    let mut kept: Vec<String> = Vec::new();
    let mut i: usize = 0;
    assert(text::views(kept@) =~= spelled_names(all.take(0)));
    while i < steps.len()
        invariant
            i <= steps@.len(),
            all == text::views(steps@),
            text::views(kept@) == spelled_names(all.take(i as int)),
        decreases steps@.len() - i,
    {
        let step = steps[i].as_str();
        let ghost before = text::views(kept@);
        proof {
            assert(all.take(i + 1).drop_last() =~= all.take(i as int));
            assert(all.take(i + 1).last() == step@);
        }
        if !step.is_empty() && !text::same_text(step, ".") {
            kept.push(step.to_owned());
            assert(text::views(kept@) =~= before.push(step@));
        }
        i = i + 1;
    }
    assert(all.take(i as int) =~= all);
    kept
}

/// Whether two lists of texts are equal.
fn same_texts(a: &Vec<String>, b: &Vec<String>) -> (r: bool)
    ensures
        r == (text::views(a@) == text::views(b@)),
{
    if a.len() != b.len() {
        assert(text::views(a@).len() != text::views(b@).len());
        return false;
    }
    let mut i: usize = 0;
    while i < a.len()
        invariant
            i <= a@.len() == b@.len(),
            forall|k: int| 0 <= k < i ==> text::views(a@)[k] == text::views(b@)[k],
        decreases a@.len() - i,
    {
        if !text::same_text(a[i].as_str(), b[i].as_str()) {
            assert(text::views(a@)[i as int] != text::views(b@)[i as int]);
            return false;
        }
        i = i + 1;
    }
    assert(text::views(a@) =~= text::views(b@));
    true
}

/// Whether two paths are written alike.
pub fn same_path(a: &str, b: &str) -> (r: bool)
    ensures
        r == (spelling(a@) == spelling(b@)),
{
    let first = paths::pieces_of(a);
    let second = paths::pieces_of(b);
    proof {
        paths::lemma_pieces_some(a@);
        paths::lemma_pieces_some(b@);
        assert(text::views(first@)[0] == first@[0]@);
        assert(text::views(second@)[0] == second@[0]@);
    }
    let rooted_a = paths::absolute(a);
    let rooted_b = paths::absolute(b);
    let dotted_a = !rooted_a && text::same_text(first[0].as_str(), ".");
    let dotted_b = !rooted_b && text::same_text(second[0].as_str(), ".");
    rooted_a == rooted_b && dotted_a == dotted_b && same_texts(
        &spelled_names_of(&first),
        &spelled_names_of(&second),
    )
}

/// Whether a path is among others.
pub open spec fn listed(roots: Seq<Seq<char>>, path: Seq<char>) -> bool {
    exists|i: int| 0 <= i < roots.len() && spelling(#[trigger] roots[i]) == spelling(path)
}

/// The paths followed by those of others that are not among them.
pub open spec fn with_new(roots: Seq<Seq<char>>, more: Seq<Seq<char>>) -> Seq<Seq<char>>
    decreases more.len(),
{
    if more.len() == 0 {
        roots
    } else {
        let before = with_new(roots, more.drop_last());
        if listed(before, more.last()) {
            before
        } else {
            before.push(more.last())
        }
    }
}

/// All extra directories: those for reading, then those for writing that are new.
pub open spec fn extra_paths(sandbox: ToolSandboxConfig) -> Seq<Seq<char>> {
    with_new(
        text::views(sandbox.extra_readable_paths@),
        text::views(sandbox.extra_writable_paths@),
    )
}

/// Whether a path is among others.
fn contains_path(roots: &Vec<String>, path: &str) -> (r: bool)
    ensures
        r == listed(text::views(roots@), path@),
{
    let mut i: usize = 0;
    while i < roots.len()
        invariant
            i <= roots@.len(),
            forall|k: int|
                0 <= k < i ==> spelling(#[trigger] text::views(roots@)[k]) != spelling(path@),
        decreases roots@.len() - i,
    {
        assert(text::views(roots@)[i as int] == roots@[i as int]@);
        if same_path(roots[i].as_str(), path) {
            return true;
        }
        i = i + 1;
    }
    false
}

/// All extra directories: those for reading, then those for writing that are new.
pub fn all_extra_paths(sandbox: &ToolSandboxConfig) -> (r: Vec<String>)
    ensures
        text::views(r@) == extra_paths(*sandbox),
{
    let mut roots = text::copy_texts(&sandbox.extra_readable_paths);
    let ghost start = text::views(roots@);
    let ghost more = text::views(sandbox.extra_writable_paths@);
    let mut i: usize = 0;
    assert(more.take(0) =~= Seq::<Seq<char>>::empty());
    while i < sandbox.extra_writable_paths.len()
        invariant
            i <= sandbox.extra_writable_paths@.len(),
            more == text::views(sandbox.extra_writable_paths@),
            text::views(roots@) == with_new(start, more.take(i as int)),
        decreases sandbox.extra_writable_paths@.len() - i,
    {
        let ghost before = text::views(roots@);
        let path = sandbox.extra_writable_paths[i].as_str();
        proof {
            assert(more.take(i + 1).drop_last() =~= more.take(i as int));
            assert(more.take(i + 1).last() == path@);
        }
        if !contains_path(&roots, path) {
            roots.push(path.to_owned());
            assert(text::views(roots@) =~= before.push(path@));
        }
        i = i + 1;
    }
    assert(more.take(i as int) =~= more);
    roots
}

/// What a path below a mount is, without the mount; the mount itself leaves nothing.
pub open spec fn below(path: Seq<char>, mount: Seq<char>) -> Option<Seq<char>> {
    if path == mount {
        Some(Seq::empty())
    } else {
        behind(path, mount + "/"@)
    }
}

/// What a text behind a start is, without the start.
pub open spec fn behind(path: Seq<char>, start: Seq<char>) -> Option<Seq<char>> {
    if text::starts_with(path, start) {
        Some(path.skip(start.len() as int))
    } else {
        None
    }
}

/// The path of the host that a path below the mount of an extra directory stands for.
pub open spec fn extra_on_host(rest: Seq<char>, roots: Seq<Seq<char>>) -> Option<Seq<char>> {
    match text::find_from(rest, "/"@, 0) {
        Some(slash) => match text::parse_number(rest.take(slash), usize::MAX as int) {
            Some(index) => if index < roots.len() {
                Some(paths::joined_path(roots[index], rest.skip(slash + 1)))
            } else {
                None
            },
            None => None,
        },
        None => None,
    }
}

/// Whether a path is one of a guest: it is a mount, or lies below one.
pub open spec fn is_guests(path: Seq<char>) -> bool {
    ||| below(path, WASM_WORKSPACE_MOUNT@) is Some
    ||| below(path, WASM_PERSONA_MOUNT@) is Some
    ||| behind(path, EXTRA_ROOT_PREFIX@) is Some
}

/// The path of the host that a path of a guest stands for, where it is one.
pub open spec fn on_host(
    path: Seq<char>,
    workspace_root: Seq<char>,
    persona_root: Seq<char>,
    roots: Seq<Seq<char>>,
) -> Option<Seq<char>> {
    match below(path, WASM_WORKSPACE_MOUNT@) {
        Some(rest) => Some(paths::joined_path(workspace_root, rest)),
        None => match below(path, WASM_PERSONA_MOUNT@) {
            Some(rest) => Some(paths::joined_path(persona_root, rest)),
            None => match behind(path, EXTRA_ROOT_PREFIX@) {
                Some(rest) => extra_on_host(rest, roots),
                None => None,
            },
        },
    }
}

/// What a text behind a start is, without the start.
fn strip(path: &str, start: &str) -> (r: Option<String>)
    ensures
        text::opt_view(r) == behind(path@, start@),
{
    if !text::begins_with(path, start) {
        return None;
    }
    let chars = text::chars_of(path);
    let prefix = text::chars_of(start);
    let rest = text::string_of_range(&chars, prefix.len(), chars.len());
    assert(rest@ =~= path@.skip(start@.len() as int));
    Some(rest)
}

/// What a path below a mount is, without the mount.
fn strip_mount(path: &str, mount: &str) -> (r: Option<String>)
    ensures
        text::opt_view(r) == below(path@, mount@),
{
    if text::same_text(path, mount) {
        let nothing = String::new();
        assert(nothing@ =~= Seq::<char>::empty());
        return Some(nothing);
    }
    strip(path, text::concat2(mount, "/").as_str())
}

/// The path of the host that a path below the mount of an extra directory stands for.
fn remap_extra(rest: &str, roots: &Vec<String>) -> (r: Option<String>)
    ensures
        text::opt_view(r) == extra_on_host(rest@, text::views(roots@)),
{
    let chars = text::chars_of(rest);
    let slash = text::chars_of("/");
    proof {
        reveal_strlit("/");
    }
    let at: usize = match text::position(&chars, &slash, 0) {
        Some(at) => at,
        None => {
            return None;
        },
    };
    let head = text::string_of_range(&chars, 0, at);
    assert(head@ =~= rest@.take(at as int));
    let index: u64 = match text::number_in(head.as_str(), usize::MAX as u64) {
        Some(index) => index,
        None => {
            return None;
        },
    };
    if index >= roots.len() as u64 {
        return None;
    }
    let tail = text::string_of_range(&chars, at + 1, chars.len());
    assert(tail@ =~= rest@.skip(at + 1));
    assert(text::views(roots@)[index as int] == roots@[index as int]@);
    Some(paths::join(roots[index as usize].as_str(), tail.as_str()))
}

/// The path of the host that a path of a guest stands for, where it is one.
pub fn remap_guest_path_to_host(
    path: &str,
    workspace_root: &str,
    persona_root: &str,
    sandbox: &ToolSandboxConfig,
) -> (r: Option<String>)
    ensures
        text::opt_view(r) == on_host(
            path@,
            workspace_root@,
            persona_root@,
            extra_paths(*sandbox),
        ),
{
    if let Some(rest) = strip_mount(path, WASM_WORKSPACE_MOUNT) {
        return Some(paths::join(workspace_root, rest.as_str()));
    }
    if let Some(rest) = strip_mount(path, WASM_PERSONA_MOUNT) {
        return Some(paths::join(persona_root, rest.as_str()));
    }
    if let Some(rest) = strip(path, EXTRA_ROOT_PREFIX) {
        return remap_extra(rest.as_str(), &all_extra_paths(sandbox));
    }
    None
}

/// Whether a path below the persona is open to tools: the framework's own directory is not.
pub open spec fn persona_open(rest: Seq<Seq<char>>) -> bool {
    !(rest.len() > 0 && rest[0] == ".simpleclaw"@)
}

/// Whether a path below the persona is open to tools.
pub fn persona_relative_path_allowed(rest: &Vec<String>) -> (r: bool)
    ensures
        r == persona_open(text::views(rest@)),
{
    if rest.len() > 0 {
        assert(text::views(rest@)[0] == rest@[0]@);
        !text::same_text(rest[0].as_str(), ".simpleclaw")
    } else {
        true
    }
}

/// The extra directories for a capability: what may be read, and for writing also what may be
/// written.
pub open spec fn roots_for(sandbox: ToolSandboxConfig, capability: SandboxCapability) -> Seq<
    Seq<char>,
> {
    if capability == SandboxCapability::Write {
        text::views(sandbox.extra_readable_paths@) + text::views(sandbox.extra_writable_paths@)
    } else {
        text::views(sandbox.extra_readable_paths@)
    }
}

/// The extra directories for a capability.
pub fn sandbox_paths_for_capability(
    sandbox: &ToolSandboxConfig,
    capability: SandboxCapability,
) -> (r: Vec<String>)
    ensures
        text::views(r@) == roots_for(*sandbox, capability),
{
    let mut roots = text::copy_texts(&sandbox.extra_readable_paths);
    match capability {
        SandboxCapability::Write => {
            let ghost readable = text::views(roots@);
            let mut more = text::copy_texts(&sandbox.extra_writable_paths);
            let ghost writable = text::views(more@);
            roots.append(&mut more);
            assert(text::views(roots@) =~= readable + writable);
        },
        _ => {},
    }
    roots
}

/// A path below an extra directory: which one, where it leads, and the rest of the way.
#[verifier::ext_equal]
pub struct ExtraMatch {
    pub index: int,
    pub root: PathView,
    pub rest: Seq<Seq<char>>,
}

/// How deep a path leads, the root counted.
pub open spec fn depth(path: PathView) -> nat {
    if path.absolute {
        path.parts.len() + 1
    } else {
        path.parts.len()
    }
}

/// The deepest extra directory that a path leads through; of two as deep, the later one.
pub open spec fn deepest(
    path: PathView,
    roots: Seq<Seq<char>>,
    cwd: Result<Seq<char>, Seq<char>>,
) -> Result<Option<ExtraMatch>, ErrorView>
    decreases roots.len(),
{
    if roots.len() == 0 {
        Ok(None)
    } else {
        match deepest(path, roots.drop_last(), cwd) {
            Err(error) => Err(error),
            Ok(best) => match sandbox::workspace_root_of(roots.last(), cwd) {
                Err(error) => Err(error),
                Ok(absolute) => {
                    let root = paths::normalize(absolute);
                    let better = match best {
                        Some(best) => depth(best.root) <= depth(root),
                        None => true,
                    };
                    if path.within(root) && better {
                        Ok(
                            Some(
                                ExtraMatch {
                                    index: roots.len() - 1,
                                    root,
                                    rest: path.beyond(root),
                                },
                            ),
                        )
                    } else {
                        Ok(best)
                    }
                },
            },
        }
    }
}

/// A failure among the first directories is the failure of all.
proof fn lemma_deepest_fails(
    path: PathView,
    roots: Seq<Seq<char>>,
    cwd: Result<Seq<char>, Seq<char>>,
    n: int,
)
    requires
        0 <= n <= roots.len(),
        deepest(path, roots.take(n), cwd) is Err,
    ensures
        deepest(path, roots, cwd) == deepest(path, roots.take(n), cwd),
    decreases roots.len() - n,
{
    if n < roots.len() {
        assert(roots.take(n + 1).drop_last() =~= roots.take(n));
        lemma_deepest_fails(path, roots, cwd, n + 1);
    } else {
        assert(roots.take(n) =~= roots);
    }
}

/// What a search among extra directories says.
pub open spec fn match_result(
    r: Result<Option<(usize, NormalPath, Vec<String>)>, FrameworkError>,
) -> Result<Option<ExtraMatch>, ErrorView> {
    match r {
        Ok(Some((index, root, rest))) => Ok(
            Some(ExtraMatch { index: index as int, root: root@, rest: text::views(rest@) }),
        ),
        Ok(None) => Ok(None),
        Err(error) => Err(error@),
    }
}

/// Whether a path is at least as deep as another.
fn as_deep(best: &NormalPath, root: &NormalPath) -> (r: bool)
    ensures
        r == (depth(best@) <= depth(root@)),
{
    let a = best.parts.len();
    let b = root.parts.len();
    if best.absolute == root.absolute {
        a <= b
    } else if best.absolute {
        a < b
    } else {
        a <= b || a - b <= 1
    }
}

/// The deepest extra directory that a path leads through; of two as deep, the later one.
pub fn find_matching_extra_root(
    path: &NormalPath,
    roots: &Vec<String>,
    cwd: &Result<String, String>,
) -> (r: Result<Option<(usize, NormalPath, Vec<String>)>, FrameworkError>)
    ensures
        match_result(r) == deepest(path@, text::views(roots@), sandbox::cwd_view(*cwd)),
{
    let ghost all = text::views(roots@);
    let ghost place = sandbox::cwd_view(*cwd);
    let mut best: Option<(usize, NormalPath, Vec<String>)> = None;
    let mut i: usize = 0;
    assert(all.take(0) =~= Seq::<Seq<char>>::empty());
    while i < roots.len()
        invariant
            i <= roots@.len(),
            all == text::views(roots@),
            place == sandbox::cwd_view(*cwd),
            deepest(path@, all.take(i as int), place) == match_result(Ok(best)),
        decreases roots@.len() - i,
    {
        proof {
            assert(all.take(i + 1).drop_last() =~= all.take(i as int));
            assert(all.take(i + 1).last() == roots@[i as int]@);
        }
        let absolute = match normalize_workspace_root(roots[i].as_str(), cwd) {
            Ok(absolute) => absolute,
            Err(error) => {
                proof {
                    lemma_deepest_fails(path@, all, place, i + 1);
                }
                return Err(error);
            },
        };
        let root = normalize_absolute_path(absolute.as_str());
        let better = match &best {
            Some((_, known, _)) => as_deep(known, &root),
            None => true,
        };
        if better {
            if let Some(rest) = path.strip_prefix(&root) {
                best = Some((i, root, rest));
            }
        }
        i = i + 1;
    }
    assert(all.take(i as int) =~= all);
    Ok(best)
}

/// The path that a guest sees below a mount.
pub open spec fn below_mount(mount: Seq<char>, rest: Seq<Seq<char>>) -> Seq<char> {
    mount + "/"@ + text::join(rest, "/"@)
}

/// The path that a guest sees below a mount.
fn guest_path_below(mount: &str, rest: &Vec<String>) -> (r: String)
    ensures
        r@ == below_mount(mount@, text::views(rest@)),
{
    text::concat3(mount, "/", text::joined(rest, "/").as_str())
}

/// How a tool gets at where a path leads, given where the workspace and the persona lie and which
/// extra directory it leads through.
pub open spec fn route_of(
    path: PathView,
    workspace: PathView,
    persona: PathView,
    extra: Option<ExtraMatch>,
    capability: SandboxCapability,
) -> RouteView {
    if path.within(workspace) {
        RouteView::Sandboxed {
            guest_path: below_mount(WASM_WORKSPACE_MOUNT@, path.beyond(workspace)),
            preopened_dirs: Seq::empty(),
        }
    } else if path.within(persona) && persona_open(path.beyond(persona)) {
        RouteView::Sandboxed {
            guest_path: below_mount(WASM_PERSONA_MOUNT@, path.beyond(persona)),
            preopened_dirs: Seq::empty(),
        }
    } else {
        match extra {
            Some(found) => {
                let mount = "/__extra/"@ + text::decimal(found.index as nat);
                RouteView::Sandboxed {
                    guest_path: below_mount(mount, found.rest),
                    preopened_dirs: seq![(found.root.render(), mount)],
                }
            },
            None => RouteView::NeedsApproval {
                capability,
                target: path.render(),
                reason: "target is outside the configured sandbox roots: path="@ + path.render()
                    + " workspace="@ + workspace.render() + " persona="@ + persona.render(),
            },
        }
    }
}

/// Whether a path needs no look at the extra directories.
pub open spec fn inside(path: PathView, workspace: PathView, persona: PathView) -> bool {
    path.within(workspace) || (path.within(persona) && persona_open(path.beyond(persona)))
}

/// How a tool gets at a path, with the current directory or why it is not known.
pub open spec fn access(
    host_path: Seq<char>,
    workspace_root: Seq<char>,
    persona_root: Seq<char>,
    sandbox: ToolSandboxConfig,
    capability: SandboxCapability,
    cwd: Result<Seq<char>, Seq<char>>,
) -> Result<RouteView, ErrorView> {
    let path = paths::normalize(
        match on_host(host_path, workspace_root, persona_root, extra_paths(sandbox)) {
            Some(remapped) => remapped,
            None => host_path,
        },
    );
    match sandbox::workspace_root_of(workspace_root, cwd) {
        Err(error) => Err(error),
        Ok(workspace_absolute) => {
            let workspace = paths::normalize(workspace_absolute);
            if path.within(workspace) {
                Ok(route_of(path, workspace, workspace, None, capability))
            } else {
                match sandbox::workspace_root_of(persona_root, cwd) {
                    Err(error) => Err(error),
                    Ok(persona_absolute) => {
                        let persona = paths::normalize(persona_absolute);
                        if inside(path, workspace, persona) {
                            Ok(route_of(path, workspace, persona, None, capability))
                        } else {
                            match deepest(path, roots_for(sandbox, capability), cwd) {
                                Err(error) => Err(error),
                                Ok(extra) => Ok(
                                    route_of(path, workspace, persona, extra, capability),
                                ),
                            }
                        }
                    },
                }
            }
        },
    }
}

/// What a result with a route says.
pub open spec fn route_result(r: Result<FileToolRoute, FrameworkError>) -> Result<
    RouteView,
    ErrorView,
> {
    match r {
        Ok(route) => Ok(route@),
        Err(error) => Err(error@),
    }
}

/// How a tool gets at where a path leads, given where it lies.
pub fn choose_route(
    path: &NormalPath,
    workspace: &NormalPath,
    persona: &NormalPath,
    extra: Option<(usize, NormalPath, Vec<String>)>,
    capability: SandboxCapability,
) -> (r: FileToolRoute)
    ensures
        r@ == route_of(
            path@,
            workspace@,
            persona@,
            match_result(Ok(extra))->Ok_0,
            capability,
        ),
{
    if let Some(rest) = path.strip_prefix(workspace) {
        let r = FileToolRoute::Sandboxed {
            guest_path: guest_path_below(WASM_WORKSPACE_MOUNT, &rest),
            preopened_dirs: Vec::new(),
        };
        assert(r@->preopened_dirs =~= Seq::<(Seq<char>, Seq<char>)>::empty());
        return r;
    }
    if let Some(rest) = path.strip_prefix(persona) {
        if persona_relative_path_allowed(&rest) {
            let r = FileToolRoute::Sandboxed {
                guest_path: guest_path_below(WASM_PERSONA_MOUNT, &rest),
                preopened_dirs: Vec::new(),
            };
            assert(r@->preopened_dirs =~= Seq::<(Seq<char>, Seq<char>)>::empty());
            return r;
        }
    }
    match extra {
        Some((index, root, rest)) => {
            let mount = text::concat2("/__extra/", text::decimal_of(index as u64).as_str());
            let guest_path = guest_path_below(mount.as_str(), &rest);
            let mut preopened_dirs: Vec<WasmPreopenedDir> = Vec::new();
            let host_path = root.display();
            let ghost opened = (host_path@, mount@);
            preopened_dirs.push(WasmPreopenedDir { host_path, guest_path: mount });
            let r = FileToolRoute::Sandboxed { guest_path, preopened_dirs };
            assert(r@->preopened_dirs =~= seq![opened]);
            r
        },
        None => {
            let target = path.display();
            let first = text::concat3(
                "target is outside the configured sandbox roots: path=",
                target.as_str(),
                " workspace=",
            );
            let second = text::concat3(first.as_str(), workspace.display().as_str(), " persona=");
            let reason = text::concat2(second.as_str(), persona.display().as_str());
            FileToolRoute::NeedsApproval { capability, target, reason }
        },
    }
}

/// How a tool gets at a path.
pub fn classify_file_tool_access(
    host_path: &str,
    workspace_root: &str,
    persona_root: &str,
    sandbox: &ToolSandboxConfig,
    capability: SandboxCapability,
    cwd: &Result<String, String>,
) -> (r: Result<FileToolRoute, FrameworkError>)
    ensures
        route_result(r) == access(
            host_path@,
            workspace_root@,
            persona_root@,
            *sandbox,
            capability,
            sandbox::cwd_view(*cwd),
        ),
{
    let on_host = match remap_guest_path_to_host(host_path, workspace_root, persona_root, sandbox) {
        Some(remapped) => remapped,
        None => host_path.to_owned(),
    };
    let path = normalize_absolute_path(on_host.as_str());
    let workspace = match normalize_workspace_root(workspace_root, cwd) {
        Ok(absolute) => normalize_absolute_path(absolute.as_str()),
        Err(error) => {
            return Err(error);
        },
    };
    if path.strip_prefix(&workspace).is_some() {
        return Ok(choose_route(&path, &workspace, &workspace, None, capability));
    }
    let persona = match normalize_workspace_root(persona_root, cwd) {
        Ok(absolute) => normalize_absolute_path(absolute.as_str()),
        Err(error) => {
            return Err(error);
        },
    };
    if let Some(rest) = path.strip_prefix(&persona) {
        if persona_relative_path_allowed(&rest) {
            return Ok(choose_route(&path, &workspace, &persona, None, capability));
        }
    }
    let roots = sandbox_paths_for_capability(sandbox, capability);
    match find_matching_extra_root(&path, &roots, cwd) {
        Ok(extra) => Ok(choose_route(&path, &workspace, &persona, extra, capability)),
        Err(error) => Err(error),
    }
}

/// How a file tool is run: on the host, or by a guest.
#[derive(Debug, Clone, Copy, PartialEq, Eq, Structural)]
pub enum Runner {
    Host,
    Guest,
}

/// How a file tool with a route is run: on the host where the sandbox is off, and otherwise by a
/// guest, which does not reach what needs approval.
pub open spec fn runner(sandbox_enabled: bool, route: RouteView) -> Result<Runner, ErrorView> {
    if !sandbox_enabled {
        Ok(Runner::Host)
    } else {
        match route {
            RouteView::Sandboxed { .. } => Ok(Runner::Guest),
            RouteView::NeedsApproval { reason, .. } => Err(ErrorView::Tool(reason)),
        }
    }
}

/// How a file tool with a route is run.
pub fn runner_for(sandbox: &ToolSandboxConfig, route: &FileToolRoute) -> (r: Result<
    Runner,
    FrameworkError,
>)
    ensures
        match r {
            Ok(found) => Ok::<Runner, ErrorView>(found),
            Err(error) => Err(error@),
        } == runner(sandbox.enabled, route@),
{
    if !sandbox.enabled {
        return Ok(Runner::Host);
    }
    match route {
        FileToolRoute::Sandboxed { .. } => Ok(Runner::Guest),
        FileToolRoute::NeedsApproval { reason, .. } => Err(FrameworkError::Tool(reason.clone())),
    }
}

/// Whether a path leads through none of the extra directories.
pub open spec fn outside_all(
    path: PathView,
    roots: Seq<Seq<char>>,
    cwd: Result<Seq<char>, Seq<char>>,
) -> bool {
    forall|i: int|
        0 <= i < roots.len() ==> (match sandbox::workspace_root_of(#[trigger] roots[i], cwd) {
            Ok(absolute) => !path.within(paths::normalize(absolute)),
            Err(_) => false,
        })
}

/// No extra directory is found where a path leads through none.
proof fn lemma_outside_all(
    path: PathView,
    roots: Seq<Seq<char>>,
    cwd: Result<Seq<char>, Seq<char>>,
)
    requires
        outside_all(path, roots, cwd),
    ensures
        deepest(path, roots, cwd) == Ok::<Option<ExtraMatch>, ErrorView>(None),
    decreases roots.len(),
{
    if roots.len() > 0 {
        let earlier = roots.drop_last();
        assert forall|i: int| 0 <= i < earlier.len() implies (match sandbox::workspace_root_of(
            #[trigger] earlier[i],
            cwd,
        ) {
            Ok(absolute) => !path.within(paths::normalize(absolute)),
            Err(_) => false,
        }) by {
            assert(earlier[i] == roots[i]);
        }
        lemma_outside_all(path, earlier, cwd);
        assert(roots.last() == roots[roots.len() - 1]);
    }
}

/// A file of the workspace is reached in the sandbox, below the workspace's mount, at its path
/// from the workspace on.
pub proof fn law_workspace_files_are_reached(
    host_path: Seq<char>,
    workspace_root: Seq<char>,
    persona_root: Seq<char>,
    sandbox: ToolSandboxConfig,
    capability: SandboxCapability,
    cwd: Result<Seq<char>, Seq<char>>,
)
    requires
        !is_guests(host_path),
        sandbox::workspace_root_of(workspace_root, cwd) is Ok,
        paths::normalize(host_path).within(
            paths::normalize(sandbox::workspace_root_of(workspace_root, cwd)->Ok_0),
        ),
    ensures
        ({
            let path = paths::normalize(host_path);
            let workspace = paths::normalize(
                sandbox::workspace_root_of(workspace_root, cwd)->Ok_0,
            );
            access(host_path, workspace_root, persona_root, sandbox, capability, cwd) == Ok::<
                RouteView,
                ErrorView,
            >(
                RouteView::Sandboxed {
                    guest_path: below_mount(WASM_WORKSPACE_MOUNT@, path.beyond(workspace)),
                    preopened_dirs: Seq::empty(),
                },
            )
        }),
{
}

/// A file of the persona that is open to tools and not in the workspace is reached in the sandbox,
/// below the persona's mount, at its path from the persona on.
pub proof fn law_persona_files_are_reached(
    host_path: Seq<char>,
    workspace_root: Seq<char>,
    persona_root: Seq<char>,
    sandbox: ToolSandboxConfig,
    capability: SandboxCapability,
    cwd: Result<Seq<char>, Seq<char>>,
)
    requires
        !is_guests(host_path),
        sandbox::workspace_root_of(workspace_root, cwd) is Ok,
        sandbox::workspace_root_of(persona_root, cwd) is Ok,
        ({
            let path = paths::normalize(host_path);
            let workspace = paths::normalize(
                sandbox::workspace_root_of(workspace_root, cwd)->Ok_0,
            );
            let persona = paths::normalize(sandbox::workspace_root_of(persona_root, cwd)->Ok_0);
            &&& !path.within(workspace)
            &&& path.within(persona)
            &&& persona_open(path.beyond(persona))
        }),
    ensures
        ({
            let path = paths::normalize(host_path);
            let persona = paths::normalize(sandbox::workspace_root_of(persona_root, cwd)->Ok_0);
            access(host_path, workspace_root, persona_root, sandbox, capability, cwd) == Ok::<
                RouteView,
                ErrorView,
            >(
                RouteView::Sandboxed {
                    guest_path: below_mount(WASM_PERSONA_MOUNT@, path.beyond(persona)),
                    preopened_dirs: Seq::empty(),
                },
            )
        }),
{
}

/// A path that leads neither into the workspace, nor into the persona, nor into an extra
/// directory needs approval.
pub proof fn law_outside_paths_need_approval(
    host_path: Seq<char>,
    workspace_root: Seq<char>,
    persona_root: Seq<char>,
    sandbox: ToolSandboxConfig,
    capability: SandboxCapability,
    cwd: Result<Seq<char>, Seq<char>>,
)
    requires
        !is_guests(host_path),
        sandbox::workspace_root_of(workspace_root, cwd) is Ok,
        sandbox::workspace_root_of(persona_root, cwd) is Ok,
        !inside(
            paths::normalize(host_path),
            paths::normalize(sandbox::workspace_root_of(workspace_root, cwd)->Ok_0),
            paths::normalize(sandbox::workspace_root_of(persona_root, cwd)->Ok_0),
        ),
        outside_all(paths::normalize(host_path), roots_for(sandbox, capability), cwd),
    ensures
        ({
            let path = paths::normalize(host_path);
            let workspace = paths::normalize(
                sandbox::workspace_root_of(workspace_root, cwd)->Ok_0,
            );
            let persona = paths::normalize(sandbox::workspace_root_of(persona_root, cwd)->Ok_0);
            access(host_path, workspace_root, persona_root, sandbox, capability, cwd) == Ok::<
                RouteView,
                ErrorView,
            >(
                RouteView::NeedsApproval {
                    capability,
                    target: path.render(),
                    reason: "target is outside the configured sandbox roots: path="@
                        + path.render() + " workspace="@ + workspace.render() + " persona="@
                        + persona.render(),
                },
            )
        }),
{
    lemma_outside_all(paths::normalize(host_path), roots_for(sandbox, capability), cwd);
}

/// No path that leads into the framework's own directory below the persona is open to a tool,
/// unless the workspace or an extra directory opens it.
pub proof fn law_persona_state_is_closed(
    host_path: Seq<char>,
    workspace_root: Seq<char>,
    persona_root: Seq<char>,
    sandbox: ToolSandboxConfig,
    capability: SandboxCapability,
    cwd: Result<Seq<char>, Seq<char>>,
)
    requires
        !is_guests(host_path),
        sandbox::workspace_root_of(workspace_root, cwd) is Ok,
        sandbox::workspace_root_of(persona_root, cwd) is Ok,
        ({
            let path = paths::normalize(host_path);
            let workspace = paths::normalize(
                sandbox::workspace_root_of(workspace_root, cwd)->Ok_0,
            );
            let persona = paths::normalize(sandbox::workspace_root_of(persona_root, cwd)->Ok_0);
            &&& !path.within(workspace)
            &&& path.within(persona)
            &&& path.beyond(persona).len() > 0
            &&& path.beyond(persona)[0] == ".simpleclaw"@
        }),
        outside_all(paths::normalize(host_path), roots_for(sandbox, capability), cwd),
    ensures
        access(host_path, workspace_root, persona_root, sandbox, capability, cwd) is Ok,
        access(host_path, workspace_root, persona_root, sandbox, capability, cwd)->Ok_0
            is NeedsApproval,
{
    law_outside_paths_need_approval(
        host_path,
        workspace_root,
        persona_root,
        sandbox,
        capability,
        cwd,
    );
}

/// What a guest calls a file of the workspace, the tools call it too: the guest's path of a file
/// leads back to that path.
pub proof fn law_workspace_paths_come_back(
    rest: Seq<Seq<char>>,
    workspace_root: Seq<char>,
    persona_root: Seq<char>,
    sandbox: ToolSandboxConfig,
    capability: SandboxCapability,
    cwd: Result<Seq<char>, Seq<char>>,
)
    requires
        (PathView { absolute: false, parts: rest }).wf(),
        paths::is_absolute(workspace_root),
    ensures
        access(
            below_mount(WASM_WORKSPACE_MOUNT@, rest),
            workspace_root,
            persona_root,
            sandbox,
            capability,
            cwd,
        ) == Ok::<RouteView, ErrorView>(
            RouteView::Sandboxed {
                guest_path: below_mount(WASM_WORKSPACE_MOUNT@, rest),
                preopened_dirs: Seq::empty(),
            },
        ),
{
    let tail = text::join(rest, "/"@);
    let given = below_mount(WASM_WORKSPACE_MOUNT@, rest);
    lemma_behind_mount(WASM_WORKSPACE_MOUNT@, tail);
    paths::law_joined_paths_go_on_from_the_base(workspace_root, rest);
    let workspace = paths::normalize(workspace_root);
    let path = paths::normalize(paths::joined_path(workspace_root, tail));
    assert(path.parts.take(workspace.parts.len() as int) =~= workspace.parts);
    assert(path.beyond(workspace) =~= rest);
}

/// What a guest calls a file of the persona, the tools call it too, where it is open to them and
/// the persona does not lie in the workspace there.
pub proof fn law_persona_paths_come_back(
    rest: Seq<Seq<char>>,
    workspace_root: Seq<char>,
    persona_root: Seq<char>,
    sandbox: ToolSandboxConfig,
    capability: SandboxCapability,
    cwd: Result<Seq<char>, Seq<char>>,
)
    requires
        (PathView { absolute: false, parts: rest }).wf(),
        persona_open(rest),
        paths::is_absolute(workspace_root),
        paths::is_absolute(persona_root),
        !paths::normalize(paths::joined_path(persona_root, text::join(rest, "/"@))).within(
            paths::normalize(workspace_root),
        ),
    ensures
        access(
            below_mount(WASM_PERSONA_MOUNT@, rest),
            workspace_root,
            persona_root,
            sandbox,
            capability,
            cwd,
        ) == Ok::<RouteView, ErrorView>(
            RouteView::Sandboxed {
                guest_path: below_mount(WASM_PERSONA_MOUNT@, rest),
                preopened_dirs: Seq::empty(),
            },
        ),
{
    let tail = text::join(rest, "/"@);
    let given = below_mount(WASM_PERSONA_MOUNT@, rest);
    lemma_behind_mount(WASM_PERSONA_MOUNT@, tail);
    reveal_strlit("/workspace");
    reveal_strlit("/persona");
    reveal_strlit("/");
    assert(given[1] == 'p');
    assert(WASM_WORKSPACE_MOUNT@[1] == 'w');
    assert(!text::starts_with(given, WASM_WORKSPACE_MOUNT@ + "/"@)) by {
        let start = WASM_WORKSPACE_MOUNT@ + "/"@;
        assert(start[1] == 'w');
        if text::starts_with(given, start) {
            assert(given.subrange(0, start.len() as int)[1] == given[1]);
        }
    }
    paths::law_joined_paths_go_on_from_the_base(persona_root, rest);
    let persona = paths::normalize(persona_root);
    let path = paths::normalize(paths::joined_path(persona_root, tail));
    assert(path.parts.take(persona.parts.len() as int) =~= persona.parts);
    assert(path.beyond(persona) =~= rest);
}

/// Whether no directory for writing up to a place in the list of all of them, those for reading
/// first, is written like one before it.
pub open spec fn new_up_to(sandbox: ToolSandboxConfig, n: int) -> bool {
    let readable = text::views(sandbox.extra_readable_paths@);
    let writable = text::views(sandbox.extra_writable_paths@);
    forall|i: int|
        0 <= i < writable.len() && readable.len() + i <= n ==> !listed(
            readable + writable.take(i),
            #[trigger] writable[i],
        )
}

/// Directories that are not written like one before them keep their places.
proof fn lemma_with_new(roots: Seq<Seq<char>>, more: Seq<Seq<char>>, k: int)
    requires
        0 <= k <= more.len(),
        forall|i: int|
            0 <= i < k ==> !listed(roots + more.take(i), #[trigger] more[i]),
    ensures
        (roots + more.take(k)).is_prefix_of(with_new(roots, more)),
    decreases more.len(),
{
    if more.len() == 0 {
        assert(roots + more.take(k) =~= roots);
    } else {
        let before = more.drop_last();
        let kept: int = if k < more.len() {
            k
        } else {
            k - 1
        };
        assert forall|i: int| 0 <= i < kept implies !listed(
            roots + before.take(i),
            #[trigger] before[i],
        ) by {
            assert(before.take(i) =~= more.take(i));
            assert(before[i] == more[i]);
        }
        lemma_with_new(roots, before, kept);
        assert(before.take(kept) =~= more.take(kept));
        if k == more.len() {
            lemma_with_new_len(roots, before);
            assert(before.take(kept) =~= before);
            assert(with_new(roots, before) =~= roots + before);
            assert(!listed(roots + more.take(k - 1), more[k - 1]));
            assert(roots + more.take(k) =~= (roots + before).push(more.last()));
        }
    }
}

/// No more directories come out than went in.
proof fn lemma_with_new_len(roots: Seq<Seq<char>>, more: Seq<Seq<char>>)
    ensures
        with_new(roots, more).len() <= roots.len() + more.len(),
    decreases more.len(),
{
    if more.len() > 0 {
        lemma_with_new_len(roots, more.drop_last());
    }
}

/// What is found is one of the directories, and the path leads through it.
proof fn lemma_deepest_found(
    path: PathView,
    roots: Seq<Seq<char>>,
    cwd: Result<Seq<char>, Seq<char>>,
)
    requires
        deepest(path, roots, cwd) is Ok,
        deepest(path, roots, cwd)->Ok_0 is Some,
    ensures
        ({
            let found = deepest(path, roots, cwd)->Ok_0->Some_0;
            &&& 0 <= found.index < roots.len()
            &&& sandbox::workspace_root_of(roots[found.index], cwd) is Ok
            &&& found.root == paths::normalize(
                sandbox::workspace_root_of(roots[found.index], cwd)->Ok_0,
            )
            &&& path.within(found.root)
            &&& found.rest == path.beyond(found.root)
        }),
    decreases roots.len(),
{
    let found = deepest(path, roots, cwd)->Ok_0->Some_0;
    if found.index != roots.len() - 1 || deepest(path, roots.drop_last(), cwd)->Ok_0 == Some(
        found,
    ) {
        lemma_deepest_found(path, roots.drop_last(), cwd);
        assert(roots.drop_last()[found.index] == roots[found.index]);
    }
}

/// The number of an extra directory and the way behind it are read back from a guest's path.
proof fn lemma_extra_on_host(n: nat, rest: Seq<Seq<char>>, roots: Seq<Seq<char>>)
    requires
        n < roots.len(),
        n <= usize::MAX,
    ensures
        ({
            let given = below_mount("/__extra/"@ + text::decimal(n), rest);
            &&& below(given, WASM_WORKSPACE_MOUNT@) is None
            &&& below(given, WASM_PERSONA_MOUNT@) is None
            &&& behind(given, EXTRA_ROOT_PREFIX@) is Some
            &&& extra_on_host(behind(given, EXTRA_ROOT_PREFIX@)->Some_0, roots) == Some(
                paths::joined_path(roots[n as int], text::join(rest, "/"@)),
            )
        }),
{
    reveal_strlit("/__extra/");
    reveal_strlit("/workspace");
    reveal_strlit("/persona");
    reveal_strlit("/");
    let number = text::decimal(n);
    let tail = text::join(rest, "/"@);
    let given = below_mount("/__extra/"@ + number, rest);
    text::lemma_decimal_digits(n);
    text::lemma_decimal_read_back(n);
    assert(given[1] == '_');
    let workspace = WASM_WORKSPACE_MOUNT@ + "/"@;
    let persona = WASM_PERSONA_MOUNT@ + "/"@;
    assert(workspace[1] == 'w');
    assert(persona[1] == 'p');
    assert(!text::starts_with(given, workspace)) by {
        if text::starts_with(given, workspace) {
            assert(given.subrange(0, workspace.len() as int)[1] == given[1]);
        }
    }
    assert(!text::starts_with(given, persona)) by {
        if text::starts_with(given, persona) {
            assert(given.subrange(0, persona.len() as int)[1] == given[1]);
        }
    }
    assert(WASM_WORKSPACE_MOUNT@[1] == 'w');
    assert(WASM_PERSONA_MOUNT@[1] == 'p');
    let left = number + "/"@ + tail;
    assert(given =~= "/__extra/"@ + left);
    assert(given.subrange(0, 9) =~= "/__extra/"@);
    assert(given.skip(9) =~= left);
    let slash = number.len() as int;
    assert(text::occurs_at(left, "/"@, slash)) by {
        assert(left.subrange(slash, slash + 1) =~= "/"@);
    }
    text::lemma_find(left, "/"@, 0);
    assert forall|j: int| 0 <= j < slash implies !text::occurs_at(left, "/"@, j) by {
        assert(left[j] == number[j]);
        if text::occurs_at(left, "/"@, j) {
            assert(left.subrange(j, j + 1)[0] == left[j]);
        }
    }
    assert(text::find_from(left, "/"@, 0) == Some(slash));
    assert(left.take(slash) =~= number);
    assert(left.skip(slash + 1) =~= tail);
    assert(number[0] != '+');
}

/// What a guest calls a file of an extra directory, the tools call it too: the path that a guest is
/// given leads back to the same route.  The directory is written from the root, and none up to it
/// is listed for writing again.
pub proof fn law_extra_paths_come_back(
    host_path: Seq<char>,
    workspace_root: Seq<char>,
    persona_root: Seq<char>,
    sandbox: ToolSandboxConfig,
    capability: SandboxCapability,
    cwd: Result<Seq<char>, Seq<char>>,
    n: nat,
    directory: Seq<char>,
    guest_path: Seq<char>,
)
    requires
        access(host_path, workspace_root, persona_root, sandbox, capability, cwd) == Ok::<
            RouteView,
            ErrorView,
        >(
            RouteView::Sandboxed {
                guest_path,
                preopened_dirs: seq![(directory, "/__extra/"@ + text::decimal(n))],
            },
        ),
        n <= usize::MAX,
        paths::is_absolute(roots_for(sandbox, capability)[n as int]),
        capability == SandboxCapability::Write ==> new_up_to(sandbox, n as int),
    ensures
        access(guest_path, workspace_root, persona_root, sandbox, capability, cwd) == access(
            host_path,
            workspace_root,
            persona_root,
            sandbox,
            capability,
            cwd,
        ),
{
    let roots = roots_for(sandbox, capability);
    let all = extra_paths(sandbox);
    let readable = text::views(sandbox.extra_readable_paths@);
    let writable = text::views(sandbox.extra_writable_paths@);
    let led = match on_host(host_path, workspace_root, persona_root, all) {
        Some(remapped) => remapped,
        None => host_path,
    };
    let path = paths::normalize(led);
    let dirs = seq![(directory, "/__extra/"@ + text::decimal(n))];
    assert(dirs.len() == 1 && dirs[0].1 == "/__extra/"@ + text::decimal(n));
    assert(deepest(path, roots, cwd) is Ok);
    assert(deepest(path, roots, cwd)->Ok_0 is Some);
    let found = deepest(path, roots, cwd)->Ok_0->Some_0;
    lemma_deepest_found(path, roots, cwd);
    let named = seq![
        (found.root.render(), "/__extra/"@ + text::decimal(found.index as nat)),
    ];
    assert(dirs == named);
    assert(named[0].1 == dirs[0].1);
    reveal_strlit("/__extra/");
    assert(text::decimal(found.index as nat) =~= ("/__extra/"@ + text::decimal(
        found.index as nat,
    )).skip(9));
    assert(text::decimal(n) =~= ("/__extra/"@ + text::decimal(n)).skip(9));
    text::lemma_decimal_injective(found.index as nat, n);
    let k: int = if n < readable.len() {
        0
    } else {
        n - readable.len() + 1
    };
    assert(0 <= k <= writable.len());
    lemma_with_new(readable, writable, k);
    let kept = readable + writable.take(k);
    assert(n < kept.len());
    assert(kept[n as int] == roots[n as int]);
    assert(all[n as int] == kept[n as int]);
    lemma_extra_on_host(n, found.rest, all);
    paths::law_normalized_paths_only_go_down(led);
    let rest = PathView { absolute: false, parts: found.rest };
    assert(rest.wf()) by {
        assert forall|i: int| 0 <= i < rest.parts.len() implies paths::names(
            #[trigger] rest.parts[i],
        ) && paths::slashless(rest.parts[i]) by {
            assert(rest.parts[i] == path.parts[found.root.parts.len() + i]);
        }
    }
    let root = roots[n as int];
    paths::law_joined_paths_go_on_from_the_base(root, found.rest);
    let back = paths::normalize(paths::joined_path(root, text::join(found.rest, "/"@)));
    assert(back.parts =~= path.parts) by {
        assert(path.parts.take(found.root.parts.len() as int) =~= found.root.parts);
    }
    assert(back == path);
}

/// What stands behind a mount and a slash is what is left without them.
proof fn lemma_behind_mount(mount: Seq<char>, tail: Seq<char>)
    ensures
        below(mount + "/"@ + tail, mount) == Some(tail),
{
    reveal_strlit("/");
    let whole = mount + "/"@ + tail;
    let start = mount + "/"@;
    assert(whole.len() > mount.len());
    assert(whole.subrange(0, start.len() as int) =~= start);
    assert(whole.skip(start.len() as int) =~= tail);
}

/// Whether a character may stand in the name of an environment variable.
pub open spec fn env_name_char(c: char, first: bool) -> bool {
    ('A' <= c && c <= 'Z') || ('a' <= c && c <= 'z') || c == '_' || (!first && text::is_digit(c))
}

/// Whether a character may stand in the name of an environment variable.
pub fn is_env_name_char(c: char, first: bool) -> (r: bool)
    ensures
        r == env_name_char(c, first),
{
    (c >= 'A' && c <= 'Z') || (c >= 'a' && c <= 'z') || c == '_' || (!first && c >= '0' && c
        <= '9')
}

/// Whether a text is the name of an environment variable.
pub open spec fn env_name(key: Seq<char>) -> bool {
    key.len() > 0 && forall|i: int|
        0 <= i < key.len() ==> env_name_char(#[trigger] key[i], i == 0)
}

/// How many characters from a position on form the name of an environment variable.
pub open spec fn name_end(s: Seq<char>, start: int, from: int) -> int
    decreases s.len() - from,
{
    if start <= from < s.len() && env_name_char(s[from], from == start) {
        name_end(s, start, from + 1)
    } else {
        from
    }
}

/// A name ends behind where it starts.
proof fn lemma_name_end(s: Seq<char>, start: int, from: int)
    requires
        start <= from <= s.len(),
    ensures
        from <= name_end(s, start, from) <= s.len(),
    decreases s.len() - from,
{
    if from < s.len() && env_name_char(s[from], from == start) {
        lemma_name_end(s, start, from + 1);
    }
}

/// The value of an environment variable; nothing where it is not set.
pub open spec fn env_value(env: Seq<(String, String)>, key: Seq<char>) -> Seq<char>
    decreases env.len(),
{
    if env.len() == 0 {
        Seq::empty()
    } else if env[0].0@ == key {
        env[0].1@
    } else {
        env_value(env.skip(1), key)
    }
}

/// The text from a position on, with the values of environment variables for `$NAME` and
/// `${NAME}`.  A dollar sign that starts no name stays.
pub open spec fn expanded(s: Seq<char>, i: int, env: Seq<(String, String)>) -> Seq<char>
    decreases s.len() - i,
{
    if i < 0 || i >= s.len() {
        Seq::empty()
    } else if s[i] != '$' || i + 1 >= s.len() {
        seq![s[i]] + expanded(s, i + 1, env)
    } else if s[i + 1] == '{' {
        let close = text::class_from(s, CharClass::Only('}'), i + 2);
        if i + 2 <= close < s.len() && env_name(s.subrange(i + 2, close)) {
            env_value(env, s.subrange(i + 2, close)) + expanded(s, close + 1, env)
        } else {
            seq!['$'] + expanded(s, i + 1, env)
        }
    } else {
        let end = name_end(s, i + 1, i + 1);
        if i + 1 < end <= s.len() {
            env_value(env, s.subrange(i + 1, end)) + expanded(s, end, env)
        } else {
            seq!['$'] + expanded(s, i + 1, env)
        }
    }
}

/// Whether the characters of a range are the name of an environment variable.
fn is_valid_env_name(chars: &Vec<char>, from: usize, to: usize) -> (r: bool)
    requires
        from <= to <= chars@.len(),
    ensures
        r == env_name(chars@.subrange(from as int, to as int)),
{
    let ghost key = chars@.subrange(from as int, to as int);
    if from == to {
        return false;
    }
    let mut i: usize = from;
    while i < to
        invariant
            from <= i <= to <= chars@.len(),
            key == chars@.subrange(from as int, to as int),
            forall|k: int| 0 <= k < i - from ==> env_name_char(#[trigger] key[k], k == 0),
        decreases to - i,
    {
        assert(key[i - from] == chars@[i as int]);
        if !is_env_name_char(chars[i], i == from) {
            return false;
        }
        i = i + 1;
    }
    true
}

/// The value of an environment variable; nothing where it is not set.
fn value_in(env: &Vec<(String, String)>, key: &str) -> (r: String)
    ensures
        r@ == env_value(env@, key@),
{
    let mut i: usize = 0;
    assert(env@.skip(0) =~= env@);
    while i < env.len()
        invariant
            i <= env@.len(),
            env_value(env@, key@) == env_value(env@.skip(i as int), key@),
        decreases env@.len() - i,
    {
        assert(env@.skip(i as int)[0] == env@[i as int]);
        assert(env@.skip(i as int).skip(1) =~= env@.skip(i + 1));
        if text::same_text(env[i].0.as_str(), key) {
            return env[i].1.clone();
        }
        i = i + 1;
    }
    let r = String::new();
    assert(r@ =~= Seq::<char>::empty());
    r
}

/// The text with the values of environment variables for `$NAME` and `${NAME}`.
pub fn expand_env_vars(input: &str, env: &Vec<(String, String)>) -> (r: String)
    ensures
        r@ == expanded(input@, 0, env@),
{
    let chars = text::chars_of(input);
    let mut output = String::new();
    let mut i: usize = 0;
    assert(output@ + expanded(input@, 0, env@) =~= expanded(input@, 0, env@));
    while i < chars.len()
        invariant
            i <= chars@.len(),
            chars@ == input@,
            output@ + expanded(input@, i as int, env@) == expanded(input@, 0, env@),
        decreases chars@.len() - i,
    {
        let ghost so_far = output@;
        let ghost rest = expanded(input@, i as int, env@);
        if chars[i] != '$' || i + 1 >= chars.len() {
            output.push(chars[i]);
            assert(output@ + expanded(input@, i + 1, env@) =~= so_far + rest);
            i = i + 1;
            continue ;
        }
        if chars[i + 1] == '{' {
            if i + 2 < chars.len() {
                let close = text::class_position(&chars, CharClass::Only('}'), i + 2);
                if close < chars.len() && is_valid_env_name(&chars, i + 2, close) {
                    let key = text::string_of_range(&chars, i + 2, close);
                    let value = value_in(env, key.as_str());
                    output.append(value.as_str());
                    assert(output@ + expanded(input@, close + 1, env@) =~= so_far + rest);
                    i = close + 1;
                    continue ;
                }
            }
            output.push('$');
            assert(output@ + expanded(input@, i + 1, env@) =~= so_far + rest);
            i = i + 1;
            continue ;
        }
        let mut j: usize = i + 1;
        while j < chars.len() && is_env_name_char(chars[j], j == i + 1)
            invariant
                i + 1 <= j <= chars@.len(),
                chars@ == input@,
                name_end(input@, i + 1, i + 1) == name_end(input@, i + 1, j as int),
            decreases chars@.len() - j,
        {
            j = j + 1;
        }
        if j == i + 1 {
            output.push('$');
            assert(output@ + expanded(input@, i + 1, env@) =~= so_far + rest);
            i = i + 1;
            continue ;
        }
        let key = text::string_of_range(&chars, i + 1, j);
        let value = value_in(env, key.as_str());
        output.append(value.as_str());
        assert(output@ + expanded(input@, j as int, env@) =~= so_far + rest);
        i = j;
    }
    assert(output@ + Seq::<char>::empty() =~= output@);
    output
}

/// A text without a dollar sign stays as it is.
pub proof fn law_plain_texts_are_not_expanded(s: Seq<char>, i: int, env: Seq<(String, String)>)
    requires
        0 <= i <= s.len(),
        forall|k: int| 0 <= k < s.len() ==> #[trigger] s[k] != '$',
    ensures
        expanded(s, i, env) == s.skip(i),
    decreases s.len() - i,
{
    if i < s.len() {
        law_plain_texts_are_not_expanded(s, i + 1, env);
        assert(seq![s[i]] + s.skip(i + 1) =~= s.skip(i));
    } else {
        assert(s.skip(i) =~= Seq::<char>::empty());
    }
}

/// The path that a text with a tilde in front stands for, where it is one.
pub open spec fn home_path(value: Seq<char>, home: Option<Seq<char>>) -> Option<Seq<char>> {
    if value.len() == 0 || value[0] != '~' || (value.len() > 1 && value[1] != '/' && value[1]
        != '\\') {
        None
    } else {
        match home {
            Some(home) => if value.len() <= 2 {
                Some(home)
            } else {
                Some(paths::joined_path(home, value.skip(2)))
            },
            None => None,
        }
    }
}

/// The path that a text with a tilde in front stands for, where it is one.
pub fn expand_home_dir(value: &str, home: &Option<String>) -> (r: Option<String>)
    ensures
        text::opt_view(r) == home_path(value@, text::opt_view(*home)),
{
    let chars = text::chars_of(value);
    if chars.len() == 0 || chars[0] != '~' {
        return None;
    }
    if chars.len() > 1 && chars[1] != '/' && chars[1] != '\\' {
        return None;
    }
    match home {
        Some(home) => {
            if chars.len() <= 2 {
                return Some(home.clone());
            }
            let rest = text::string_of_range(&chars, 2, chars.len());
            assert(rest@ =~= value@.skip(2));
            Some(paths::join(home.as_str(), rest.as_str()))
        },
        None => None,
    }
}

/// Where a path that a tool was given leads.
pub open spec fn tool_path(
    raw: Seq<char>,
    workspace_root: Seq<char>,
    env: Seq<(String, String)>,
    home: Option<Seq<char>>,
) -> Result<PathView, ErrorView> {
    if text::is_blank(raw) {
        Err(ErrorView::Tool("read requires a non-empty path"@))
    } else {
        let given = expanded(text::trim(raw), 0, env);
        let path = match home_path(given, home) {
            Some(path) => path,
            None => given,
        };
        Ok(
            paths::normalize(
                if paths::is_absolute(path) {
                    path
                } else {
                    paths::joined_path(workspace_root, path)
                },
            ),
        )
    }
}

/// Where a path that a tool was given leads, with the environment's variables and home directory.
pub fn resolve_path_for_read(
    raw_path: &str,
    workspace_root: &str,
    env: &Vec<(String, String)>,
    home: &Option<String>,
) -> (r: Result<NormalPath, FrameworkError>)
    ensures
        match r {
            Ok(path) => Ok::<PathView, ErrorView>(path@),
            Err(error) => Err(error@),
        } == tool_path(raw_path@, workspace_root@, env@, text::opt_view(*home)),
        r is Ok ==> r->Ok_0@.wf(),
{
    if text::blank(raw_path) {
        return Err(error::tool_error("read requires a non-empty path"));
    }
    let given = expand_env_vars(text::trimmed(raw_path).as_str(), env);
    let path = match expand_home_dir(given.as_str(), home) {
        Some(path) => path,
        None => given,
    };
    let from_root = if paths::absolute(path.as_str()) {
        path
    } else {
        paths::join(workspace_root, path.as_str())
    };
    Ok(normalize_absolute_path(from_root.as_str()))
}

/// What surrounds a file tool: its directories and the environment it was started in.
pub struct FileEnv {
    pub workspace_root: String,
    pub persona_root: String,
    pub env: Vec<(String, String)>,
    pub home: Option<String>,
    /// The current directory, or why it is not known.
    pub cwd: Result<String, String>,
}

/// Where a path that a tool was given leads, and how the tool gets there.
pub open spec fn located(
    raw: Seq<char>,
    place: FileEnv,
    sandbox: ToolSandboxConfig,
    capability: SandboxCapability,
) -> Result<(PathView, RouteView), ErrorView> {
    match tool_path(raw, place.workspace_root@, place.env@, text::opt_view(place.home)) {
        Err(error) => Err(error),
        Ok(path) => match access(
            path.render(),
            place.workspace_root@,
            place.persona_root@,
            sandbox,
            capability,
            sandbox::cwd_view(place.cwd),
        ) {
            Err(error) => Err(error),
            Ok(route) => Ok((path, route)),
        },
    }
}

/// What a result with a path and a route says.
pub open spec fn located_result(r: Result<(NormalPath, FileToolRoute), FrameworkError>) -> Result<
    (PathView, RouteView),
    ErrorView,
> {
    match r {
        Ok((path, route)) => Ok((path@, route@)),
        Err(error) => Err(error@),
    }
}

/// Where a path that a tool was given leads, and how the tool gets there.
pub fn locate(
    raw: &str,
    place: &FileEnv,
    sandbox: &ToolSandboxConfig,
    capability: SandboxCapability,
) -> (r: Result<(NormalPath, FileToolRoute), FrameworkError>)
    ensures
        located_result(r) == located(raw@, *place, *sandbox, capability),
{
    let path = match resolve_path_for_read(
        raw,
        place.workspace_root.as_str(),
        &place.env,
        &place.home,
    ) {
        Ok(path) => path,
        Err(error) => {
            return Err(error);
        },
    };
    match classify_file_tool_access(
        path.display().as_str(),
        place.workspace_root.as_str(),
        place.persona_root.as_str(),
        sandbox,
        capability,
        &place.cwd,
    ) {
        Ok(route) => Ok((path, route)),
        Err(error) => Err(error),
    }
}

/// The path that a guest is told, or why the tool cannot run as a guest.
pub open spec fn guest_target(route: RouteView, tool_name: Seq<char>) -> Result<
    Seq<char>,
    ErrorView,
> {
    match route {
        RouteView::Sandboxed { guest_path, .. } => Ok(guest_path),
        RouteView::NeedsApproval { .. } => Err(
            ErrorView::Tool(tool_name + " plan is not sandbox-runnable"@),
        ),
    }
}

/// The path that a guest is told, or why the tool cannot run as a guest.
pub fn guest_target_of(route: &FileToolRoute, tool_name: &str) -> (r: Result<
    String,
    FrameworkError,
>)
    ensures
        error::text_result(r) == guest_target(route@, tool_name@),
{
    match route.guest_path() {
        Some(path) => Ok(path.to_owned()),
        None => Err(
            FrameworkError::Tool(text::concat2(tool_name, " plan is not sandbox-runnable")),
        ),
    }
}

/// What a guest that ended leaves: what it printed, or the error that it failed with.
pub open spec fn guest_outcome(
    tool_name: Seq<char>,
    route: RouteView,
    capability: SandboxCapability,
    exit_code: i32,
    stdout: Seq<char>,
    stderr: Seq<char>,
) -> Result<Seq<char>, ErrorView> {
    if exit_code == 0 {
        Ok(stdout)
    } else {
        Err(
            guest_error(
                tool_name,
                match route {
                    RouteView::Sandboxed { guest_path, .. } => guest_path,
                    RouteView::NeedsApproval { .. } => Seq::empty(),
                },
                capability,
                exit_code,
                text::trim(stderr),
            ),
        )
    }
}

/// What a guest that ended leaves: what it printed, or the error that it failed with.
pub fn guest_result(
    tool_name: &str,
    route: &FileToolRoute,
    capability: SandboxCapability,
    exit_code: i32,
    stdout: String,
    stderr: &str,
) -> (r: Result<String, FrameworkError>)
    ensures
        error::text_result(r) == guest_outcome(
            tool_name@,
            route@,
            capability,
            exit_code,
            stdout@,
            stderr@,
        ),
{
    if exit_code == 0 {
        return Ok(stdout);
    }
    let target = match route.guest_path() {
        Some(path) => path.to_owned(),
        None => {
            let none = String::new();
            assert(none@ =~= Seq::<char>::empty());
            none
        },
    };
    Err(
        classify_wasm_tool_error(
            tool_name,
            target.as_str(),
            capability,
            exit_code,
            text::trimmed(stderr).as_str(),
        ),
    )
}

/// What a guest wrote is the answer, as it is, where it ended well; where it did not, it is told
/// whether the sandbox kept it out.
pub proof fn law_guests_answer_what_they_wrote(
    tool_name: Seq<char>,
    route: RouteView,
    capability: SandboxCapability,
    exit_code: i32,
    stdout: Seq<char>,
    stderr: Seq<char>,
)
    ensures
        exit_code == 0 ==> guest_outcome(tool_name, route, capability, exit_code, stdout, stderr)
            == Ok::<Seq<char>, ErrorView>(stdout),
        exit_code != 0 && !tells_of_denial(text::trim(stderr)) ==> guest_outcome(
            tool_name,
            route,
            capability,
            exit_code,
            stdout,
            stderr,
        ) == Err::<Seq<char>, ErrorView>(
            ErrorView::Tool(
                tool_name + " tool failed: exit_code="@ + text::decimal_int(exit_code as int)
                    + " stderr="@ + text::trim(stderr),
            ),
        ),
        exit_code != 0 && tells_of_denial(text::trim(stderr)) ==> match guest_outcome(
            tool_name,
            route,
            capability,
            exit_code,
            stdout,
            stderr,
        ) {
            Err(ErrorView::Sandbox { tool_name: named, capability: needed, diagnostic, .. }) => named
                == tool_name && needed == capability && diagnostic == text::trim(stderr),
            _ => false,
        },
{
}

/// The sandbox kept something out where it says so, in any case of letters.
pub proof fn law_denials_are_recognised(before: Seq<char>, told: Seq<char>, behind: Seq<char>)
    requires
        text::lower(told) == "permission denied"@ || text::lower(told) == "operation not permitted"@
            || text::lower(told) == "access denied"@ || text::lower(told)
            == "path denied by sandbox"@,
    ensures
        tells_of_denial(before + told + behind),
{
    let whole = text::lower(before + told + behind);
    let n = before.len() as int;
    assert(whole.subrange(n, n + told.len()) =~= text::lower(told));
    assert(text::occurs_at(whole, text::lower(told), n));
}

/// Without a sandbox the host does the work; with one the guest does, and what lies outside is
/// refused with its reason.
pub proof fn law_sandboxes_do_the_work(route: RouteView)
    ensures
        runner(false, route) == Ok::<Runner, ErrorView>(Runner::Host),
        route is Sandboxed ==> runner(true, route) == Ok::<Runner, ErrorView>(Runner::Guest),
        route matches RouteView::NeedsApproval { reason, .. } ==> runner(true, route) == Err::<
            Runner,
            ErrorView,
        >(ErrorView::Tool(reason)),
        route matches RouteView::Sandboxed { guest_path, .. } ==> guest_target(route, "read"@)
            == Ok::<Seq<char>, ErrorView>(guest_path),
        route is NeedsApproval ==> guest_target(route, "read"@) is Err,
{
}

/// Of the roots that a path lies in, the deepest is found, and of those that are as deep the last;
/// what is left of the path is what goes beyond it.
pub proof fn law_the_deepest_root_is_found(
    path: PathView,
    roots: Seq<Seq<char>>,
    cwd: Result<Seq<char>, Seq<char>>,
)
    requires
        forall|i: int|
            0 <= i < roots.len() ==> (#[trigger] sandbox::workspace_root_of(roots[i], cwd)) is Ok,
    ensures
        deepest(path, roots, cwd) is Ok,
        deepest(path, roots, cwd)->Ok_0 matches Some(found) ==> {
            &&& 0 <= found.index < roots.len()
            &&& found.root == paths::normalize(
                sandbox::workspace_root_of(roots[found.index], cwd)->Ok_0,
            )
            &&& path.within(found.root)
            &&& found.rest == path.beyond(found.root)
            &&& forall|i: int|
                0 <= i < roots.len() && path.within(
                    paths::normalize(
                        (#[trigger] sandbox::workspace_root_of(roots[i], cwd))->Ok_0,
                    ),
                ) ==> {
                    let root = paths::normalize(sandbox::workspace_root_of(roots[i], cwd)->Ok_0);
                    &&& root.parts.len() <= found.root.parts.len()
                    &&& root.parts.len() == found.root.parts.len() ==> i <= found.index
                }
        },
        deepest(path, roots, cwd)->Ok_0 is None ==> forall|i: int|
            0 <= i < roots.len() ==> !path.within(
                paths::normalize((#[trigger] sandbox::workspace_root_of(roots[i], cwd))->Ok_0),
            ),
    decreases roots.len(),
{
    if roots.len() > 0 {
        let before = roots.drop_last();
        let n = roots.len() - 1;
        assert forall|i: int| 0 <= i < before.len() implies (#[trigger] sandbox::workspace_root_of(
            before[i],
            cwd,
        )) is Ok by {
            assert(before[i] == roots[i]);
            assert(sandbox::workspace_root_of(roots[i], cwd) is Ok);
        }
        law_the_deepest_root_is_found(path, before, cwd);
        assert(sandbox::workspace_root_of(roots[n], cwd) is Ok);
        assert(roots[n] == roots.last());
        let last = paths::normalize(sandbox::workspace_root_of(roots[n], cwd)->Ok_0);
        assert forall|i: int| 0 <= i < before.len() implies before[i] == #[trigger] roots[i] by {}
        assert forall|i: int| 0 <= i < n implies sandbox::workspace_root_of(before[i], cwd)
            == #[trigger] sandbox::workspace_root_of(roots[i], cwd) by {}
    }
}

/// What may be read are the places for reading, and what may be written those and the places for
/// writing.
pub proof fn law_places_are_open_for_what_they_say(
    sandbox: ToolSandboxConfig,
    place: Seq<char>,
)
    ensures
        roots_for(sandbox, SandboxCapability::Read).contains(place) <==> text::views(
            sandbox.extra_readable_paths@,
        ).contains(place),
        roots_for(sandbox, SandboxCapability::Write).contains(place) <==> text::views(
            sandbox.extra_readable_paths@,
        ).contains(place) || text::views(sandbox.extra_writable_paths@).contains(place),
{
    let readable = text::views(sandbox.extra_readable_paths@);
    let writable = text::views(sandbox.extra_writable_paths@);
    let all = roots_for(sandbox, SandboxCapability::Write);
    if readable.contains(place) {
        let i = choose|i: int| 0 <= i < readable.len() && readable[i] == place;
        assert(all[i] == place);
    }
    if writable.contains(place) {
        let i = choose|i: int| 0 <= i < writable.len() && writable[i] == place;
        assert(all[readable.len() + i] == place);
    }
    if all.contains(place) {
        let i = choose|i: int| 0 <= i < all.len() && all[i] == place;
        if i < readable.len() {
            assert(readable[i] == place);
        } else {
            assert(writable[i - readable.len()] == place);
        }
    }
}

/// The value of a variable is the one that is set for it first, and nothing where none is set.
pub proof fn law_variables_are_found_by_name(
    env: Seq<(String, String)>,
    key: Seq<char>,
    i: int,
)
    ensures
        0 <= i < env.len() && env[i].0@ == key && (forall|k: int|
            0 <= k < i ==> (#[trigger] env[k]).0@ != key) ==> env_value(env, key) == env[i].1@,
        (forall|k: int| 0 <= k < env.len() ==> (#[trigger] env[k]).0@ != key) ==> env_value(env, key)
            == Seq::<char>::empty(),
    decreases env.len(),
{
    if env.len() > 0 {
        let rest = env.skip(1);
        if env[0].0@ != key {
            law_variables_are_found_by_name(rest, key, i - 1);
            assert forall|k: int| 0 <= k < rest.len() implies #[trigger] rest[k] == env[k + 1] by {}
        }
    }
}

/// Names of variables are letters, digits and underscores, and start with no digit.
pub proof fn law_variables_have_plain_names(c: char, first: bool)
    ensures
        env_name_char(c, first) <==> 'a' <= c <= 'z' || 'A' <= c <= 'Z' || c == '_' || ('0' <= c
            <= '9' && !first),
{
}

/// A variable in braces is replaced by its value; what stands before it stays, and what follows is
/// looked at likewise.
pub proof fn law_variables_in_braces_are_replaced(
    before: Seq<char>,
    key: Seq<char>,
    behind: Seq<char>,
    env: Seq<(String, String)>,
)
    requires
        forall|i: int| 0 <= i < before.len() ==> #[trigger] before[i] != '$',
        key.len() > 0,
        forall|i: int| 0 <= i < key.len() ==> env_name_char(#[trigger] key[i], i == 0),
    ensures
        ({
            let s = before + seq!['$', '{'] + key + seq!['}'] + behind;
            expanded(s, 0, env) == before + env_value(env, key) + expanded(
                s,
                (before.len() + key.len() + 3) as int,
                env,
            )
        }),
{
    let s = before + seq!['$', '{'] + key + seq!['}'] + behind;
    let n = before.len() as int;
    let close = n + 2 + key.len();
    assert(s[n] == '$' && s[n + 1] == '{' && s[close] == '}');
    text::lemma_class_from(s, CharClass::Only('}'), n + 2);
    let found = text::class_from(s, CharClass::Only('}'), n + 2);
    assert(found == close) by {
        if found < close {
            assert(s[found] == key[found - n - 2]);
        } else if found > close {
            assert(!CharClass::Only('}').has(s[close]));
        }
    }
    assert(s.subrange(n + 2, close) =~= key);
    lemma_expanded_behind(s, 0, n, env);
    assert(s.subrange(0, n) =~= before);
    assert(before + (env_value(env, key) + expanded(s, close + 1, env)) =~= before + env_value(
        env,
        key,
    ) + expanded(s, close + 1, env));
}

/// What holds no sign for a variable is kept.
proof fn lemma_expanded_behind(s: Seq<char>, from: int, to: int, env: Seq<(String, String)>)
    requires
        0 <= from <= to <= s.len(),
        forall|i: int| from <= i < to ==> #[trigger] s[i] != '$',
    ensures
        expanded(s, from, env) == s.subrange(from, to) + expanded(s, to, env),
    decreases to - from,
{
    if from < to {
        lemma_expanded_behind(s, from + 1, to, env);
        assert(seq![s[from]] + (s.subrange(from + 1, to) + expanded(s, to, env)) =~= s.subrange(
            from,
            to,
        ) + expanded(s, to, env));
    } else {
        assert(s.subrange(from, to) + expanded(s, to, env) =~= expanded(s, to, env));
    }
}

/// A variable behind its sign is replaced by its value, where its name ends.
pub proof fn law_variables_are_replaced(
    before: Seq<char>,
    key: Seq<char>,
    behind: Seq<char>,
    env: Seq<(String, String)>,
)
    requires
        forall|i: int| 0 <= i < before.len() ==> #[trigger] before[i] != '$',
        key.len() > 0,
        forall|i: int| 0 <= i < key.len() ==> env_name_char(#[trigger] key[i], i == 0),
        behind.len() == 0 || !env_name_char(behind[0], false),
    ensures
        ({
            let s = before + seq!['$'] + key + behind;
            expanded(s, 0, env) == before + env_value(env, key) + expanded(
                s,
                (before.len() + key.len() + 1) as int,
                env,
            )
        }),
{
    let s = before + seq!['$'] + key + behind;
    let n = before.len() as int;
    let end = n + 1 + key.len();
    assert(s[n] == '$');
    assert(s[n + 1] == key[0]);
    assert(env_name_char(key[0], true));
    assert(s.subrange(n + 1, end) =~= key);
    if end < s.len() {
        assert(s[end] == behind[0]);
    }
    lemma_name_goes_on(s, n + 1, n + 1, end, key);
    lemma_expanded_behind(s, 0, n, env);
    assert(s.subrange(0, n) =~= before);
    assert(before + (env_value(env, key) + expanded(s, end, env)) =~= before + env_value(env, key)
        + expanded(s, end, env));
}

/// A name ends where no character of names follows.
proof fn lemma_name_goes_on(s: Seq<char>, start: int, from: int, end: int, key: Seq<char>)
    requires
        0 <= start <= from <= end <= s.len(),
        start < end,
        key == s.subrange(start, end),
        forall|i: int| 0 <= i < key.len() ==> env_name_char(#[trigger] key[i], i == 0),
        end < s.len() ==> !env_name_char(s[end], false),
    ensures
        name_end(s, start, from) == end,
    decreases end - from,
{
    if from < end {
        assert(key[from - start] == s[from]);
        lemma_name_goes_on(s, start, from + 1, end, key);
    }
}

/// The home is what the tilde stands for, alone or at the start of a path, and nowhere else.
pub proof fn law_the_tilde_is_the_home(home: Seq<char>, rest: Seq<char>, other: Seq<char>)
    ensures
        home_path(seq!['~'], Some(home)) == Some(home),
        home_path(seq!['~', '/'], Some(home)) == Some(home),
        rest.len() > 0 ==> home_path(seq!['~', '/'] + rest, Some(home)) == Some(
            paths::joined_path(home, rest),
        ),
        other.len() == 0 || other[0] != '~' ==> home_path(other, Some(home)) is None,
        home_path(other, None) is None,
{
    assert((seq!['~', '/'] + rest).skip(2) =~= rest);
}

/// A path without variables and tilde leads where it says: from the root, or from the workspace. A
/// path of nothing is refused.
pub proof fn law_paths_lead_from_the_workspace(
    raw: Seq<char>,
    workspace_root: Seq<char>,
    env: Seq<(String, String)>,
    home: Option<Seq<char>>,
)
    ensures
        text::is_blank(raw) ==> tool_path(raw, workspace_root, env, home) is Err,
        !text::is_blank(raw) && text::trim(raw)[0] != '~' && (forall|i: int|
            0 <= i < text::trim(raw).len() ==> #[trigger] text::trim(raw)[i] != '$') ==> {
            &&& text::trim(raw)[0] == '/' ==> tool_path(raw, workspace_root, env, home) == Ok::<
                PathView,
                ErrorView,
            >(paths::normalize(text::trim(raw)))
            &&& text::trim(raw)[0] != '/' ==> tool_path(raw, workspace_root, env, home) == Ok::<
                PathView,
                ErrorView,
            >(paths::normalize(paths::joined_path(workspace_root, text::trim(raw))))
        },
{
    let given = text::trim(raw);
    if !text::is_blank(raw) && given[0] != '~' && (forall|i: int|
        0 <= i < given.len() ==> #[trigger] given[i] != '$') {
        law_plain_texts_are_not_expanded(given, 0, env);
        assert(given.skip(0) =~= given);
    }
}

/// A file is looked for where its path leads, and how it is reached is asked of that very place.
pub proof fn law_files_are_reached_where_they_lie(
    raw: Seq<char>,
    place: FileEnv,
    sandbox: ToolSandboxConfig,
    capability: SandboxCapability,
)
    ensures
        located(raw, place, sandbox, capability) matches Ok((path, route)) ==> {
            &&& tool_path(raw, place.workspace_root@, place.env@, text::opt_view(place.home))
                == Ok::<PathView, ErrorView>(path)
            &&& access(
                path.render(),
                place.workspace_root@,
                place.persona_root@,
                sandbox,
                capability,
                sandbox::cwd_view(place.cwd),
            ) == Ok::<RouteView, ErrorView>(route)
        },
        text::is_blank(raw) ==> located(raw, place, sandbox, capability) is Err,
{
}

/// The names of a path are its pieces but for those that say nothing and single dots.
pub proof fn law_spellings_keep_the_names(steps: Seq<Seq<char>>, step: Seq<char>)
    ensures
        step.len() == 0 || step == "."@ ==> spelled_names(steps.push(step)) == spelled_names(steps),
        step.len() > 0 && step != "."@ ==> spelled_names(steps.push(step)) == spelled_names(
            steps,
        ).push(step),
{
    assert(steps.push(step).drop_last() =~= steps);
}

} // verus!
