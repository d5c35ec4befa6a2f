//! What the tools that search directories have in common.
use vstd::prelude::*;
use crate::config::ToolSandboxConfig;
use crate::error::{ErrorView, FrameworkError, SandboxCapability};
use crate::paths::{NormalPath, PathView};
use crate::sandbox;
use crate::text;
use crate::time::Timestamp;
use crate::tools::file_access::{
    classify_file_tool_access, resolve_path_for_read, FileEnv, FileToolRoute, RouteView,
};
use crate::tools::file_access;

verus! {

/// How many things a search shows at most.
pub const SEARCH_LIMIT: usize = 100;

/// The path that is searched where none is given.
pub open spec fn start_of(path: Option<Seq<char>>) -> Seq<char> {
    match path {
        Some(path) => path,
        None => "."@,
    }
}

/// The directory that is searched.
pub open spec fn search_path(path: Option<Seq<char>>, place: FileEnv) -> Result<
    PathView,
    ErrorView,
> {
    file_access::tool_path(
        start_of(path),
        place.workspace_root@,
        place.env@,
        text::opt_view(place.home),
    )
}

/// The directory that is searched.
pub fn search_root(path: &Option<String>, place: &FileEnv) -> (r: Result<
    NormalPath,
    FrameworkError,
>)
    ensures
        match r {
            Ok(path) => Ok::<PathView, ErrorView>(path@),
            Err(error) => Err(error@),
        } == search_path(text::opt_view(*path), *place),
{
    let start = match path {
        Some(path) => path.as_str(),
        None => ".",
    };
    resolve_path_for_read(start, place.workspace_root.as_str(), &place.env, &place.home)
}

/// Where a search starts, and how it gets there.  The search wants a directory.
pub open spec fn searched(
    tool_name: Seq<char>,
    path: Option<Seq<char>>,
    place: FileEnv,
    sandbox: ToolSandboxConfig,
    is_dir: bool,
) -> Result<(PathView, RouteView), ErrorView> {
    match search_path(path, place) {
        Err(error) => Err(error),
        Ok(root) => if !is_dir {
            Err(ErrorView::Tool(tool_name + " path must be a directory: "@ + root.render()))
        } else {
            match file_access::access(
                root.render(),
                place.workspace_root@,
                place.persona_root@,
                sandbox,
                SandboxCapability::Read,
                sandbox::cwd_view(place.cwd),
            ) {
                Err(error) => Err(error),
                Ok(route) => Ok((root, route)),
            }
        },
    }
}

/// Where a search starts, and how it gets there, given whether there is a directory.
pub fn plan_search(
    tool_name: &str,
    path: &Option<String>,
    place: &FileEnv,
    sandbox: &ToolSandboxConfig,
    is_dir: bool,
) -> (r: Result<(NormalPath, FileToolRoute), FrameworkError>)
    ensures
        file_access::located_result(r) == searched(
            tool_name@,
            text::opt_view(*path),
            *place,
            *sandbox,
            is_dir,
        ),
{
    let root = match search_root(path, place) {
        Ok(root) => root,
        Err(error) => {
            return Err(error);
        },
    };
    let shown = root.display();
    if !is_dir {
        return Err(
            FrameworkError::Tool(
                text::concat3(tool_name, " path must be a directory: ", shown.as_str()),
            ),
        );
    }
    match classify_file_tool_access(
        shown.as_str(),
        place.workspace_root.as_str(),
        place.persona_root.as_str(),
        sandbox,
        SandboxCapability::Read,
        &place.cwd,
    ) {
        Ok(route) => Ok((root, route)),
        Err(error) => Err(error),
    }
}

/// What stands in a directory under a name.
#[derive(Debug, Clone, Copy, PartialEq, Eq, Structural)]
pub enum EntryKind {
    Directory,
    File,
    Other,
}

/// Something in a directory: its path, the way there from where the search started, and when it
/// was changed, as far as that is known.
#[derive(Debug, PartialEq, Eq)]
pub struct WalkEntry {
    pub path: String,
    pub relative: String,
    pub kind: EntryKind,
    pub modified: Option<Timestamp>,
}

/// The directories among the entries of one.
pub open spec fn directories(entries: Seq<WalkEntry>) -> Seq<Seq<char>>
    decreases entries.len(),
{
    if entries.len() == 0 {
        Seq::empty()
    } else {
        let before = directories(entries.drop_last());
        if entries.last().kind == EntryKind::Directory {
            before.push(entries.last().path@)
        } else {
            before
        }
    }
}

/// The directories that a walk has still to look into; the last comes first.
#[derive(Debug, PartialEq, Eq)]
pub struct Walk {
    pub pending: Vec<String>,
}

impl View for Walk {
    type V = Seq<Seq<char>>;

    open spec fn view(&self) -> Seq<Seq<char>> {
        text::views(self.pending@)
    }
}

impl Walk {
    /// A walk that starts at a directory.
    pub fn start(root: &str) -> (r: Self)
        ensures
            r@ == seq![root@],
    {
        let mut pending: Vec<String> = Vec::new();
        pending.push(root.to_owned());
        assert(text::views(pending@) =~= seq![root@]);
        Walk { pending }
    }

    /// The directory to look into next.
    pub fn step(&mut self) -> (r: Option<String>)
        ensures
            text::opt_view(r) == if old(self)@.len() == 0 {
                None::<Seq<char>>
            } else {
                Some(old(self)@.last())
            },
            final(self)@ == if old(self)@.len() == 0 {
                old(self)@
            } else {
                old(self)@.drop_last()
            },
    {
        let ghost before = self@;
        let last = self.pending.pop();
        assert(before.len() > 0 ==> self@ =~= before.drop_last());
        last
    }

    /// The directories that were seen in one are looked into later.
    pub fn saw(&mut self, entries: &Vec<WalkEntry>)
        ensures
            final(self)@ == old(self)@ + directories(entries@),
    {
        let ghost before = self@;
        let mut i: usize = 0;
        assert(entries@.take(0) =~= Seq::<WalkEntry>::empty());
        assert(before + Seq::<Seq<char>>::empty() =~= before);
        while i < entries.len()
            invariant
                i <= entries@.len(),
                self@ == before + directories(entries@.take(i as int)),
            decreases entries@.len() - i,
        {
            let ghost seen = self@;
            proof {
                assert(entries@.take(i + 1).drop_last() =~= entries@.take(i as int));
                assert(entries@.take(i + 1).last() == entries@[i as int]);
            }
            if entries[i].kind == EntryKind::Directory {
                self.pending.push(entries[i].path.clone());
                assert(self@ =~= seen.push(entries@[i as int].path@));
            }
            assert(self@ =~= before + directories(entries@.take(i + 1)));
            i = i + 1;
        }
        assert(entries@.take(entries@.len() as int) =~= entries@);
    }
}

/// What a tool answers that cannot look into a directory.
pub fn cannot_read(tool_name: &str, dir: &str, message: &str) -> (r: FrameworkError)
    ensures
        r@ == ErrorView::Tool(tool_name@ + " failed to read "@ + dir@ + ": "@ + message@),
{
    let head = text::concat3(tool_name, " failed to read ", dir);
    FrameworkError::Tool(text::concat3(head.as_str(), ": ", message))
}

/// What a tool answers that cannot go through a directory.
pub fn cannot_walk(tool_name: &str, message: &str) -> (r: FrameworkError)
    ensures
        r@ == ErrorView::Tool(tool_name@ + " failed to walk directory: "@ + message@),
{
    FrameworkError::Tool(text::concat3(tool_name, " failed to walk directory: ", message))
}

/// What a tool answers that cannot tell what something is.
pub fn cannot_inspect(tool_name: &str, path: &str, message: &str) -> (r: FrameworkError)
    ensures
        r@ == ErrorView::Tool(tool_name@ + " failed to inspect "@ + path@ + ": "@ + message@),
{
    let head = text::concat3(tool_name, " failed to inspect ", path);
    FrameworkError::Tool(text::concat3(head.as_str(), ": ", message))
}

/// When something was changed, or else the start of the year 1970.
pub open spec fn change_time(modified: Option<Timestamp>) -> Timestamp {
    match modified {
        Some(modified) => modified,
        None => Timestamp { secs: 0, nanos: 0 },
    }
}

/// When something was changed, or else the start of the year 1970.
pub fn changed_at(modified: Option<Timestamp>) -> (r: Timestamp)
    ensures
        r == change_time(modified),
{
    match modified {
        Some(modified) => modified,
        None => Timestamp { secs: 0, nanos: 0 },
    }
}

/// Every directory that is seen is looked into: a step takes one away, and nothing else does.
pub proof fn law_walks_forget_no_directory(
    pending: Seq<Seq<char>>,
    entries: Seq<WalkEntry>,
    i: int,
)
    requires
        0 <= i < entries.len(),
        entries[i].kind == EntryKind::Directory,
    ensures
        (pending + directories(entries)).contains(entries[i].path@),
        forall|dir: Seq<char>|
            pending.contains(dir) ==> #[trigger] (pending + directories(entries)).contains(dir),
{
    let all = pending + directories(entries);
    lemma_directory_seen(entries, i);
    let k = choose|k: int|
        0 <= k < directories(entries).len() && directories(entries)[k] == entries[i].path@;
    assert(all[pending.len() + k] == entries[i].path@);
    assert forall|dir: Seq<char>| pending.contains(dir) implies #[trigger] all.contains(dir) by {
        let k = choose|k: int| 0 <= k < pending.len() && pending[k] == dir;
        assert(all[k] == dir);
    }
}

/// A directory among the entries is among the directories.
proof fn lemma_directory_seen(entries: Seq<WalkEntry>, i: int)
    requires
        0 <= i < entries.len(),
        entries[i].kind == EntryKind::Directory,
    ensures
        directories(entries).contains(entries[i].path@),
    decreases entries.len(),
{
    if i < entries.len() - 1 {
        lemma_directory_seen(entries.drop_last(), i);
        let before = directories(entries.drop_last());
        let k = choose|k: int| 0 <= k < before.len() && before[k] == entries[i].path@;
        assert(directories(entries)[k] == entries[i].path@);
    } else {
        assert(directories(entries).last() == entries[i].path@);
    }
}

/// A search starts where it is asked to, and in the workspace where it is not; it needs a directory.
pub proof fn law_searches_start_where_asked(
    tool_name: Seq<char>,
    path: Option<Seq<char>>,
    place: FileEnv,
    sandbox: ToolSandboxConfig,
    is_dir: bool,
)
    ensures
        search_path(path, place) == file_access::tool_path(
            match path {
                Some(path) => path,
                None => "."@,
            },
            place.workspace_root@,
            place.env@,
            text::opt_view(place.home),
        ),
        searched(tool_name, path, place, sandbox, is_dir) matches Ok((root, route)) ==> {
            &&& is_dir
            &&& search_path(path, place) == Ok::<PathView, ErrorView>(root)
            &&& file_access::access(
                root.render(),
                place.workspace_root@,
                place.persona_root@,
                sandbox,
                SandboxCapability::Read,
                sandbox::cwd_view(place.cwd),
            ) == Ok::<RouteView, ErrorView>(route)
        },
        !is_dir ==> searched(tool_name, path, place, sandbox, is_dir) is Err,
{
}

/// A file whose last change is not known counts as never changed.
pub proof fn law_unknown_changes_come_last(modified: Option<Timestamp>)
    ensures
        modified is Some ==> change_time(modified) == modified->0,
        modified is None ==> change_time(modified) == (Timestamp { secs: 0, nanos: 0 }),
{
}

/// A walk looks into the directory that it saw last, and forgets it then; what it sees is to be
/// looked into behind the rest.
pub proof fn law_walks_look_into_every_directory(walk: &mut Walk, r: Option<String>)
    requires
        call_ensures(Walk::step, (walk,), r),
    ensures
        r is None <==> old(walk).pending@.len() == 0,
        r matches Some(dir) ==> dir@ == old(walk).pending@.last()@ && final(walk).pending@.len()
            == old(walk).pending@.len() - 1,
        forall|i: int|
            0 <= i < final(walk).pending@.len() ==> (#[trigger] final(walk).pending@[i])@ == old(
                walk,
            ).pending@[i]@,
{
    let before = old(walk)@;
    let after = final(walk)@;
    assert(before.len() == old(walk).pending@.len());
    assert(after.len() == final(walk).pending@.len());
    assert forall|i: int| 0 <= i < final(walk).pending@.len() implies (
    #[trigger] final(walk).pending@[i])@ == old(walk).pending@[i]@ by {
        assert(after[i] == before[i]);
    }
}

/// The directories that a walk sees are kept, behind those that it knows.
pub proof fn law_seen_directories_are_kept(
    walk: &mut Walk,
    entries: &Vec<WalkEntry>,
    i: int,
    k: int,
)
    requires
        call_ensures(Walk::saw, (walk, entries), ()),
    ensures
        0 <= k < old(walk)@.len() ==> final(walk)@.len() >= old(walk)@.len() && final(walk)@[k]
            == old(walk)@[k],
        0 <= i < entries@.len() && entries@[i].kind == EntryKind::Directory ==> final(walk)@.contains(entries@[i].path@),
{
    if 0 <= i < entries@.len() && entries@[i].kind == EntryKind::Directory {
        law_walks_forget_no_directory(old(walk)@, entries@, i);
    }
}

} // verus!
