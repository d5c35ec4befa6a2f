//! The list tool: what stands in a directory and the directories below it.
use vstd::prelude::*;
use crate::config::FileToolConfig;
use crate::error::{ErrorView, FrameworkError};
use crate::json::{Json, JsonView};
use crate::json;
use crate::order::{sort_texts, text_not_after};
use crate::order;
use crate::paths::{NormalPath, PathView};
use crate::paths;
use crate::patterns::{compile_glob, glob_matches};
use crate::patterns;
use crate::text;
use crate::tools::common::ToolExecutionKind;
use crate::tools::file_access::{guest_target_of, FileEnv, FileToolRoute, RouteView};
use crate::tools::file_access;
use crate::tools::search::{cannot_inspect, cannot_walk, plan_search, EntryKind, SEARCH_LIMIT};
use crate::tools::search;

verus! {

/// The arguments of the tool.
#[derive(Debug, PartialEq, Eq)]
pub struct ListArgs {
    pub path: Option<String>,
    pub ignore: Option<Vec<String>>,
}

/// What is listed.
#[derive(Debug, PartialEq, Eq)]
pub struct ListPlan {
    pub host_path: NormalPath,
    pub route: FileToolRoute,
    pub ignore: Vec<String>,
}

/// The list tool, with its settings.
#[derive(Debug, PartialEq, Eq)]
pub struct ListTool {
    pub config: FileToolConfig,
}

impl ListTool {
    /// What the tool is called.
    pub fn name(&self) -> (r: &'static str)
        ensures
            r@ == "list"@,
    {
        "list"
    }

    /// What the tool is for.
    pub fn description(&self) -> (r: &'static str)
        ensures
            r@ == "List files and directories using JSON: {path?, ignore?}."@,
    {
        "List files and directories using JSON: {path?, ignore?}."
    }

    /// What arguments the tool takes.
    pub fn input_schema_json(&self) -> (r: &'static str)
        ensures
            r@ == "{\"type\":\"object\",\"properties\":{\"path\":{\"type\":\"string\"},\"ignore\":{\"type\":\"array\",\"items\":{\"type\":\"string\"}}},\"required\":[]}"@,
    {
        "{\"type\":\"object\",\"properties\":{\"path\":{\"type\":\"string\"},\"ignore\":{\"type\":\"array\",\"items\":{\"type\":\"string\"}}},\"required\":[]}"
    }

    /// How the tool can run.
    pub fn supported_execution_kinds(&self) -> (r: Vec<ToolExecutionKind>)
        ensures
            r@ == seq![ToolExecutionKind::Direct, ToolExecutionKind::WasmSandbox],
    {
        vec![ToolExecutionKind::Direct, ToolExecutionKind::WasmSandbox]
    }

    /// The program that runs as a guest.
    pub fn artifact_name(&self) -> (r: &'static str)
        ensures
            r@ == "list_tool.wasm"@,
    {
        "list_tool.wasm"
    }

    /// How many seconds a guest may take.
    pub fn timeout_seconds(&self) -> (r: u64)
        ensures
            r == match self.config.timeout_seconds {
                Some(seconds) => seconds,
                None => 15,
            },
    {
        match self.config.timeout_seconds {
            Some(seconds) => seconds,
            None => 15,
        }
    }

    /// What is listed.
    pub fn plan(&self, args: ListArgs, place: &FileEnv, is_dir: bool) -> (r: Result<
        ListPlan,
        FrameworkError,
    >)
        ensures
            match r {
                Ok(plan) => Ok::<(PathView, RouteView), ErrorView>((plan.host_path@, plan.route@)),
                Err(error) => Err(error@),
            } == search::searched(
                "list"@,
                text::opt_view(args.path),
                *place,
                self.config.sandbox,
                is_dir,
            ),
            r is Ok ==> r->Ok_0.ignore@ == match args.ignore {
                Some(ignore) => ignore@,
                None => Seq::<String>::empty(),
            },
    {
        match plan_search("list", &args.path, place, &self.config.sandbox, is_dir) {
            Ok((host_path, route)) => Ok(
                ListPlan {
                    host_path,
                    route,
                    ignore: match args.ignore {
                        Some(ignore) => ignore,
                        None => Vec::new(),
                    },
                },
            ),
            Err(error) => Err(error),
        }
    }
}

/// Texts as values of a document.
pub open spec fn text_items(texts: Seq<String>) -> Seq<JsonView> {
    Seq::new(texts.len(), |i: int| JsonView::Str(texts[i]@))
}

/// Texts as values of a document.
fn text_array(texts: &Vec<String>) -> (r: Json)
    ensures
        r.wf(),
        r@ == JsonView::Array(text_items(texts@)),
{
    let mut items: Vec<Json> = Vec::new();
    let mut i: usize = 0;
    assert(json::items_view(items@) =~= text_items(texts@).take(0));
    while i < texts.len()
        invariant
            i <= texts@.len(),
            json::all_wf(items@),
            json::items_view(items@) == text_items(texts@).take(i as int),
        decreases texts@.len() - i,
    {
        json::push_item(&mut items, Json::text(texts[i].as_str()));
        assert(text_items(texts@).take(i + 1) =~= text_items(texts@).take(i as int).push(
            JsonView::Str(texts@[i as int]@),
        ));
        i = i + 1;
    }
    assert(text_items(texts@).take(texts@.len() as int) =~= text_items(texts@));
    Json::array(items)
}

/// What a guest is told.
pub fn guest_request(plan: &ListPlan) -> (r: Result<Json, FrameworkError>)
    ensures
        match r {
            Ok(request) => Ok::<JsonView, ErrorView>(request@),
            Err(error) => Err(error@),
        } == match file_access::guest_target(plan.route@, "list"@) {
            Ok(path) => Ok::<JsonView, ErrorView>(
                JsonView::Object(
                    map![
                        "path"@ => JsonView::Str(path),
                        "ignore"@ => JsonView::Array(text_items(plan.ignore@)),
                    ],
                ),
            ),
            Err(error) => Err(error),
        },
        r is Ok ==> r->Ok_0.wf(),
{
    match guest_target_of(&plan.route, "list") {
        Ok(path) => Ok(
            Json::object().with("path", Json::text(path.as_str())).with(
                "ignore",
                text_array(&plan.ignore),
            ),
        ),
        Err(error) => Err(error),
    }
}

/// The patterns of what is never listed.
pub open spec fn usual_patterns() -> Seq<Seq<char>> {
    seq![
        "node_modules/**"@,
        "__pycache__/**"@,
        ".git/**"@,
        "dist/**"@,
        "build/**"@,
        "target/**"@,
        "vendor/**"@,
        "bin/**"@,
        "obj/**"@,
        ".idea/**"@,
        ".vscode/**"@,
        ".cache/**"@,
        "cache/**"@,
        "logs/**"@,
        ".venv/**"@,
        "venv/**"@,
        "env/**"@,
    ]
}

/// The patterns of what is never listed.
fn usual_ignored() -> (r: Vec<String>)
    ensures
        text::views(r@) == usual_patterns(),
{
    let usual = vec![
        "node_modules/**".to_owned(),
        "__pycache__/**".to_owned(),
        ".git/**".to_owned(),
        "dist/**".to_owned(),
        "build/**".to_owned(),
        "target/**".to_owned(),
        "vendor/**".to_owned(),
        "bin/**".to_owned(),
        "obj/**".to_owned(),
        ".idea/**".to_owned(),
        ".vscode/**".to_owned(),
        ".cache/**".to_owned(),
        "cache/**".to_owned(),
        "logs/**".to_owned(),
        ".venv/**".to_owned(),
        "venv/**".to_owned(),
        "env/**".to_owned(),
    ];
    assert(text::views(usual@) =~= usual_patterns());
    usual
}

/// Why one of some patterns cannot be used: the first that is refused decides.
pub open spec fn first_refused(given: Seq<Seq<char>>) -> Option<(Seq<char>, Seq<char>)>
    decreases given.len(),
{
    if given.len() == 0 {
        None
    } else {
        match first_refused(given.drop_last()) {
            Some(refused) => Some(refused),
            None => match patterns::glob_error(given.last()) {
                Some(message) => Some((given.last(), message)),
                None => None,
            },
        }
    }
}

/// Why the patterns cannot be used.
pub open spec fn ignore_error(ignore: Seq<Seq<char>>) -> Option<ErrorView> {
    match first_refused(usual_patterns()) {
        Some((_, message)) => Some(
            ErrorView::Tool("invalid built-in ignore pattern: "@ + message),
        ),
        None => match first_refused(ignore) {
            Some((pattern, message)) => Some(
                ErrorView::Tool("invalid ignore pattern '"@ + pattern + "': "@ + message),
            ),
            None => None,
        },
    }
}

/// The patterns that compiled ones were made from.
pub open spec fn sources(compiled: Seq<glob::Pattern>) -> Seq<Seq<char>> {
    Seq::new(compiled.len(), |i: int| patterns::glob_source(compiled[i]))
}

/// Patterns that can be used, or the first that cannot and why.
fn compile_all(given: &Vec<String>) -> (r: Result<Vec<glob::Pattern>, (String, String)>)
    ensures
        match r {
            Ok(compiled) => first_refused(text::views(given@)) is None && sources(compiled@)
                == text::views(given@),
            Err((pattern, message)) => first_refused(text::views(given@)) == Some(
                (pattern@, message@),
            ),
        },
{
    let ghost all = text::views(given@);
    let mut compiled: Vec<glob::Pattern> = Vec::new();
    let mut i: usize = 0;
    assert(all.take(0) =~= Seq::<Seq<char>>::empty());
    while i < given.len()
        invariant
            i <= given@.len(),
            all == text::views(given@),
            first_refused(all.take(i as int)) is None,
            sources(compiled@) =~= all.take(i as int),
        decreases given@.len() - i,
    {
        let ghost before = sources(compiled@);
        proof {
            assert(all.take(i + 1).drop_last() =~= all.take(i as int));
            assert(all.take(i + 1).last() == given@[i as int]@);
        }
        match compile_glob(given[i].as_str()) {
            Ok(pattern) => {
                compiled.push(pattern);
                assert(sources(compiled@) =~= before.push(given@[i as int]@));
            },
            Err(message) => {
                proof {
                    lemma_refused_early(all, i + 1);
                }
                return Err((given[i].clone(), message));
            },
        }
        i = i + 1;
    }
    assert(all.take(all.len() as int) =~= all);
    Ok(compiled)
}

/// The first refused pattern stays the first, whatever follows.
proof fn lemma_refused_early(given: Seq<Seq<char>>, n: int)
    requires
        0 <= n <= given.len(),
        first_refused(given.take(n)) is Some,
    ensures
        first_refused(given) == first_refused(given.take(n)),
    decreases given.len(),
{
    if n == given.len() {
        assert(given.take(n) =~= given);
    } else {
        assert(given.drop_last().take(n) =~= given.take(n));
        lemma_refused_early(given.drop_last(), n);
    }
}

/// Whether one of some patterns accepts a way.
pub open spec fn ignored(given: Seq<Seq<char>>, relative: Seq<char>) -> bool {
    exists|i: int| 0 <= i < given.len() && #[trigger] patterns::glob_accepts(given[i], relative)
}

/// Whether one of some patterns accepts a way.
pub fn is_ignored(relative: &str, compiled: &Vec<glob::Pattern>) -> (r: bool)
    ensures
        r == ignored(sources(compiled@), relative@),
{
    let mut i: usize = 0;
    while i < compiled.len()
        invariant
            i <= compiled@.len(),
            forall|k: int|
                0 <= k < i ==> !(#[trigger] patterns::glob_accepts(
                    sources(compiled@)[k],
                    relative@,
                )),
        decreases compiled@.len() - i,
    {
        assert(sources(compiled@)[i as int] == patterns::glob_source(compiled@[i as int]));
        if glob_matches(&compiled[i], relative) {
            return true;
        }
        i = i + 1;
    }
    false
}

/// Something in a directory: its name, and what it is or why that is not known.
#[derive(Debug, PartialEq, Eq)]
pub struct ListEntry {
    pub name: String,
    pub kind: Result<EntryKind, String>,
}

/// A directory that is listed: the one it stands in, its name, and the way there.  The first is the
/// one where the list starts.
#[derive(Debug, PartialEq, Eq)]
pub struct ListedDir {
    pub parent: usize,
    pub name: String,
    pub relative: String,
}

/// What was seen so far.
#[verifier::ext_equal]
pub struct SeenView {
    /// For each directory the one it stands in, its name, and the way there.
    pub dirs: Seq<(int, Seq<char>, Seq<char>)>,
    /// The directories to look into; the last comes first.
    pub pending: Seq<int>,
    /// For each file the directory it stands in, and its name.
    pub files: Seq<(int, Seq<char>)>,
}

/// The way to something in a directory.
pub open spec fn way(dir: Seq<char>, name: Seq<char>) -> Seq<char> {
    if dir.len() == 0 {
        name
    } else {
        dir + "/"@ + name
    }
}

/// What was seen after looking at something in a directory.
pub open spec fn noted(
    seen: SeenView,
    dir: int,
    entry: Result<ListEntry, String>,
    root: Seq<char>,
    ignore: Seq<Seq<char>>,
) -> Result<SeenView, ErrorView> {
    if seen.files.len() >= SEARCH_LIMIT {
        Ok(seen)
    } else {
        match entry {
            Err(message) => Err(
                ErrorView::Tool("list"@ + " failed to walk directory: "@ + message@),
            ),
            Ok(entry) => {
                let relative = way(seen.dirs[dir].2, entry.name@);
                if ignored(ignore, relative) {
                    Ok(seen)
                } else {
                    match entry.kind {
                        Err(message) => Err(
                            ErrorView::Tool(
                                "list"@ + " failed to inspect "@ + paths::joined_path(
                                    root,
                                    relative,
                                ) + ": "@ + message@,
                            ),
                        ),
                        Ok(EntryKind::Directory) => Ok(
                            SeenView {
                                dirs: seen.dirs.push((dir, entry.name@, relative)),
                                pending: seen.pending.push(seen.dirs.len() as int),
                                files: seen.files,
                            },
                        ),
                        Ok(EntryKind::File) => Ok(
                            SeenView { files: seen.files.push((dir, entry.name@)), ..seen },
                        ),
                        Ok(EntryKind::Other) => Ok(seen),
                    }
                }
            },
        }
    }
}

/// What was seen after looking at what stands in a directory.
pub open spec fn all_noted(
    seen: SeenView,
    dir: int,
    entries: Seq<Result<ListEntry, String>>,
    root: Seq<char>,
    ignore: Seq<Seq<char>>,
) -> Result<SeenView, ErrorView>
    decreases entries.len(),
{
    if entries.len() == 0 {
        Ok(seen)
    } else {
        match all_noted(seen, dir, entries.drop_last(), root, ignore) {
            Err(error) => Err(error),
            Ok(before) => noted(before, dir, entries.last(), root, ignore),
        }
    }
}

/// An error stays the error, whatever follows.
proof fn lemma_error_stays(
    seen: SeenView,
    dir: int,
    entries: Seq<Result<ListEntry, String>>,
    root: Seq<char>,
    ignore: Seq<Seq<char>>,
    n: int,
)
    requires
        0 <= n <= entries.len(),
        all_noted(seen, dir, entries.take(n), root, ignore) is Err,
    ensures
        all_noted(seen, dir, entries, root, ignore) == all_noted(
            seen,
            dir,
            entries.take(n),
            root,
            ignore,
        ),
    decreases entries.len(),
{
    if n == entries.len() {
        assert(entries.take(n) =~= entries);
    } else {
        assert(entries.drop_last().take(n) =~= entries.take(n));
        lemma_error_stays(seen, dir, entries.drop_last(), root, ignore, n);
    }
}

/// A walk that lists what it sees.
#[derive(Debug)]
pub struct ListWalk {
    pub ignore: Vec<glob::Pattern>,
    pub dirs: Vec<ListedDir>,
    pub pending: Vec<usize>,
    pub files: Vec<(usize, String)>,
}

impl View for ListWalk {
    type V = SeenView;

    open spec fn view(&self) -> SeenView {
        SeenView {
            dirs: Seq::new(
                self.dirs@.len(),
                |i: int|
                    (self.dirs@[i].parent as int, self.dirs@[i].name@, self.dirs@[i].relative@),
            ),
            pending: Seq::new(self.pending@.len(), |i: int| self.pending@[i] as int),
            files: Seq::new(
                self.files@.len(),
                |i: int| (self.files@[i].0 as int, self.files@[i].1@),
            ),
        }
    }
}

impl SeenView {
    /// Whether every directory was seen in an earlier one, and what was seen stands somewhere.
    pub open spec fn wf(self) -> bool {
        &&& self.dirs.len() > 0
        &&& forall|i: int| 0 < i < self.dirs.len() ==> 0 <= (#[trigger] self.dirs[i]).0 < i
        &&& forall|i: int|
            0 <= i < self.pending.len() ==> 0 <= #[trigger] self.pending[i] < self.dirs.len()
    }
}

/// What was seen before anything is looked at.
pub open spec fn nothing_seen() -> SeenView {
    SeenView {
        dirs: seq![(0, Seq::empty(), Seq::empty())],
        pending: seq![0],
        files: Seq::empty(),
    }
}

impl ListWalk {
    /// A walk that leaves out what matches the usual patterns and some more.
    pub fn start(ignore: &Vec<String>) -> (r: Result<Self, FrameworkError>)
        ensures
            match r {
                Ok(walk) => ignore_error(text::views(ignore@)) is None && walk@ == nothing_seen()
                    && walk@.wf() && sources(walk.ignore@) == usual_patterns() + text::views(
                    ignore@,
                ),
                Err(error) => ignore_error(text::views(ignore@)) == Some(error@),
            },
    {
        let mut compiled = match compile_all(&usual_ignored()) {
            Ok(compiled) => compiled,
            Err((_, message)) => {
                return Err(
                    FrameworkError::Tool(
                        text::concat2("invalid built-in ignore pattern: ", message.as_str()),
                    ),
                );
            },
        };
        let ghost usual = compiled@;
        let mut more = match compile_all(ignore) {
            Ok(more) => more,
            Err((pattern, message)) => {
                let head = text::concat3("invalid ignore pattern '", pattern.as_str(), "': ");
                return Err(
                    FrameworkError::Tool(text::concat2(head.as_str(), message.as_str())),
                );
            },
        };
        let ghost added = more@;
        compiled.append(&mut more);
        assert(sources(compiled@) =~= sources(usual) + sources(added));
        let mut dirs: Vec<ListedDir> = Vec::new();
        let name = String::new();
        let relative = String::new();
        assert(name@ =~= Seq::<char>::empty() && relative@ =~= Seq::<char>::empty());
        dirs.push(ListedDir { parent: 0, name, relative });
        let mut pending: Vec<usize> = Vec::new();
        pending.push(0);
        let walk = ListWalk { ignore: compiled, dirs, pending, files: Vec::new() };
        proof {
            assert(walk@.dirs =~= nothing_seen().dirs);
            assert(walk@.pending =~= nothing_seen().pending);
            assert(walk@.files =~= nothing_seen().files);
        }
        Ok(walk)
    }

    /// The directory to look into next, with the way there.
    pub fn step(&mut self) -> (r: Option<(usize, String)>)
        requires
            old(self)@.wf(),
        ensures
            final(self)@.wf(),
            final(self).ignore == old(self).ignore,
            match r {
                None => old(self)@.pending.len() == 0 && final(self)@ == old(self)@,
                Some((dir, relative)) => old(self)@.pending.len() > 0 && dir
                    == old(self)@.pending.last() && dir < old(self)@.dirs.len() && relative@
                    == old(self)@.dirs[dir as int].2 && final(self)@ == (SeenView {
                    pending: old(self)@.pending.drop_last(),
                    ..old(self)@
                }),
            },
    {
        let ghost before = self@;
        match self.pending.pop() {
            None => None,
            Some(dir) => {
                proof {
                    assert(self@.pending =~= before.pending.drop_last());
                    assert(self@.dirs =~= before.dirs && self@.files =~= before.files);
                    assert(before.pending[before.pending.len() - 1] == dir);
                    assert forall|i: int| 0 <= i < self@.pending.len() implies 0
                        <= #[trigger] self@.pending[i] < self@.dirs.len() by {
                        assert(self@.pending[i] == before.pending[i]);
                    }
                }
                Some((dir, self.dirs[dir].relative.clone()))
            },
        }
    }

    /// Looks at something in a directory.
    fn note(&mut self, dir: usize, entry: &Result<ListEntry, String>, root: &str) -> (r: Result<
        (),
        FrameworkError,
    >)
        requires
            old(self)@.wf(),
            dir < old(self)@.dirs.len(),
        ensures
            match r {
                Ok(()) => noted(
                    old(self)@,
                    dir as int,
                    *entry,
                    root@,
                    sources(old(self).ignore@),
                ) == Ok::<SeenView, ErrorView>(final(self)@),
                Err(error) => noted(
                    old(self)@,
                    dir as int,
                    *entry,
                    root@,
                    sources(old(self).ignore@),
                ) == Err::<SeenView, ErrorView>(error@),
            },
            final(self)@.wf(),
            final(self)@.dirs.len() >= old(self)@.dirs.len(),
            final(self).ignore == old(self).ignore,
    {
        let ghost before = self@;
        if self.files.len() >= SEARCH_LIMIT {
            return Ok(());
        }
        let entry = match entry {
            Ok(entry) => entry,
            Err(message) => {
                return Err(cannot_walk("list", message.as_str()));
            },
        };
        let base = self.dirs[dir].relative.as_str();
        let relative = if base.is_empty() {
            entry.name.clone()
        } else {
            text::concat3(base, "/", entry.name.as_str())
        };
        assert(relative@ == way(before.dirs[dir as int].2, entry.name@));
        if is_ignored(relative.as_str(), &self.ignore) {
            return Ok(());
        }
        match &entry.kind {
            Err(message) => Err(
                cannot_inspect(
                    "list",
                    paths::join(root, relative.as_str()).as_str(),
                    message.as_str(),
                ),
            ),
            Ok(EntryKind::Directory) => {
                let ghost to = relative@;
                self.pending.push(self.dirs.len());
                self.dirs.push(ListedDir { parent: dir, name: entry.name.clone(), relative });
                proof {
                    assert(self@.dirs =~= before.dirs.push((dir as int, entry.name@, to)));
                    assert(self@.pending =~= before.pending.push(before.dirs.len() as int));
                    assert(self@.files =~= before.files);
                    assert forall|i: int| 0 < i < self@.dirs.len() implies 0 <= (
                    #[trigger] self@.dirs[i]).0 < i by {
                        if i < before.dirs.len() {
                            assert(self@.dirs[i] == before.dirs[i]);
                        }
                    }
                    assert forall|i: int| 0 <= i < self@.pending.len() implies 0
                        <= #[trigger] self@.pending[i] < self@.dirs.len() by {
                        if i < before.pending.len() {
                            assert(self@.pending[i] == before.pending[i]);
                        }
                    }
                }
                Ok(())
            },
            Ok(EntryKind::File) => {
                self.files.push((dir, entry.name.clone()));
                proof {
                    assert(self@.files =~= before.files.push((dir as int, entry.name@)));
                    assert(self@.dirs =~= before.dirs && self@.pending =~= before.pending);
                }
                Ok(())
            },
            Ok(EntryKind::Other) => Ok(()),
        }
    }

    /// Looks at what stands in a directory.
    pub fn saw(
        &mut self,
        dir: usize,
        entries: &Vec<Result<ListEntry, String>>,
        root: &str,
    ) -> (r: Result<(), FrameworkError>)
        requires
            old(self)@.wf(),
            dir < old(self)@.dirs.len(),
        ensures
            match r {
                Ok(()) => all_noted(
                    old(self)@,
                    dir as int,
                    entries@,
                    root@,
                    sources(old(self).ignore@),
                ) == Ok::<SeenView, ErrorView>(final(self)@),
                Err(error) => all_noted(
                    old(self)@,
                    dir as int,
                    entries@,
                    root@,
                    sources(old(self).ignore@),
                ) == Err::<SeenView, ErrorView>(error@),
            },
            final(self)@.wf(),
            final(self).ignore == old(self).ignore,
    {
        let ghost before = self@;
        let ghost ignore = sources(self.ignore@);
        let mut i: usize = 0;
        assert(entries@.take(0) =~= Seq::<Result<ListEntry, String>>::empty());
        while i < entries.len()
            invariant
                i <= entries@.len(),
                self@.wf(),
                dir < before.dirs.len(),
                before.dirs.len() <= self@.dirs.len(),
                before == old(self)@,
                self.ignore == old(self).ignore,
                ignore == sources(self.ignore@),
                all_noted(before, dir as int, entries@.take(i as int), root@, ignore) == Ok::<
                    SeenView,
                    ErrorView,
                >(self@),
            decreases entries@.len() - i,
        {
            proof {
                assert(entries@.take(i + 1).drop_last() =~= entries@.take(i as int));
                assert(entries@.take(i + 1).last() == entries@[i as int]);
            }
            match self.note(dir, &entries[i], root) {
                Ok(()) => {},
                Err(error) => {
                    proof {
                        lemma_error_stays(before, dir as int, entries@, root@, ignore, i + 1);
                    }
                    return Err(error);
                },
            }
            i = i + 1;
        }
        assert(entries@.take(entries@.len() as int) =~= entries@);
        Ok(())
    }

    /// How the list is shown.
    pub fn render(&self, root: &str) -> (r: String)
        requires
            self@.wf(),
        ensures
            r@ == shown_list(self@, root@),
    {
        let title = text::concat2(root, "/\n");
        text::concat2(title.as_str(), self.render_dir(0, 0).as_str())
    }

    /// How a directory is shown.
    fn render_dir(&self, dir: usize, depth: usize) -> (r: String)
        requires
            self@.wf(),
            dir < self@.dirs.len(),
            depth <= dir,
        ensures
            r@ == shown_dir(self@, dir as int, depth as nat),
        decreases self@.dirs.len() - dir, 1int, 0int,
    {
        let head = if depth > 0 {
            text::concat3(indented(depth).as_str(), self.dirs[dir].name.as_str(), "/\n")
        } else {
            let none = String::new();
            assert(none@ =~= Seq::<char>::empty());
            none
        };
        let children = self.sorted_children(dir);
        let inner = self.render_children(&children, children.len(), dir, depth);
        assert(as_ints(children@).take(children@.len() as int) =~= as_ints(children@));
        let files = self.render_files(dir, depth);
        text::concat3(head.as_str(), inner.as_str(), files.as_str())
    }

    /// How directories within one are shown.
    fn render_children(&self, children: &Vec<usize>, n: usize, dir: usize, depth: usize) -> (r:
        String)
        requires
            self@.wf(),
            dir < self@.dirs.len(),
            depth <= dir,
            n <= children@.len(),
        ensures
            r@ == shown_children(self@, as_ints(children@).take(n as int), dir as int, depth as nat),
        decreases self@.dirs.len() - dir, 0int, n,
    {
        if n == 0 {
            let none = String::new();
            assert(none@ =~= Seq::<char>::empty());
            return none;
        }
        proof {
            let whole = as_ints(children@).take(n as int);
            assert(whole.drop_last() =~= as_ints(children@).take(n - 1));
            assert(whole.last() == children@[n - 1]);
        }
        let before = self.render_children(children, n - 1, dir, depth);
        let child: usize = children[n - 1];
        if dir < child && child < self.dirs.len() {
            text::concat2(before.as_str(), self.render_dir(child, depth + 1).as_str())
        } else {
            before
        }
    }

    /// The directories within one, by name.
    fn sorted_children(&self, dir: usize) -> (r: Vec<usize>)
        requires
            dir < self@.dirs.len(),
        ensures
            as_ints(r@) == by_name(self@, children(self@, dir as int)),
    {
        let ghost seen = self@;
        let mut sorted: Vec<usize> = Vec::new();
        let mut i: usize = 0;
        assert(as_ints(sorted@) =~= by_name(seen, children_before(seen, dir as int, 0)));
        while i < self.dirs.len()
            invariant
                i <= self.dirs@.len(),
                seen == self@,
                as_ints(sorted@) == by_name(seen, children_before(seen, dir as int, i as int)),
                forall|k: int| 0 <= k < sorted@.len() ==> #[trigger] sorted@[k] < self.dirs@.len(),
            decreases self.dirs@.len() - i,
        {
            if i > dir && self.dirs[i].parent == dir {
                let ghost known = as_ints(sorted@);
                let ghost names = names_of(seen, known);
                proof {
                    let kids = children_before(seen, dir as int, i + 1);
                    let fewer = children_before(seen, dir as int, i as int);
                    assert(kids =~= fewer.push(i as int));
                    assert(kids.drop_last() =~= fewer);
                    lemma_by_name(seen, fewer);
                }
                let name = self.dirs[i].name.as_str();
                let mut at: usize = sorted.len();
                assert(names.take(at as int) =~= names);
                while at > 0 && !text_not_after(self.dirs[sorted[at - 1]].name.as_str(), name)
                    invariant
                        at <= sorted@.len(),
                        seen == self@,
                        known == as_ints(sorted@),
                        names == names_of(seen, known),
                        forall|k: int|
                            0 <= k < sorted@.len() ==> #[trigger] sorted@[k] < self.dirs@.len(),
                        order::text_spot(names.take(at as int), name@) == order::text_spot(
                            names,
                            name@,
                        ),
                    decreases at,
                {
                    assert(names.take(at as int).drop_last() =~= names.take(at - 1));
                    assert(names[at - 1] == self.dirs@[sorted@[at - 1] as int].name@);
                    at = at - 1;
                }
                sorted.insert(at, i);
                assert(as_ints(sorted@) =~= known.insert(at as int, i as int));
            }
            i = i + 1;
        }
        sorted
    }

    /// How the files in a directory are shown.
    fn render_files(&self, dir: usize, depth: usize) -> (r: String)
        requires
            dir < self@.dirs.len(),
            depth <= dir,
        ensures
            r@ == shown_files(
                order::sorted_texts(names_in(self@.files, dir as int)),
                (depth + 1) as nat,
            ),
    {
        let mut names: Vec<String> = Vec::new();
        let ghost files = self@.files;
        let mut i: usize = 0;
        assert(files.take(0) =~= Seq::<(int, Seq<char>)>::empty());
        assert(text::views(names@) =~= Seq::<Seq<char>>::empty());
        while i < self.files.len()
            invariant
                i <= self.files@.len(),
                files == self@.files,
                text::views(names@) == names_in(files.take(i as int), dir as int),
            decreases self.files@.len() - i,
        {
            let ghost before = text::views(names@);
            proof {
                assert(files.take(i + 1).drop_last() =~= files.take(i as int));
                assert(files.take(i + 1).last() == files[i as int]);
            }
            if self.files[i].0 == dir {
                names.push(self.files[i].1.clone());
                assert(text::views(names@) =~= before.push(self.files@[i as int].1@));
            }
            i = i + 1;
        }
        assert(files.take(files.len() as int) =~= files);
        let sorted = sort_texts(names);
        let ghost all = text::views(sorted@);
        assert(depth < self.dirs.len());
        let space = indented(depth + 1);
        let mut out = String::new();
        let mut k: usize = 0;
        assert(all.take(0) =~= Seq::<Seq<char>>::empty());
        assert(out@ =~= Seq::<char>::empty());
        while k < sorted.len()
            invariant
                k <= sorted@.len(),
                all == text::views(sorted@),
                space@ == indent((depth + 1) as nat),
                out@ == shown_files(all.take(k as int), (depth + 1) as nat),
            decreases sorted@.len() - k,
        {
            proof {
                assert(all.take(k + 1).drop_last() =~= all.take(k as int));
                assert(all.take(k + 1).last() == sorted@[k as int]@);
            }
            let line = text::concat3(space.as_str(), sorted[k].as_str(), "\n");
            out = text::concat2(out.as_str(), line.as_str());
            k = k + 1;
        }
        assert(all.take(all.len() as int) =~= all);
        out
    }
}

/// Numbers as they are.
pub open spec fn as_ints(numbers: Seq<usize>) -> Seq<int> {
    Seq::new(numbers.len(), |i: int| numbers[i] as int)
}

/// The directories within one, as far as they are numbered below a bound.
pub open spec fn children_before(seen: SeenView, dir: int, n: int) -> Seq<int>
    decreases n,
{
    if n <= 0 {
        Seq::empty()
    } else {
        let before = children_before(seen, dir, n - 1);
        if n - 1 > dir && seen.dirs[n - 1].0 == dir {
            before.push(n - 1)
        } else {
            before
        }
    }
}

/// The directories within one.
pub open spec fn children(seen: SeenView, dir: int) -> Seq<int> {
    children_before(seen, dir, seen.dirs.len() as int)
}

/// The names of directories.
pub open spec fn names_of(seen: SeenView, dirs: Seq<int>) -> Seq<Seq<char>> {
    Seq::new(dirs.len(), |i: int| seen.dirs[dirs[i]].1)
}

/// Directories by name.
pub open spec fn by_name(seen: SeenView, dirs: Seq<int>) -> Seq<int>
    decreases dirs.len(),
{
    if dirs.len() == 0 {
        Seq::empty()
    } else {
        let before = by_name(seen, dirs.drop_last());
        before.insert(
            order::text_spot(names_of(seen, before), seen.dirs[dirs.last()].1),
            dirs.last(),
        )
    }
}

/// Directories by name have their names in order.
proof fn lemma_by_name(seen: SeenView, dirs: Seq<int>)
    ensures
        names_of(seen, by_name(seen, dirs)) == order::sorted_texts(names_of(seen, dirs)),
        by_name(seen, dirs).len() == dirs.len(),
        0 <= order::text_spot(names_of(seen, by_name(seen, dirs)), seen.dirs[dirs.last()].1),
        forall|name: Seq<char>|
            0 <= #[trigger] order::text_spot(names_of(seen, by_name(seen, dirs)), name)
                <= dirs.len(),
    decreases dirs.len(),
{
    if dirs.len() > 0 {
        let fewer = dirs.drop_last();
        lemma_by_name(seen, fewer);
        let before = by_name(seen, fewer);
        let at = order::text_spot(names_of(seen, before), seen.dirs[dirs.last()].1);
        assert(names_of(seen, dirs).drop_last() =~= names_of(seen, fewer));
        assert(names_of(seen, dirs).last() == seen.dirs[dirs.last()].1);
        assert(names_of(seen, before.insert(at, dirs.last())) =~= names_of(seen, before).insert(
            at,
            seen.dirs[dirs.last()].1,
        ));
    } else {
        assert(names_of(seen, by_name(seen, dirs)) =~= order::sorted_texts(names_of(seen, dirs)));
    }
    order::lemma_text_spot_within(names_of(seen, by_name(seen, dirs)));
}

/// The names of the files in a directory.
pub open spec fn names_in(files: Seq<(int, Seq<char>)>, dir: int) -> Seq<Seq<char>>
    decreases files.len(),
{
    if files.len() == 0 {
        Seq::empty()
    } else {
        let before = names_in(files.drop_last(), dir);
        if files.last().0 == dir {
            before.push(files.last().1)
        } else {
            before
        }
    }
}

/// The space before a line.
pub open spec fn indent(depth: nat) -> Seq<char>
    decreases depth,
{
    if depth == 0 {
        Seq::empty()
    } else {
        indent((depth - 1) as nat) + "  "@
    }
}

/// The space before a line.
fn indented(depth: usize) -> (r: String)
    ensures
        r@ == indent(depth as nat),
{
    let mut out = String::new();
    assert(out@ =~= Seq::<char>::empty());
    let mut i: usize = 0;
    while i < depth
        invariant
            i <= depth,
            out@ == indent(i as nat),
        decreases depth - i,
    {
        out = text::concat2(out.as_str(), "  ");
        i = i + 1;
    }
    out
}

/// How files are shown.
pub open spec fn shown_files(names: Seq<Seq<char>>, depth: nat) -> Seq<char>
    decreases names.len(),
{
    if names.len() == 0 {
        Seq::empty()
    } else {
        shown_files(names.drop_last(), depth) + (indent(depth) + names.last() + "\n"@)
    }
}

/// How a directory is shown: its name, the directories in it, and then the files in it.
pub open spec fn shown_dir(seen: SeenView, dir: int, depth: nat) -> Seq<char>
    decreases seen.dirs.len() - dir, 1int, 0int,
{
    (if depth > 0 {
        indent(depth) + seen.dirs[dir].1 + "/\n"@
    } else {
        Seq::empty()
    }) + shown_children(seen, by_name(seen, children(seen, dir)), dir, depth) + shown_files(
        order::sorted_texts(names_in(seen.files, dir)),
        depth + 1,
    )
}

/// How directories within one are shown.
pub open spec fn shown_children(seen: SeenView, dirs: Seq<int>, dir: int, depth: nat) -> Seq<char>
    decreases seen.dirs.len() - dir, 0int, dirs.len(),
{
    if dirs.len() == 0 {
        Seq::empty()
    } else {
        let before = shown_children(seen, dirs.drop_last(), dir, depth);
        if dir < dirs.last() < seen.dirs.len() {
            before + shown_dir(seen, dirs.last(), depth + 1)
        } else {
            before
        }
    }
}

/// How a list is shown.
pub open spec fn shown_list(seen: SeenView, root: Seq<char>) -> Seq<char> {
    root + "/\n"@ + shown_dir(seen, 0, 0)
}

/// No more than a hundred files are listed.
pub proof fn law_lists_are_bounded(
    seen: SeenView,
    dir: int,
    entries: Seq<Result<ListEntry, String>>,
    root: Seq<char>,
    ignore: Seq<Seq<char>>,
)
    requires
        seen.files.len() <= SEARCH_LIMIT,
    ensures
        match all_noted(seen, dir, entries, root, ignore) {
            Ok(after) => after.files.len() <= SEARCH_LIMIT,
            Err(_) => true,
        },
    decreases entries.len(),
{
    if entries.len() > 0 {
        law_lists_are_bounded(seen, dir, entries.drop_last(), root, ignore);
    }
}

/// The way of an entry is its name, behind the way of the directory that it stands in.
pub proof fn law_ways_lead_through_directories(dir: Seq<char>, name: Seq<char>)
    ensures
        dir.len() == 0 ==> way(dir, name) == name,
        dir.len() > 0 ==> way(dir, name) == dir + seq!['/'] + name,
{
    reveal_strlit("/");
    assert("/"@ =~= seq!['/']);
}

/// Every entry that is not left out is listed: a file with its directory, a directory with its way
/// from the start, to be looked into later; what was listed before stays.
pub proof fn law_every_entry_is_listed(
    seen: SeenView,
    dir: int,
    entry: ListEntry,
    root: Seq<char>,
    ignore: Seq<Seq<char>>,
)
    requires
        seen.wf(),
        0 <= dir < seen.dirs.len(),
        seen.files.len() < 100,
        forall|i: int|
            0 <= i < ignore.len() ==> !#[trigger] patterns::glob_accepts(
                ignore[i],
                way(seen.dirs[dir].2, entry.name@),
            ),
    ensures
        match noted(seen, dir, Ok(entry), root, ignore) {
            Err(_) => entry.kind is Err,
            Ok(after) => match entry.kind {
                Err(_) => false,
                Ok(EntryKind::File) => after.files == seen.files.push((dir, entry.name@))
                    && after.dirs == seen.dirs && after.pending == seen.pending,
                Ok(EntryKind::Directory) => after.files == seen.files && after.dirs
                    == seen.dirs.push((dir, entry.name@, way(seen.dirs[dir].2, entry.name@)))
                    && after.pending == seen.pending.push(seen.dirs.len() as int),
                Ok(EntryKind::Other) => after == seen,
            },
        },
{
}

/// An entry that a pattern leaves out changes nothing.
pub proof fn law_left_out_entries_are_not_listed(
    seen: SeenView,
    dir: int,
    entry: ListEntry,
    root: Seq<char>,
    ignore: Seq<Seq<char>>,
    i: int,
)
    requires
        0 <= i < ignore.len(),
        patterns::glob_accepts(ignore[i], way(seen.dirs[dir].2, entry.name@)),
    ensures
        noted(seen, dir, Ok(entry), root, ignore) == Ok::<SeenView, ErrorView>(seen),
{
    assert(ignored(ignore, way(seen.dirs[dir].2, entry.name@)));
}

/// Entries are noted one after another, and the first that cannot be looked at ends the list.
pub proof fn law_entries_are_noted_in_turn(
    seen: SeenView,
    dir: int,
    first: Seq<Result<ListEntry, String>>,
    second: Seq<Result<ListEntry, String>>,
    root: Seq<char>,
    ignore: Seq<Seq<char>>,
)
    ensures
        all_noted(seen, dir, first + second, root, ignore) == match all_noted(
            seen,
            dir,
            first,
            root,
            ignore,
        ) {
            Ok(between) => all_noted(between, dir, second, root, ignore),
            Err(error) => Err(error),
        },
        first.len() == 1 ==> all_noted(seen, dir, first, root, ignore) == noted(
            seen,
            dir,
            first[0],
            root,
            ignore,
        ),
    decreases second.len(),
{
    reveal_with_fuel(all_noted, 2);
    if second.len() == 0 {
        assert(first + second =~= first);
    } else {
        law_entries_are_noted_in_turn(seen, dir, first, second.drop_last(), root, ignore);
        assert((first + second).drop_last() =~= first + second.drop_last());
    }
}

/// The directories in a directory are those that were noted for it, each once.
pub proof fn law_children_are_those_of_the_directory(seen: SeenView, dir: int, child: int)
    requires
        seen.wf(),
    ensures
        children(seen, dir).contains(child) <==> dir < child < seen.dirs.len()
            && seen.dirs[child].0 == dir && child >= 0,
{
    lemma_children_before(seen, dir, seen.dirs.len() as int, child);
}

/// The same of the first directories.
proof fn lemma_children_before(seen: SeenView, dir: int, n: int, child: int)
    requires
        0 <= n,
    ensures
        children_before(seen, dir, n).contains(child) <==> dir < child < n && seen.dirs[child].0
            == dir && child >= 0,
    decreases n,
{
    if n > 0 {
        lemma_children_before(seen, dir, n - 1, child);
        let before = children_before(seen, dir, n - 1);
        let all = children_before(seen, dir, n);
        if before.contains(child) {
            let i = choose|i: int| 0 <= i < before.len() && before[i] == child;
            assert(all[i] == child);
        }
        if n - 1 > dir && seen.dirs[n - 1].0 == dir {
            assert(all[before.len() as int] == n - 1);
        }
        if all.contains(child) {
            let i = choose|i: int| 0 <= i < all.len() && all[i] == child;
            if i < before.len() {
                assert(before[i] == child);
            }
        }
    }
}

/// Directories are shown by name: the order changes, and none comes or goes.
pub proof fn law_directories_are_ordered_by_name(seen: SeenView, dirs: Seq<int>)
    ensures
        by_name(seen, dirs).to_multiset() == dirs.to_multiset(),
        names_of(seen, by_name(seen, dirs)) == order::sorted_texts(names_of(seen, dirs)),
    decreases dirs.len(),
{
    broadcast use vstd::seq_lib::group_to_multiset_ensures;

    if dirs.len() == 0 {
        assert(by_name(seen, dirs) =~= dirs);
        assert(names_of(seen, by_name(seen, dirs)) =~= order::sorted_texts(names_of(seen, dirs)));
    } else {
        let rest = dirs.drop_last();
        law_directories_are_ordered_by_name(seen, rest);
        let before = by_name(seen, rest);
        let name = seen.dirs[dirs.last()].1;
        let names = names_of(seen, before);
        order::lemma_text_spot_within(names);
        let at = order::text_spot(names, name);
        assert(names.len() == before.len());
        assert(names_of(seen, dirs).drop_last() =~= names_of(seen, rest));
        assert(names_of(seen, dirs).last() == name);
        assert(names_of(seen, before.insert(at, dirs.last())) =~= names.insert(at, name));
        assert(dirs =~= rest.push(dirs.last()));
    }
}

/// The files of a directory are those that were noted for it, in their order.
pub proof fn law_files_are_shown_in_their_directory(
    first: Seq<(int, Seq<char>)>,
    second: Seq<(int, Seq<char>)>,
    dir: int,
)
    ensures
        names_in(first + second, dir) == names_in(first, dir) + names_in(second, dir),
        first.len() == 1 ==> names_in(first, dir) == if first[0].0 == dir {
            seq![first[0].1]
        } else {
            Seq::empty()
        },
    decreases second.len(),
{
    reveal_with_fuel(names_in, 2);
    if second.len() == 0 {
        assert(first + second =~= first);
        assert(names_in(first, dir) + names_in(second, dir) =~= names_in(first, dir));
    } else {
        law_files_are_shown_in_their_directory(first, second.drop_last(), dir);
        assert((first + second).drop_last() =~= first + second.drop_last());
        assert(names_in(first + second, dir) =~= names_in(first, dir) + names_in(second, dir));
    }
}

/// A directory shows its name, then the directories in it, and then its files; each stands two
/// spaces further in than what it lies in, and the start has no line of its own.
pub proof fn law_directories_show_what_they_hold(seen: SeenView, dir: int, depth: nat)
    requires
        seen.wf(),
        0 <= dir < seen.dirs.len(),
    ensures
        ({
            let files = order::sorted_texts(names_in(seen.files, dir));
            let inside = by_name(seen, children(seen, dir));
            let below = shown_children(seen, inside, dir, depth) + shown_files(files, depth + 1);
            &&& depth > 0 ==> shown_dir(seen, dir, depth) == indent(depth) + seen.dirs[dir].1
                + "/\n"@ + below
            &&& depth == 0 ==> shown_dir(seen, dir, depth) == below
            &&& inside.len() == 0 ==> shown_children(seen, inside, dir, depth).len() == 0
            &&& inside.len() > 0 && dir < inside.last() < seen.dirs.len() ==> shown_children(
                seen,
                inside,
                dir,
                depth,
            ) == shown_children(seen, inside.drop_last(), dir, depth) + shown_dir(
                seen,
                inside.last(),
                depth + 1,
            )
            &&& files.len() == 1 ==> shown_files(files, depth + 1) == indent(depth + 1) + files[0]
                + "\n"@
        }),
{
    reveal_with_fuel(shown_files, 2);
    let files = order::sorted_texts(names_in(seen.files, dir));
    let inside = by_name(seen, children(seen, dir));
    let kids = shown_children(seen, inside, dir, depth);
    let shown = shown_files(files, depth + 1);
    if depth > 0 {
        let head = indent(depth) + seen.dirs[dir].1 + "/\n"@;
        assert(head + kids + shown =~= head + (kids + shown));
    } else {
        assert(Seq::<char>::empty() + kids + shown =~= kids + shown);
    }
    if files.len() == 1 {
        assert(Seq::<char>::empty() + (indent(depth + 1) + files[0] + "\n"@) =~= indent(depth + 1)
            + files[0] + "\n"@);
    }
}

/// A line stands two spaces further in for each directory that it lies in.
pub proof fn law_lines_are_indented(depth: nat, i: int)
    ensures
        indent(depth).len() == 2 * depth,
        0 <= i < indent(depth).len() ==> indent(depth)[i] == ' ',
    decreases depth,
{
    reveal_strlit("  ");
    if depth > 0 {
        law_lines_are_indented((depth - 1) as nat, i);
    }
}

/// The list starts with the root it was asked for.
pub proof fn law_lists_start_with_the_root(seen: SeenView, root: Seq<char>)
    ensures
        shown_list(seen, root).take((root.len() + 2) as int) == root + seq!['/', '\n'],
        shown_list(seen, root).skip((root.len() + 2) as int) == shown_dir(seen, 0, 0),
{
    reveal_strlit("/\n");
    assert("/\n"@ =~= seq!['/', '\n']);
    assert(shown_list(seen, root).take((root.len() + 2) as int) =~= root + seq!['/', '\n']);
    assert(shown_list(seen, root).skip((root.len() + 2) as int) =~= shown_dir(seen, 0, 0));
}

/// A pattern that cannot be understood is refused, with itself named, and only then.
pub proof fn law_wrong_patterns_are_refused(given: Seq<Seq<char>>)
    ensures
        first_refused(given) is Some <==> exists|i: int|
            0 <= i < given.len() && (#[trigger] patterns::glob_error(given[i])) is Some,
        first_refused(given) matches Some((pattern, message)) ==> given.contains(pattern)
            && patterns::glob_error(pattern) == Some(message),
    decreases given.len(),
{
    if given.len() > 0 {
        let before = given.drop_last();
        law_wrong_patterns_are_refused(before);
        assert(given[given.len() - 1] == given.last());
        if first_refused(before) is Some {
            let (pattern, message) = first_refused(before)->0;
            let k = choose|k: int| 0 <= k < before.len() && before[k] == pattern;
            assert(given[k] == pattern);
            assert(patterns::glob_error(given[k]) is Some);
        } else if patterns::glob_error(given.last()) is None {
            assert forall|i: int| 0 <= i < given.len() implies (#[trigger] patterns::glob_error(
                given[i],
            )) is None by {
                if i < before.len() {
                    assert(before[i] == given[i]);
                    assert(patterns::glob_error(before[i]) is None);
                }
            }
        } else {
            assert(patterns::glob_error(given[given.len() - 1]) is Some);
        }
    }
}

/// The walk of a list looks into the directory that it noted last, and forgets it then.
pub proof fn law_lists_look_into_every_directory(walk: &mut ListWalk, r: Option<(usize, String)>)
    requires
        call_ensures(ListWalk::step, (walk,), r),
    ensures
        r is None <==> old(walk)@.pending.len() == 0,
        r matches Some((dir, relative)) ==> {
            &&& dir == old(walk)@.pending.last()
            &&& relative@ == old(walk)@.dirs[dir as int].2
            &&& final(walk)@.pending == old(walk)@.pending.drop_last()
            &&& final(walk)@.dirs == old(walk)@.dirs
            &&& final(walk)@.files == old(walk)@.files
        },
{
}

/// What is usually left out of a list is left out of every list, and so is what was asked to be; a
/// pattern that cannot be understood is an error.
pub proof fn law_patterns_are_left_out(
    ignore: &Vec<String>,
    r: Result<ListWalk, FrameworkError>,
    i: int,
    k: int,
)
    requires
        call_ensures(ListWalk::start, (ignore,), r),
    ensures
        r matches Ok(walk) ==> {
            &&& walk@.files.len() == 0
            &&& walk@.pending.len() == 1
            &&& 0 <= i < usual_patterns().len() ==> sources(walk.ignore@).contains(
                usual_patterns()[i],
            )
            &&& 0 <= k < ignore@.len() ==> sources(walk.ignore@).contains(ignore@[k]@)
        },
        0 <= k < ignore@.len() && patterns::glob_error(ignore@[k]@) is Some ==> r is Err,
{
    let given = text::views(ignore@);
    if r is Ok {
        let all = sources(r->Ok_0.ignore@);
        if 0 <= i < usual_patterns().len() {
            assert(all[i] == usual_patterns()[i]);
        }
        if 0 <= k < ignore@.len() {
            assert(all[usual_patterns().len() + k] == given[k]);
            assert(given[k] == ignore@[k]@);
        }
    }
    law_wrong_patterns_are_refused(given);
    if 0 <= k < ignore@.len() && patterns::glob_error(ignore@[k]@) is Some {
        assert(patterns::glob_error(given[k]) is Some);
    }
}

/// What tools make, and what belongs to them, is usually left out.
pub proof fn law_made_files_are_usually_left_out()
    ensures
        usual_patterns().contains("node_modules/**"@),
        usual_patterns().contains(".git/**"@),
        usual_patterns().contains("target/**"@),
        usual_patterns().contains("dist/**"@),
        usual_patterns().contains("build/**"@),
        usual_patterns().contains("vendor/**"@),
        usual_patterns().contains(".venv/**"@),
        usual_patterns().contains("__pycache__/**"@),
{
    let usual = usual_patterns();
    assert(usual[0] == "node_modules/**"@);
    assert(usual[1] == "__pycache__/**"@);
    assert(usual[2] == ".git/**"@);
    assert(usual[3] == "dist/**"@);
    assert(usual[4] == "build/**"@);
    assert(usual[5] == "target/**"@);
    assert(usual[6] == "vendor/**"@);
    assert(usual[14] == ".venv/**"@);
}

/// A guest is asked for the same as was planned.
pub proof fn law_guests_are_asked_for_the_plan(
    plan: &ListPlan,
    r: Result<Json, FrameworkError>,
    i: int,
)
    requires
        call_ensures(guest_request, (plan,), r),
    ensures
        r is Ok <==> plan.route is Sandboxed,
        r matches Ok(request) ==> {
            &&& request@.text_at("path"@) == Some(plan.route->guest_path@)
            &&& request@.array_at("ignore"@) is Some
            &&& request@.array_at("ignore"@)->0.len() == plan.ignore@.len()
            &&& 0 <= i < plan.ignore@.len() ==> request@.array_at("ignore"@)->0[i] == JsonView::Str(
                plan.ignore@[i]@,
            )
        },
{
    reveal_strlit("path");
    reveal_strlit("ignore");
    assert("path"@.len() == 4);
    assert("ignore"@.len() == 6);
}

/// A plan leaves out what was asked to be left out.
pub proof fn law_plans_leave_out_what_was_asked(
    tool: &ListTool,
    args: ListArgs,
    place: &FileEnv,
    is_dir: bool,
    r: Result<ListPlan, FrameworkError>,
)
    requires
        call_ensures(ListTool::plan, (tool, args, place, is_dir), r),
    ensures
        r is Ok && args.ignore is Some ==> r->Ok_0.ignore@ == args.ignore->0@,
        r is Ok && args.ignore is None ==> r->Ok_0.ignore@.len() == 0,
        !is_dir ==> r is Err,
{
}

} // verus!
