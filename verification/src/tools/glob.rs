//! The glob tool: files whose names match a pattern.
use vstd::prelude::*;
use crate::config::FileToolConfig;
use crate::error::{ErrorView, FrameworkError};
use crate::error;
use crate::json::{Json, JsonView};
use crate::order::{sort_ranked, Newest};
use crate::order;
use crate::paths::{NormalPath, PathView};
use crate::patterns::{compile_glob, glob_matches};
use crate::patterns;
use crate::text;
use crate::tools::common::ToolExecutionKind;
use crate::tools::file_access::{guest_target_of, FileEnv, FileToolRoute, RouteView};
use crate::tools::file_access;
use crate::tools::search::{changed_at, plan_search, WalkEntry, SEARCH_LIMIT};
use crate::tools::search;

verus! {

/// The arguments of the tool.
#[derive(Debug, PartialEq, Eq)]
pub struct GlobArgs {
    pub pattern: String,
    pub path: Option<String>,
}

/// What is looked for, and where.
#[derive(Debug, PartialEq, Eq)]
pub struct GlobPlan {
    pub pattern: String,
    pub host_path: NormalPath,
    pub route: FileToolRoute,
}

/// Where is looked.
pub open spec fn planned(
    args: GlobArgs,
    place: FileEnv,
    config: FileToolConfig,
    is_dir: bool,
) -> Result<(PathView, RouteView), ErrorView> {
    if text::trim(args.pattern@).len() == 0 {
        Err(ErrorView::Tool("glob requires a non-empty pattern"@))
    } else {
        search::searched("glob"@, text::opt_view(args.path), place, config.sandbox, is_dir)
    }
}

/// The glob tool, with its settings.
#[derive(Debug, PartialEq, Eq)]
pub struct GlobTool {
    pub config: FileToolConfig,
}

impl GlobTool {
    /// What the tool is called.
    pub fn name(&self) -> (r: &'static str)
        ensures
            r@ == "glob"@,
    {
        "glob"
    }

    /// What the tool is for.
    pub fn description(&self) -> (r: &'static str)
        ensures
            r@ == "Find files by pattern matching using JSON: {pattern, path?}. Returns matching absolute paths sorted by modification time."@,
    {
        "Find files by pattern matching using JSON: {pattern, path?}. Returns matching absolute paths sorted by modification time."
    }

    /// What arguments the tool takes.
    pub fn input_schema_json(&self) -> (r: &'static str)
        ensures
            r@ == "{\"type\":\"object\",\"properties\":{\"pattern\":{\"type\":\"string\"},\"path\":{\"type\":\"string\"}},\"required\":[\"pattern\"]}"@,
    {
        "{\"type\":\"object\",\"properties\":{\"pattern\":{\"type\":\"string\"},\"path\":{\"type\":\"string\"}},\"required\":[\"pattern\"]}"
    }

    /// How the tool can run.
    pub fn supported_execution_kinds(&self) -> (r: Vec<ToolExecutionKind>)
        ensures
            r@ == seq![ToolExecutionKind::Direct, ToolExecutionKind::WasmSandbox],
    {
        vec![ToolExecutionKind::Direct, ToolExecutionKind::WasmSandbox]
    }

    /// The program that runs as a guest.
    pub fn artifact_name(&self) -> (r: &'static str)
        ensures
            r@ == "glob_tool.wasm"@,
    {
        "glob_tool.wasm"
    }

    /// How many seconds a guest may take.
    pub fn timeout_seconds(&self) -> (r: u64)
        ensures
            r == match self.config.timeout_seconds {
                Some(seconds) => seconds,
                None => 15,
            },
    {
        match self.config.timeout_seconds {
            Some(seconds) => seconds,
            None => 15,
        }
    }

    /// What is looked for, and where.
    pub fn plan(&self, args: &GlobArgs, place: &FileEnv, is_dir: bool) -> (r: Result<
        GlobPlan,
        FrameworkError,
    >)
        ensures
            match r {
                Ok(plan) => Ok::<(PathView, RouteView), ErrorView>((plan.host_path@, plan.route@)),
                Err(error) => Err(error@),
            } == planned(*args, *place, self.config, is_dir),
            r is Ok ==> r->Ok_0.pattern@ == text::trim(args.pattern@),
    {
        let pattern = text::trimmed(args.pattern.as_str());
        if pattern.as_str().is_empty() {
            return Err(error::tool_error("glob requires a non-empty pattern"));
        }
        match plan_search("glob", &args.path, place, &self.config.sandbox, is_dir) {
            Ok((host_path, route)) => Ok(GlobPlan { pattern, host_path, route }),
            Err(error) => Err(error),
        }
    }
}

/// What a guest is told.
pub fn guest_request(plan: &GlobPlan) -> (r: Result<Json, FrameworkError>)
    ensures
        match r {
            Ok(request) => Ok::<JsonView, ErrorView>(request@),
            Err(error) => Err(error@),
        } == match file_access::guest_target(plan.route@, "glob"@) {
            Ok(path) => Ok::<JsonView, ErrorView>(
                JsonView::Object(
                    map![
                        "pattern"@ => JsonView::Str(plan.pattern@),
                        "path"@ => JsonView::Str(path),
                    ],
                ),
            ),
            Err(error) => Err(error),
        },
        r is Ok ==> r->Ok_0.wf(),
{
    match guest_target_of(&plan.route, "glob") {
        Ok(path) => Ok(
            Json::object().with("pattern", Json::text(plan.pattern.as_str())).with(
                "path",
                Json::text(path.as_str()),
            ),
        ),
        Err(error) => Err(error),
    }
}

/// The entries whose way matches a pattern, with the time they were changed.
pub open spec fn matching(pattern: Seq<char>, entries: Seq<WalkEntry>) -> Seq<(Newest, Seq<char>)>
    decreases entries.len(),
{
    if entries.len() == 0 {
        Seq::empty()
    } else {
        let before = matching(pattern, entries.drop_last());
        let entry = entries.last();
        if patterns::glob_accepts(pattern, entry.relative@) {
            before.push((Newest(search::change_time(entry.modified)), entry.path@))
        } else {
            before
        }
    }
}

/// How many of the found are shown.
pub open spec fn shown_count(total: int) -> int {
    if total > SEARCH_LIMIT {
        SEARCH_LIMIT as int
    } else {
        total
    }
}

/// How what was found is shown: one path to a line, those that changed last first.
pub open spec fn shown(found: Seq<(Newest, Seq<char>)>) -> Seq<char> {
    if found.len() == 0 {
        "No files found"@
    } else {
        text::join(
            Seq::new(
                shown_count(found.len() as int) as nat,
                |i: int| order::ranked(found)[i].1,
            ),
            "\n"@,
        )
    }
}

/// What the tool answers: why the pattern cannot be used, why the directory cannot be walked, or
/// what is found there.
pub open spec fn glob_result(
    pattern: Seq<char>,
    entries: Result<Seq<WalkEntry>, ErrorView>,
) -> Result<Seq<char>, ErrorView> {
    match patterns::glob_error(pattern) {
        Some(message) => Err(ErrorView::Tool("glob pattern is invalid: "@ + message)),
        None => match entries {
            Err(error) => Err(error),
            Ok(entries) => Ok(shown(matching(pattern, entries))),
        },
    }
}

/// What stands for paths with their times.
pub open spec fn paths_of(found: Seq<(Newest, String)>) -> Seq<(Newest, Seq<char>)> {
    Seq::new(found.len(), |i: int| (found[i].0, found[i].1@))
}

/// How what was found is shown: one path to a line, those that changed last first.
pub fn render_paths(found: Vec<(Newest, String)>) -> (r: String)
    ensures
        r@ == shown(paths_of(found@)),
{
    if found.len() == 0 {
        return "No files found".to_owned();
    }
    let ghost unsorted = found@;
    let ghost given = paths_of(unsorted);
    let sorted = sort_ranked(found);
    proof {
        order::lemma_ranked_keys(unsorted, given, |path: String| path@);
        order::law_ranking_orders(unsorted);
        assert(paths_of(sorted@) =~= order::ranked(given));
    }
    let count: usize = if sorted.len() > SEARCH_LIMIT {
        SEARCH_LIMIT
    } else {
        sorted.len()
    };
    let ghost wanted = Seq::new(count as nat, |i: int| order::ranked(given)[i].1);
    let mut lines: Vec<String> = Vec::new();
    let mut i: usize = 0;
    while i < count
        invariant
            i <= count,
            count <= sorted@.len(),
            wanted.len() == count,
            forall|k: int| 0 <= k < count ==> #[trigger] wanted[k] == sorted@[k].1@,
            text::views(lines@) =~= wanted.take(i as int),
        decreases count - i,
    {
        let ghost before = text::views(lines@);
        lines.push(sorted[i].1.clone());
        assert(text::views(lines@) =~= before.push(wanted[i as int]));
        i = i + 1;
    }
    assert(wanted.take(count as int) =~= wanted);
    text::joined(&lines, "\n")
}

/// What the tool answers, given what stands in the directories or why that is not known.
pub fn run_glob(pattern: &str, entries: Result<Vec<WalkEntry>, FrameworkError>) -> (r: Result<
    String,
    FrameworkError,
>)
    ensures
        error::text_result(r) == glob_result(
            pattern@,
            match entries {
                Ok(entries) => Ok(entries@),
                Err(error) => Err(error@),
            },
        ),
{
    let compiled = match compile_glob(pattern) {
        Ok(compiled) => compiled,
        Err(message) => {
            return Err(
                FrameworkError::Tool(
                    text::concat2("glob pattern is invalid: ", message.as_str()),
                ),
            );
        },
    };
    let entries = match entries {
        Ok(entries) => entries,
        Err(error) => {
            return Err(error);
        },
    };
    let mut found: Vec<(Newest, String)> = Vec::new();
    let mut i: usize = 0;
    assert(entries@.take(0) =~= Seq::<WalkEntry>::empty());
    assert(paths_of(found@) =~= Seq::<(Newest, Seq<char>)>::empty());
    while i < entries.len()
        invariant
            i <= entries@.len(),
            patterns::glob_source(compiled) == pattern@,
            paths_of(found@) == matching(pattern@, entries@.take(i as int)),
        decreases entries@.len() - i,
    {
        let ghost before = paths_of(found@);
        proof {
            assert(entries@.take(i + 1).drop_last() =~= entries@.take(i as int));
            assert(entries@.take(i + 1).last() == entries@[i as int]);
        }
        if glob_matches(&compiled, entries[i].relative.as_str()) {
            let changed = changed_at(entries[i].modified);
            found.push((Newest(changed), entries[i].path.clone()));
            assert(paths_of(found@) =~= before.push((Newest(changed), entries@[i as int].path@)));
        }
        i = i + 1;
    }
    assert(entries@.take(entries@.len() as int) =~= entries@);
    Ok(render_paths(found))
}

/// Every entry that the pattern accepts is found, and no other.
pub proof fn law_every_accepted_entry_is_found(
    pattern: Seq<char>,
    entries: Seq<WalkEntry>,
    path: Seq<char>,
)
    ensures
        (exists|i: int|
            0 <= i < matching(pattern, entries).len() && (#[trigger] matching(pattern, entries)[i]).1
                == path) <==> exists|k: int|
            0 <= k < entries.len() && (#[trigger] entries[k]).path@ == path
                && patterns::glob_accepts(pattern, entries[k].relative@),
    decreases entries.len(),
{
    if entries.len() > 0 {
        let before = entries.drop_last();
        law_every_accepted_entry_is_found(pattern, before, path);
        let known = matching(pattern, before);
        let all = matching(pattern, entries);
        assert(entries[entries.len() - 1] == entries.last());
        assert forall|i: int| 0 <= i < before.len() implies before[i] == #[trigger] entries[i] by {}
        assert forall|i: int| 0 <= i < known.len() implies #[trigger] all[i] == known[i] by {}
        if exists|i: int| 0 <= i < all.len() && (#[trigger] all[i]).1 == path {
            let i = choose|i: int| 0 <= i < all.len() && (#[trigger] all[i]).1 == path;
            if i < known.len() {
                assert(known[i].1 == path);
                let k = choose|k: int|
                    0 <= k < before.len() && (#[trigger] before[k]).path@ == path
                        && patterns::glob_accepts(pattern, before[k].relative@);
                assert(entries[k].path@ == path);
            }
        }
        if exists|k: int|
            0 <= k < entries.len() && (#[trigger] entries[k]).path@ == path
                && patterns::glob_accepts(pattern, entries[k].relative@) {
            let k = choose|k: int|
                0 <= k < entries.len() && (#[trigger] entries[k]).path@ == path
                    && patterns::glob_accepts(pattern, entries[k].relative@);
            if k < before.len() {
                assert(before[k].path@ == path);
                let i = choose|i: int| 0 <= i < known.len() && (#[trigger] known[i]).1 == path;
                assert(all[i].1 == path);
            } else {
                assert(all[known.len() as int].1 == path);
            }
        }
    }
}

/// The newest hundred of what is found are shown, the newest first, one on each line.
pub proof fn law_the_newest_files_are_shown(found: Seq<(Newest, Seq<char>)>)
    ensures
        found.len() == 0 ==> shown(found) == "No files found"@,
        found.len() > 0 ==> exists|names: Seq<Seq<char>>| #[trigger]
            text::join(names, "\n"@) == shown(found) && names.len() == (if found.len() > 100 {
                100nat
            } else {
                found.len()
            }) && forall|i: int|
                0 <= i < names.len() ==> #[trigger] names[i] == order::ranked(found)[i].1,
        order::ordered(order::ranked(found)),
        order::ranked(found).to_multiset() == found.to_multiset(),
{
    order::law_ranking_orders(found);
    if found.len() > 0 {
        let names = Seq::new(
            shown_count(found.len() as int) as nat,
            |i: int| order::ranked(found)[i].1,
        );
        assert(text::join(names, "\n"@) == shown(found));
    }
}

/// A search with a wrong pattern says so; any other shows the entries that the pattern accepts.
pub proof fn law_wrong_patterns_are_told(pattern: Seq<char>, entries: Seq<WalkEntry>)
    ensures
        patterns::glob_error(pattern) is Some ==> glob_result(pattern, Ok(entries)) is Err,
        patterns::glob_error(pattern) is None ==> glob_result(pattern, Ok(entries)) == Ok::<
            Seq<char>,
            ErrorView,
        >(shown(matching(pattern, entries))),
{
}

/// What is looked for is what was asked, without the white space around it.
pub proof fn law_searches_are_as_asked(
    tool: &GlobTool,
    args: &GlobArgs,
    place: &FileEnv,
    is_dir: bool,
    r: Result<GlobPlan, FrameworkError>,
)
    requires
        call_ensures(GlobTool::plan, (tool, args, place, is_dir), r),
    ensures
        text::is_blank(args.pattern@) ==> r is Err,
        r matches Ok(plan) ==> plan.pattern@ == text::trim(args.pattern@),
{
}

/// A guest is asked for the same as was planned.
pub proof fn law_guests_are_asked_for_the_plan(plan: &GlobPlan, r: Result<Json, FrameworkError>)
    requires
        call_ensures(guest_request, (plan,), r),
    ensures
        r is Ok <==> plan.route is Sandboxed,
        r matches Ok(request) ==> request@.text_at("pattern"@) == Some(plan.pattern@)
            && request@.text_at("path"@) == Some(plan.route->guest_path@),
{
    reveal_strlit("pattern");
    reveal_strlit("path");
    assert("pattern"@.len() == 7);
    assert("path"@.len() == 4);
}

/// A search takes as long as it was set to, and fifteen seconds where nothing was set.
pub proof fn law_searches_take_their_time(tool: &GlobTool, r: u64)
    requires
        call_ensures(GlobTool::timeout_seconds, (tool,), r),
    ensures
        tool.config.timeout_seconds is Some ==> r == tool.config.timeout_seconds->0,
        tool.config.timeout_seconds is None ==> r == 15,
{
}

} // verus!
