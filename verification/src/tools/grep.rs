//! The grep tool: lines of files in which an expression is found.
use vstd::prelude::*;
use crate::config::FileToolConfig;
use crate::error::{ErrorView, FrameworkError};
use crate::error;
use crate::json::{Json, JsonView};
use crate::json;
use crate::order::{sort_ranked, Newest};
use crate::order;
use crate::paths::{NormalPath, PathView};
use crate::patterns::{compile_glob, compile_regex, glob_matches, regex_matches};
use crate::patterns;
use crate::text;
use crate::time::Timestamp;
use crate::tools::common::ToolExecutionKind;
use crate::tools::file_access::{guest_target_of, FileEnv, FileToolRoute, RouteView};
use crate::tools::file_access;
use crate::tools::search::{changed_at, plan_search, SEARCH_LIMIT};
use crate::tools::search;

verus! {

/// How much of a line is shown.
pub const MAX_LINE_LENGTH: usize = 2000;

/// The arguments of the tool.
#[derive(Debug, PartialEq, Eq)]
pub struct GrepArgs {
    pub pattern: String,
    pub path: Option<String>,
    pub include_glob: Option<String>,
}

/// What is searched for, and where.
#[derive(Debug, PartialEq, Eq)]
pub struct GrepPlan {
    pub pattern: String,
    pub include_glob: Option<String>,
    pub host_path: NormalPath,
    pub route: FileToolRoute,
}

/// Where is searched.
pub open spec fn planned(
    args: GrepArgs,
    place: FileEnv,
    config: FileToolConfig,
    is_dir: bool,
) -> Result<(PathView, RouteView), ErrorView> {
    if text::trim(args.pattern@).len() == 0 {
        Err(ErrorView::Tool("grep requires a non-empty pattern"@))
    } else {
        search::searched("grep"@, text::opt_view(args.path), place, config.sandbox, is_dir)
    }
}

/// The grep tool, with its settings.
#[derive(Debug, PartialEq, Eq)]
pub struct GrepTool {
    pub config: FileToolConfig,
}

impl GrepTool {
    /// What the tool is called.
    pub fn name(&self) -> (r: &'static str)
        ensures
            r@ == "grep"@,
    {
        "grep"
    }

    /// What the tool is for.
    pub fn description(&self) -> (r: &'static str)
        ensures
            r@ == "Search file contents using regex with JSON: {pattern, path?, include?}."@,
    {
        "Search file contents using regex with JSON: {pattern, path?, include?}."
    }

    /// What arguments the tool takes.
    pub fn input_schema_json(&self) -> (r: &'static str)
        ensures
            r@ == "{\"type\":\"object\",\"properties\":{\"pattern\":{\"type\":\"string\"},\"path\":{\"type\":\"string\"},\"include\":{\"type\":\"string\"}},\"required\":[\"pattern\"]}"@,
    {
        "{\"type\":\"object\",\"properties\":{\"pattern\":{\"type\":\"string\"},\"path\":{\"type\":\"string\"},\"include\":{\"type\":\"string\"}},\"required\":[\"pattern\"]}"
    }

    /// How the tool can run.
    pub fn supported_execution_kinds(&self) -> (r: Vec<ToolExecutionKind>)
        ensures
            r@ == seq![ToolExecutionKind::Direct, ToolExecutionKind::WasmSandbox],
    {
        vec![ToolExecutionKind::Direct, ToolExecutionKind::WasmSandbox]
    }

    /// The program that runs as a guest.
    pub fn artifact_name(&self) -> (r: &'static str)
        ensures
            r@ == "grep_tool.wasm"@,
    {
        "grep_tool.wasm"
    }

    /// How many seconds a guest may take.
    pub fn timeout_seconds(&self) -> (r: u64)
        ensures
            r == match self.config.timeout_seconds {
                Some(seconds) => seconds,
                None => 20,
            },
    {
        match self.config.timeout_seconds {
            Some(seconds) => seconds,
            None => 20,
        }
    }

    /// What is searched for, and where.
    pub fn plan(&self, args: &GrepArgs, place: &FileEnv, is_dir: bool) -> (r: Result<
        GrepPlan,
        FrameworkError,
    >)
        ensures
            match r {
                Ok(plan) => Ok::<(PathView, RouteView), ErrorView>((plan.host_path@, plan.route@)),
                Err(error) => Err(error@),
            } == planned(*args, *place, self.config, is_dir),
            r is Ok ==> r->Ok_0.pattern@ == text::trim(args.pattern@) && text::opt_view(
                r->Ok_0.include_glob,
            ) == text::opt_view(args.include_glob),
    {
        let pattern = text::trimmed(args.pattern.as_str());
        if pattern.as_str().is_empty() {
            return Err(error::tool_error("grep requires a non-empty pattern"));
        }
        match plan_search("grep", &args.path, place, &self.config.sandbox, is_dir) {
            Ok((host_path, route)) => Ok(
                GrepPlan { pattern, include_glob: args.include_glob.clone(), host_path, route },
            ),
            Err(error) => Err(error),
        }
    }
}

/// What a guest is told.
pub fn guest_request(plan: &GrepPlan) -> (r: Result<Json, FrameworkError>)
    ensures
        match r {
            Ok(request) => Ok::<JsonView, ErrorView>(request@),
            Err(error) => Err(error@),
        } == match file_access::guest_target(plan.route@, "grep"@) {
            Ok(path) => Ok::<JsonView, ErrorView>(
                JsonView::Object(
                    map![
                        "pattern"@ => JsonView::Str(plan.pattern@),
                        "path"@ => JsonView::Str(path),
                        "include"@ => json::opt_text_json(text::opt_view(plan.include_glob)),
                    ],
                ),
            ),
            Err(error) => Err(error),
        },
        r is Ok ==> r->Ok_0.wf(),
{
    match guest_target_of(&plan.route, "grep") {
        Ok(path) => Ok(
            Json::object().with("pattern", Json::text(plan.pattern.as_str())).with(
                "path",
                Json::text(path.as_str()),
            ).with("include", Json::text_or_null(&plan.include_glob)),
        ),
        Err(error) => Err(error),
    }
}

/// A line in which the expression was found.
#[derive(Debug, PartialEq, Eq)]
pub struct GrepMatch {
    pub path: String,
    pub line_number: usize,
    pub line_text: String,
}

/// A line in which the expression was found, as it reads.
pub struct MatchView {
    pub path: Seq<char>,
    pub line_number: int,
    pub line_text: Seq<char>,
}

impl View for GrepMatch {
    type V = MatchView;

    open spec fn view(&self) -> MatchView {
        MatchView {
            path: self.path@,
            line_number: self.line_number as int,
            line_text: self.line_text@,
        }
    }
}

/// A file that is searched: its path, the way there, when it was changed, and its text where it
/// has one.
#[derive(Debug, PartialEq, Eq)]
pub struct SearchFile {
    pub path: String,
    pub relative: String,
    pub modified: Option<Timestamp>,
    pub content: Option<String>,
}

/// The lines in which an expression is found, cut where they are too long.
pub open spec fn found_lines(pattern: Seq<char>, path: Seq<char>, lines: Seq<Seq<char>>) -> Seq<
    MatchView,
>
    decreases lines.len(),
{
    if lines.len() == 0 {
        Seq::empty()
    } else {
        let before = found_lines(pattern, path, lines.drop_last());
        if patterns::regex_found(pattern, lines.last()) {
            before.push(
                MatchView {
                    path,
                    line_number: lines.len() as int,
                    line_text: text::clip_marked(lines.last(), MAX_LINE_LENGTH as int, "..."@),
                },
            )
        } else {
            before
        }
    }
}

/// Whether a file is searched.
pub open spec fn wanted(include_glob: Option<Seq<char>>, relative: Seq<char>) -> bool {
    match include_glob {
        Some(include_glob) => patterns::glob_accepts(include_glob, relative),
        None => true,
    }
}

/// What is found in a file, with the time it was changed.
pub open spec fn found_in(
    pattern: Seq<char>,
    include_glob: Option<Seq<char>>,
    file: SearchFile,
) -> Seq<(Newest, MatchView)> {
    match file.content {
        Some(content) if wanted(include_glob, file.relative@) => {
            let found = found_lines(pattern, file.path@, text::lines(content@));
            Seq::new(found.len(), |i: int| (Newest(search::change_time(file.modified)), found[i]))
        },
        _ => Seq::empty(),
    }
}

/// What is found in files.
pub open spec fn found_among(
    pattern: Seq<char>,
    include_glob: Option<Seq<char>>,
    files: Seq<SearchFile>,
) -> Seq<(Newest, MatchView)>
    decreases files.len(),
{
    if files.len() == 0 {
        Seq::empty()
    } else {
        found_among(pattern, include_glob, files.drop_last()) + found_in(
            pattern,
            include_glob,
            files.last(),
        )
    }
}

/// The lines that show what was found: each file's name once above what was found in it.
pub open spec fn grouped(found: Seq<(Newest, MatchView)>) -> Seq<Seq<char>>
    decreases found.len(),
{
    if found.len() == 0 {
        Seq::empty()
    } else {
        let hit = found.last().1;
        let first = found.len() == 1;
        let before = grouped(found.drop_last());
        let headed = if first {
            before.push(hit.path + ":"@)
        } else if found[found.len() - 2].1.path != hit.path {
            before.push(Seq::empty()).push(hit.path + ":"@)
        } else {
            before
        };
        headed.push(
            "  Line "@ + text::decimal(hit.line_number as nat) + ": "@ + hit.line_text,
        )
    }
}

/// The things that are shown: no more than a hundred.
pub open spec fn selected<V>(found: Seq<V>) -> Seq<V> {
    if found.len() > SEARCH_LIMIT {
        found.take(SEARCH_LIMIT as int)
    } else {
        found
    }
}

/// How what was found is shown, the files that changed last first.
pub open spec fn shown(found: Seq<(Newest, MatchView)>) -> Seq<char> {
    if found.len() == 0 {
        "No files found"@
    } else {
        text::join(
            seq![
                if found.len() > SEARCH_LIMIT {
                    "Found "@ + text::decimal(found.len()) + " matches (showing first 100)"@
                } else {
                    "Found "@ + text::decimal(found.len()) + " matches"@
                },
            ] + grouped(selected(order::ranked(found))),
            "\n"@,
        )
    }
}

/// What stands for matches with their times.
pub open spec fn hits(found: Seq<(Newest, GrepMatch)>) -> Seq<(Newest, MatchView)> {
    Seq::new(found.len(), |i: int| (found[i].0, found[i].1@))
}

/// A search that can be carried out.
#[derive(Debug)]
pub struct GrepSearch {
    pub regex: regex::Regex,
    pub include_glob: Option<glob::Pattern>,
}

/// The pattern that a compiled one was made from.
pub open spec fn glob_text(include_glob: Option<glob::Pattern>) -> Option<Seq<char>> {
    match include_glob {
        Some(include_glob) => Some(patterns::glob_source(include_glob)),
        None => None,
    }
}

/// Why a search cannot be carried out.
pub open spec fn search_error(pattern: Seq<char>, include_glob: Option<Seq<char>>) -> Option<
    ErrorView,
> {
    match patterns::regex_error(pattern) {
        Some(message) => Some(
            ErrorView::Tool("grep pattern is invalid regex: "@ + message),
        ),
        None => match include_glob {
            None => None,
            Some(include_glob) => match patterns::glob_error(include_glob) {
                Some(message) => Some(
                    ErrorView::Tool("grep include pattern is invalid: "@ + message),
                ),
                None => None,
            },
        },
    }
}

impl GrepSearch {
    /// A search for an expression, in files whose way matches a pattern where one is given.
    pub fn new(pattern: &str, include_glob: &Option<String>) -> (r: Result<Self, FrameworkError>)
        ensures
            match r {
                Ok(search) => search_error(pattern@, text::opt_view(*include_glob)) is None
                    && patterns::regex_source(search.regex) == pattern@ && glob_text(
                    search.include_glob,
                ) == text::opt_view(*include_glob),
                Err(error) => Some(error@) == search_error(
                    pattern@,
                    text::opt_view(*include_glob),
                ),
            },
    {
        let regex = match compile_regex(pattern) {
            Ok(regex) => regex,
            Err(message) => {
                return Err(
                    FrameworkError::Tool(
                        text::concat2("grep pattern is invalid regex: ", message.as_str()),
                    ),
                );
            },
        };
        match include_glob {
            None => Ok(GrepSearch { regex, include_glob: None }),
            Some(include_glob) => match compile_glob(include_glob.as_str()) {
                Ok(compiled) => Ok(GrepSearch { regex, include_glob: Some(compiled) }),
                Err(message) => Err(
                    FrameworkError::Tool(
                        text::concat2("grep include pattern is invalid: ", message.as_str()),
                    ),
                ),
            },
        }
    }

    /// Whether a file is searched.
    pub fn wants(&self, relative: &str) -> (r: bool)
        ensures
            r == wanted(glob_text(self.include_glob), relative@),
    {
        match &self.include_glob {
            Some(include_glob) => glob_matches(include_glob, relative),
            None => true,
        }
    }

    /// What is found in a text.
    fn scan(&self, path: &str, content: &str, modified: Timestamp) -> (r: Vec<(Newest, GrepMatch)>)
        ensures
            r@.len() == found_lines(
                patterns::regex_source(self.regex),
                path@,
                text::lines(content@),
            ).len(),
            forall|i: int|
                0 <= i < r@.len() ==> #[trigger] hits(r@)[i] == (
                    Newest(modified),
                    found_lines(
                        patterns::regex_source(self.regex),
                        path@,
                        text::lines(content@),
                    )[i],
                ),
    {
        let lines = text::lines_of(content);
        let ghost all = text::views(lines@);
        let ghost pattern = patterns::regex_source(self.regex);
        let mut found: Vec<(Newest, GrepMatch)> = Vec::new();
        let mut i: usize = 0;
        assert(all.take(0) =~= Seq::<Seq<char>>::empty());
        while i < lines.len()
            invariant
                i <= lines@.len(),
                all == text::views(lines@),
                pattern == patterns::regex_source(self.regex),
                found@.len() == found_lines(pattern, path@, all.take(i as int)).len(),
                forall|k: int|
                    0 <= k < found@.len() ==> #[trigger] hits(found@)[k] == (
                        Newest(modified),
                        found_lines(pattern, path@, all.take(i as int))[k],
                    ),
            decreases lines@.len() - i,
        {
            let ghost before = found@;
            proof {
                assert(all.take(i + 1).drop_last() =~= all.take(i as int));
                assert(all.take(i + 1).last() == lines@[i as int]@);
            }
            if regex_matches(&self.regex, lines[i].as_str()) {
                let line_text = text::clipped_marked(lines[i].as_str(), MAX_LINE_LENGTH, "...");
                found.push(
                    (
                        Newest(modified),
                        GrepMatch { path: path.to_owned(), line_number: i + 1, line_text },
                    ),
                );
                proof {
                    let now = found_lines(pattern, path@, all.take(i + 1));
                    assert forall|k: int| 0 <= k < found@.len() implies (
                    #[trigger] hits(found@)[k]) == (Newest(modified), now[k]) by {
                        if k < before.len() {
                            assert(hits(before)[k] == hits(found@)[k]);
                        }
                    }
                }
            }
            i = i + 1;
        }
        assert(all.take(all.len() as int) =~= all);
        found
    }

    /// What is found in files, and how it is shown.
    pub fn run(&self, files: &Vec<SearchFile>) -> (r: String)
        ensures
            r@ == shown(
                found_among(
                    patterns::regex_source(self.regex),
                    glob_text(self.include_glob),
                    files@,
                ),
            ),
    {
        let ghost pattern = patterns::regex_source(self.regex);
        let ghost include_glob = glob_text(self.include_glob);
        let mut found: Vec<(Newest, GrepMatch)> = Vec::new();
        let mut i: usize = 0;
        assert(files@.take(0) =~= Seq::<SearchFile>::empty());
        assert(hits(found@) =~= Seq::<(Newest, MatchView)>::empty());
        while i < files.len()
            invariant
                i <= files@.len(),
                pattern == patterns::regex_source(self.regex),
                include_glob == glob_text(self.include_glob),
                hits(found@) == found_among(pattern, include_glob, files@.take(i as int)),
            decreases files@.len() - i,
        {
            let ghost before = found@;
            proof {
                assert(files@.take(i + 1).drop_last() =~= files@.take(i as int));
                assert(files@.take(i + 1).last() == files@[i as int]);
            }
            if self.wants(files[i].relative.as_str()) {
                match &files[i].content {
                    Some(content) => {
                        let mut more = self.scan(
                            files[i].path.as_str(),
                            content.as_str(),
                            changed_at(files[i].modified),
                        );
                        let ghost added = more@;
                        found.append(&mut more);
                        proof {
                            assert(hits(added) =~= found_in(
                                pattern,
                                include_glob,
                                files@[i as int],
                            ));
                            assert(hits(found@) =~= hits(before) + hits(added));
                        }
                    },
                    None => {
                        assert(hits(before) + Seq::<(Newest, MatchView)>::empty() =~= hits(before));
                    },
                }
            } else {
                assert(hits(before) + Seq::<(Newest, MatchView)>::empty() =~= hits(before));
            }
            i = i + 1;
        }
        assert(files@.take(files@.len() as int) =~= files@);
        render_matches(found)
    }
}

/// How what was found is shown, the files that changed last first.
pub fn render_matches(found: Vec<(Newest, GrepMatch)>) -> (r: String)
    ensures
        r@ == shown(hits(found@)),
{
    if found.len() == 0 {
        return "No files found".to_owned();
    }
    let ghost given = hits(found@);
    let total: usize = found.len();
    let ghost unsorted = found@;
    let sorted = sort_ranked(found);
    proof {
        order::lemma_ranked_keys(unsorted, given, |m: GrepMatch| m@);
        order::law_ranking_orders(unsorted);
        assert(hits(sorted@) =~= order::ranked(given));
    }
    let count: usize = if total > SEARCH_LIMIT {
        SEARCH_LIMIT
    } else {
        total
    };
    let counted = text::concat2("Found ", text::decimal_of(total as u64).as_str());
    let title = if total > SEARCH_LIMIT {
        text::concat2(counted.as_str(), " matches (showing first 100)")
    } else {
        text::concat2(counted.as_str(), " matches")
    };
    let ghost all = selected(order::ranked(given));
    let mut out: Vec<String> = Vec::new();
    let ghost head = title@;
    out.push(title);
    assert(all.take(0) =~= Seq::<(Newest, MatchView)>::empty());
    assert(text::views(out@) =~= seq![head] + grouped(all.take(0)));
    let mut i: usize = 0;
    while i < count
        invariant
            i <= count,
            count <= sorted@.len(),
            count == all.len(),
            all =~= hits(sorted@).take(count as int),
            text::views(out@) == seq![head] + grouped(all.take(i as int)),
        decreases count - i,
    {
        proof {
            assert(all.take(i + 1).drop_last() =~= all.take(i as int));
            assert(all.take(i + 1).last() == hits(sorted@)[i as int]);
            assert(i > 0 ==> all.take(i + 1)[i - 1] == hits(sorted@)[i - 1]);
        }
        let hit = &sorted[i].1;
        if i == 0 {
            let ghost before = text::views(out@);
            let line = text::concat2(hit.path.as_str(), ":");
            out.push(line);
            assert(text::views(out@) =~= before.push(hit.path@ + ":"@));
        } else if !text::same_text(sorted[i - 1].1.path.as_str(), hit.path.as_str()) {
            let ghost before = text::views(out@);
            let none = String::new();
            assert(none@ =~= Seq::<char>::empty());
            out.push(none);
            let line = text::concat2(hit.path.as_str(), ":");
            out.push(line);
            assert(text::views(out@) =~= before.push(Seq::empty()).push(hit.path@ + ":"@));
        }
        let ghost before = text::views(out@);
        let number = text::concat3(
            "  Line ",
            text::decimal_of(hit.line_number as u64).as_str(),
            ": ",
        );
        let line = text::concat2(number.as_str(), hit.line_text.as_str());
        let ghost added = line@;
        out.push(line);
        proof {
            assert(text::views(out@) =~= before.push(added));
            assert(text::views(out@) =~= seq![head] + grouped(all.take(i + 1)));
        }
        i = i + 1;
    }
    assert(all.take(count as int) =~= all);
    text::joined(&out, "\n")
}

/// What a search answers: why it cannot be carried out, why the files cannot be had, or what is
/// found in them.
pub open spec fn grep_result(
    pattern: Seq<char>,
    include_glob: Option<Seq<char>>,
    files: Result<Seq<SearchFile>, ErrorView>,
) -> Result<Seq<char>, ErrorView> {
    match search_error(pattern, include_glob) {
        Some(error) => Err(error),
        None => match files {
            Err(error) => Err(error),
            Ok(files) => Ok(shown(found_among(pattern, include_glob, files))),
        },
    }
}

/// What a search answers, given the files or why they cannot be had.
pub fn run_grep(
    pattern: &str,
    files: Result<Vec<SearchFile>, FrameworkError>,
    include_glob: &Option<String>,
) -> (r: Result<String, FrameworkError>)
    ensures
        error::text_result(r) == grep_result(
            pattern@,
            text::opt_view(*include_glob),
            match files {
                Ok(files) => Ok(files@),
                Err(error) => Err(error@),
            },
        ),
{
    match GrepSearch::new(pattern, include_glob) {
        Err(error) => Err(error),
        Ok(search) => match files {
            Err(error) => Err(error),
            Ok(files) => Ok(search.run(&files)),
        },
    }
}

/// Every line that the pattern is found in is a match, with its number, and no other line is.
pub proof fn law_every_matching_line_is_found(
    pattern: Seq<char>,
    path: Seq<char>,
    lines: Seq<Seq<char>>,
    k: int,
)
    requires
        0 <= k < lines.len(),
    ensures
        patterns::regex_found(pattern, lines[k]) <==> exists|i: int|
            0 <= i < found_lines(pattern, path, lines).len() && (#[trigger] found_lines(
                pattern,
                path,
                lines,
            )[i]).line_number == k + 1,
        forall|i: int|
            0 <= i < found_lines(pattern, path, lines).len() ==> {
                let hit = #[trigger] found_lines(pattern, path, lines)[i];
                &&& 1 <= hit.line_number <= lines.len()
                &&& hit.path == path
                &&& lines[hit.line_number - 1].len() <= 2000 ==> hit.line_text
                    == lines[hit.line_number - 1]
                &&& lines[hit.line_number - 1].len() > 2000 ==> hit.line_text
                    == lines[hit.line_number - 1].take(2000) + "..."@
            },
        forall|i: int, j: int|
            0 <= i < j < found_lines(pattern, path, lines).len() ==> (#[trigger] found_lines(
                pattern,
                path,
                lines,
            )[i]).line_number < (#[trigger] found_lines(pattern, path, lines)[j]).line_number,
    decreases lines.len(),
{
    let before = lines.drop_last();
    let known = found_lines(pattern, path, before);
    let all = found_lines(pattern, path, lines);
    if before.len() > 0 {
        law_every_matching_line_is_found(pattern, path, before, if k < before.len() {
            k
        } else {
            0
        });
    }
    assert forall|i: int| 0 <= i < before.len() implies before[i] == #[trigger] lines[i] by {}
    assert forall|i: int| 0 <= i < known.len() implies #[trigger] all[i] == known[i] by {}
    if patterns::regex_found(pattern, lines.last()) {
        assert(all[known.len() as int].line_number == lines.len());
    }
    if k < before.len() {
        if patterns::regex_found(pattern, lines[k]) {
            let i = choose|i: int|
                0 <= i < known.len() && (#[trigger] known[i]).line_number == k + 1;
            assert(all[i].line_number == k + 1);
        }
        if exists|i: int| 0 <= i < all.len() && (#[trigger] all[i]).line_number == k + 1 {
            let i = choose|i: int| 0 <= i < all.len() && (#[trigger] all[i]).line_number == k + 1;
            if i < known.len() {
                assert(known[i].line_number == k + 1);
            }
        }
    } else {
        assert(lines[k] == lines.last());
        if exists|i: int| 0 <= i < all.len() && (#[trigger] all[i]).line_number == k + 1 {
            let i = choose|i: int| 0 <= i < all.len() && (#[trigger] all[i]).line_number == k + 1;
            if i < known.len() {
                assert(known[i].line_number == k + 1);
            }
        }
    }
}

/// A file is searched where it can be read and is asked for; then all its matches are found, with
/// the time of its last change.
pub proof fn law_wanted_files_are_searched(
    pattern: Seq<char>,
    include_glob: Option<Seq<char>>,
    file: SearchFile,
    i: int,
)
    ensures
        file.content is None ==> found_in(pattern, include_glob, file).len() == 0,
        include_glob is Some && !patterns::glob_accepts(include_glob->0, file.relative@)
            ==> found_in(pattern, include_glob, file).len() == 0,
        file.content is Some && (include_glob is None || patterns::glob_accepts(
            include_glob->0,
            file.relative@,
        )) ==> {
            let lines = found_lines(pattern, file.path@, text::lines(file.content->0@));
            let found = found_in(pattern, include_glob, file);
            &&& found.len() == lines.len()
            &&& 0 <= i < lines.len() ==> found[i].1 == lines[i]
            &&& 0 <= i < lines.len() && file.modified is Some ==> found[i].0 == Newest(
                file.modified->0,
            )
        },
{
}

/// The matches of files are those of each of them, one file after another.
pub proof fn law_files_are_searched_in_turn(
    pattern: Seq<char>,
    include_glob: Option<Seq<char>>,
    first: Seq<SearchFile>,
    second: Seq<SearchFile>,
)
    ensures
        found_among(pattern, include_glob, first + second) == found_among(
            pattern,
            include_glob,
            first,
        ) + found_among(pattern, include_glob, second),
        first.len() == 1 ==> found_among(pattern, include_glob, first) == found_in(
            pattern,
            include_glob,
            first[0],
        ),
    decreases second.len(),
{
    if first.len() == 1 {
        reveal_with_fuel(found_among, 2);
        assert(found_among(pattern, include_glob, first) =~= found_in(
            pattern,
            include_glob,
            first[0],
        ));
    }
    if second.len() == 0 {
        assert(first + second =~= first);
        assert(found_among(pattern, include_glob, first) + found_among(
            pattern,
            include_glob,
            second,
        ) =~= found_among(pattern, include_glob, first));
    } else {
        law_files_are_searched_in_turn(pattern, include_glob, first, second.drop_last());
        assert((first + second).drop_last() =~= first + second.drop_last());
        assert(found_among(pattern, include_glob, first) + found_among(
            pattern,
            include_glob,
            second.drop_last(),
        ) + found_in(pattern, include_glob, second.last()) =~= found_among(
            pattern,
            include_glob,
            first,
        ) + found_among(pattern, include_glob, second));
    }
}

/// Every match that is shown has its line, with its number and its text.
pub proof fn law_every_match_is_shown(found: Seq<(Newest, MatchView)>, i: int)
    requires
        0 <= i < found.len(),
    ensures
        grouped(found).contains(
            "  Line "@ + text::decimal(found[i].1.line_number as nat) + ": "@
                + found[i].1.line_text,
        ),
        grouped(found).contains(found[i].1.path + ":"@),
    decreases found.len(),
{
    let before = found.drop_last();
    let all = grouped(found);
    let hit = found[i].1;
    let line = "  Line "@ + text::decimal(hit.line_number as nat) + ": "@ + hit.line_text;
    if i < before.len() {
        law_every_match_is_shown(before, i);
        let known = grouped(before);
        let k = choose|k: int| 0 <= k < known.len() && known[k] == line;
        assert(all[k] == line);
        let h = choose|h: int| 0 <= h < known.len() && known[h] == hit.path + ":"@;
        assert(all[h] == hit.path + ":"@);
    } else {
        assert(found.last() == found[i]);
        assert(all[all.len() - 1] == line);
        if found.len() > 1 && found[found.len() - 2].1.path == hit.path {
            law_every_match_is_shown(before, found.len() - 2);
            let known = grouped(before);
            let h = choose|h: int| 0 <= h < known.len() && known[h] == hit.path + ":"@;
            assert(all[h] == hit.path + ":"@);
        } else {
            assert(all[all.len() - 2] == hit.path + ":"@);
        }
    }
}

/// What is shown names how many matches there are, and shows the newest hundred of them.
pub proof fn law_the_newest_matches_are_shown(found: Seq<(Newest, MatchView)>)
    ensures
        found.len() == 0 ==> shown(found) == "No files found"@,
        0 < found.len() <= 100 ==> shown(found) == text::join(
            seq!["Found "@ + text::decimal(found.len()) + " matches"@] + grouped(
                order::ranked(found),
            ),
            "\n"@,
        ),
        found.len() > 100 ==> shown(found) == text::join(
            seq!["Found "@ + text::decimal(found.len()) + " matches (showing first 100)"@]
                + grouped(order::ranked(found).take(100)),
            "\n"@,
        ),
        order::ordered(order::ranked(found)),
        order::ranked(found).len() == found.len(),
{
    order::law_ranking_orders(found);
}

/// A search with a wrong pattern says so; any other shows what is found among the files.
pub proof fn law_wrong_patterns_are_told(
    pattern: Seq<char>,
    include_glob: Option<Seq<char>>,
    files: Seq<SearchFile>,
)
    ensures
        patterns::regex_error(pattern) is Some ==> grep_result(pattern, include_glob, Ok(files))
            is Err,
        include_glob is Some && patterns::glob_error(include_glob->0) is Some ==> grep_result(
            pattern,
            include_glob,
            Ok(files),
        ) is Err,
        patterns::regex_error(pattern) is None && (include_glob is None || patterns::glob_error(
            include_glob->0,
        ) is None) ==> grep_result(pattern, include_glob, Ok(files)) == Ok::<Seq<char>, ErrorView>(
            shown(found_among(pattern, include_glob, files)),
        ),
{
}

/// Each match has its line, and the matches of a file stand below its path; files are parted by an
/// empty line.
pub proof fn law_matches_are_grouped_by_file(
    found: Seq<(Newest, MatchView)>,
    next: (Newest, MatchView),
)
    ensures
        ({
            let line = "  Line "@ + text::decimal(next.1.line_number as nat) + ": "@
                + next.1.line_text;
            let all = grouped(found.push(next));
            &&& found.len() == 0 ==> all == seq![next.1.path + ":"@, line]
            &&& found.len() > 0 && found.last().1.path == next.1.path ==> all == grouped(
                found,
            ).push(line)
            &&& found.len() > 0 && found.last().1.path != next.1.path ==> all == grouped(found)
                + seq![Seq::<char>::empty(), next.1.path + ":"@, line]
        }),
{
    let all = found.push(next);
    assert(all.drop_last() =~= found);
    let line = "  Line "@ + text::decimal(next.1.line_number as nat) + ": "@ + next.1.line_text;
    if found.len() == 0 {
        assert(grouped(found) =~= Seq::<Seq<char>>::empty());
        assert(grouped(all) =~= seq![next.1.path + ":"@, line]);
    } else {
        assert(all[all.len() - 2] == found.last());
        if found.last().1.path != next.1.path {
            assert(grouped(all) =~= grouped(found) + seq![
                Seq::<char>::empty(),
                next.1.path + ":"@,
                line,
            ]);
        }
    }
}

/// What is looked for is what was asked, without the white space around it, in the files that were
/// asked for.
pub proof fn law_searches_are_as_asked(
    tool: &GrepTool,
    args: &GrepArgs,
    place: &FileEnv,
    is_dir: bool,
    r: Result<GrepPlan, FrameworkError>,
)
    requires
        call_ensures(GrepTool::plan, (tool, args, place, is_dir), r),
    ensures
        text::is_blank(args.pattern@) ==> r is Err,
        r matches Ok(plan) ==> plan.pattern@ == text::trim(args.pattern@) && text::opt_view(
            plan.include_glob,
        ) == text::opt_view(args.include_glob),
{
}

/// A guest is asked for the same as was planned.
pub proof fn law_guests_are_asked_for_the_plan(plan: &GrepPlan, r: Result<Json, FrameworkError>)
    requires
        call_ensures(guest_request, (plan,), r),
    ensures
        r is Ok <==> plan.route is Sandboxed,
        r matches Ok(request) ==> {
            &&& request@.text_at("pattern"@) == Some(plan.pattern@)
            &&& request@.text_at("path"@) == Some(plan.route->guest_path@)
            &&& request@.text_at("include"@) == text::opt_view(plan.include_glob)
        },
{
    reveal_strlit("pattern");
    reveal_strlit("path");
    reveal_strlit("include");
    assert("pattern"@.len() == 7 && "pattern"@[0] == 'p');
    assert("path"@.len() == 4);
    assert("include"@.len() == 7 && "include"@[0] == 'i');
}

/// A search takes as long as it was set to, and twenty seconds where nothing was set.
pub proof fn law_searches_take_their_time(tool: &GrepTool, r: u64)
    requires
        call_ensures(GrepTool::timeout_seconds, (tool,), r),
    ensures
        tool.config.timeout_seconds is Some ==> r == tool.config.timeout_seconds->0,
        tool.config.timeout_seconds is None ==> r == 20,
{
}

} // verus!
