//! The read tool: what it is asked for, and how it shows a file or a directory.
use vstd::prelude::*;
use crate::config::FileToolConfig;
use crate::error::{ErrorView, FrameworkError, SandboxCapability};
use crate::error;
use crate::json::{Json, JsonView};
use crate::json;
use crate::order;
use crate::paths::{NormalPath, PathView};
use crate::text;
use crate::tools::common::ToolExecutionKind;
use crate::tools::file_access::{guest_target_of, locate, FileEnv, FileToolRoute, RouteView};
use crate::tools::file_access;

verus! {

/// How many lines are shown where nothing is said.
pub const DEFAULT_READ_LIMIT: usize = 2000;

/// How much of a line is shown.
pub const MAX_LINE_LENGTH: usize = 2000;

/// The arguments of the tool.
#[derive(Debug, PartialEq, Eq)]
pub struct ReadArgs {
    pub file_path: String,
    pub offset: Option<usize>,
    pub limit: Option<usize>,
}

/// What is to be shown.
#[derive(Debug, PartialEq, Eq)]
pub struct ReadPlan {
    pub host_path: NormalPath,
    pub route: FileToolRoute,
    pub offset: usize,
    pub limit: usize,
}

/// What is to be shown, as it reads.
#[verifier::ext_equal]
pub struct PlanView {
    pub host_path: PathView,
    pub route: RouteView,
    pub offset: usize,
    pub limit: usize,
}

impl View for ReadPlan {
    type V = PlanView;

    open spec fn view(&self) -> PlanView {
        PlanView {
            host_path: self.host_path@,
            route: self.route@,
            offset: self.offset,
            limit: self.limit,
        }
    }
}

/// A number, or else a default.
pub open spec fn or_default(value: Option<usize>, otherwise: usize) -> usize {
    match value {
        Some(value) => value,
        None => otherwise,
    }
}

/// What is to be shown: lines and counts start at one.
pub open spec fn planned(args: ReadArgs, place: FileEnv, config: FileToolConfig) -> Result<
    PlanView,
    ErrorView,
> {
    let offset = or_default(args.offset, 1);
    let limit = or_default(args.limit, DEFAULT_READ_LIMIT);
    if text::is_blank(args.file_path@) {
        Err(ErrorView::Tool("read requires a non-empty filePath"@))
    } else if offset == 0 {
        Err(ErrorView::Tool("read offset must be greater than or equal to 1"@))
    } else if limit == 0 {
        Err(ErrorView::Tool("read limit must be greater than or equal to 1"@))
    } else {
        match file_access::located(
            text::trim(args.file_path@),
            place,
            config.sandbox,
            SandboxCapability::Read,
        ) {
            Ok((host_path, route)) => Ok(PlanView { host_path, route, offset, limit }),
            Err(error) => Err(error),
        }
    }
}

/// The read tool, with its settings.
#[derive(Debug, PartialEq, Eq)]
pub struct ReadTool {
    pub config: FileToolConfig,
}

impl ReadTool {
    /// What the tool is called.
    pub fn name(&self) -> (r: &'static str)
        ensures
            r@ == "read"@,
    {
        "read"
    }

    /// What the tool is for.
    pub fn description(&self) -> (r: &'static str)
        ensures
            r@ == "Read the contents of a file or list a directory. Returns numbered lines. Use offset and limit to page through large files. Lines are 1-indexed; default limit is 2000."@,
    {
        "Read the contents of a file or list a directory. Returns numbered lines. Use offset and limit to page through large files. Lines are 1-indexed; default limit is 2000."
    }

    /// What arguments the tool takes.
    pub fn input_schema_json(&self) -> (r: &'static str)
        ensures
            r@ == "{\"type\":\"object\",\"properties\":{\"filePath\":{\"type\":\"string\",\"description\":\"Absolute or workspace-relative path.\"},\"offset\":{\"type\":\"integer\",\"minimum\":1,\"description\":\"1-indexed line number to start from. Defaults to 1.\"},\"limit\":{\"type\":\"integer\",\"minimum\":1,\"description\":\"Max number of lines to return. Defaults to 2000.\"}},\"required\":[\"filePath\"]}"@,
    {
        "{\"type\":\"object\",\"properties\":{\"filePath\":{\"type\":\"string\",\"description\":\"Absolute or workspace-relative path.\"},\"offset\":{\"type\":\"integer\",\"minimum\":1,\"description\":\"1-indexed line number to start from. Defaults to 1.\"},\"limit\":{\"type\":\"integer\",\"minimum\":1,\"description\":\"Max number of lines to return. Defaults to 2000.\"}},\"required\":[\"filePath\"]}"
    }

    /// How the tool can run.
    pub fn supported_execution_kinds(&self) -> (r: Vec<ToolExecutionKind>)
        ensures
            r@ == seq![ToolExecutionKind::Direct, ToolExecutionKind::WasmSandbox],
    {
        vec![ToolExecutionKind::Direct, ToolExecutionKind::WasmSandbox]
    }

    /// The program that runs as a guest.
    pub fn artifact_name(&self) -> (r: &'static str)
        ensures
            r@ == "read_tool.wasm"@,
    {
        "read_tool.wasm"
    }

    /// How many seconds a guest may take.
    pub fn timeout_seconds(&self) -> (r: u64)
        ensures
            r == match self.config.timeout_seconds {
                Some(seconds) => seconds,
                None => 10,
            },
    {
        match self.config.timeout_seconds {
            Some(seconds) => seconds,
            None => 10,
        }
    }

    /// What is to be shown.
    pub fn plan(&self, args: &ReadArgs, place: &FileEnv) -> (r: Result<ReadPlan, FrameworkError>)
        ensures
            match r {
                Ok(plan) => Ok::<PlanView, ErrorView>(plan@),
                Err(error) => Err(error@),
            } == planned(*args, *place, self.config),
            r is Ok ==> r->Ok_0.offset > 0,
    {
        if text::blank(args.file_path.as_str()) {
            return Err(error::tool_error("read requires a non-empty filePath"));
        }
        let offset: usize = match args.offset {
            Some(offset) => offset,
            None => 1,
        };
        if offset == 0 {
            return Err(error::tool_error("read offset must be greater than or equal to 1"));
        }
        let limit: usize = match args.limit {
            Some(limit) => limit,
            None => DEFAULT_READ_LIMIT,
        };
        if limit == 0 {
            return Err(error::tool_error("read limit must be greater than or equal to 1"));
        }
        let file_path = text::trimmed(args.file_path.as_str());
        match locate(file_path.as_str(), place, &self.config.sandbox, SandboxCapability::Read) {
            Ok((host_path, route)) => Ok(ReadPlan { host_path, route, offset, limit }),
            Err(error) => Err(error),
        }
    }
}

/// What a guest is told.
pub fn guest_request(plan: &ReadPlan) -> (r: Result<Json, FrameworkError>)
    ensures
        match r {
            Ok(request) => Ok::<JsonView, ErrorView>(request@),
            Err(error) => Err(error@),
        } == match file_access::guest_target(plan.route@, "read"@) {
            Ok(path) => Ok::<JsonView, ErrorView>(
                JsonView::Object(
                    map![
                        "path"@ => JsonView::Str(path),
                        "offset"@ => JsonView::Number(json::integer_number(plan.offset as int)),
                        "limit"@ => JsonView::Number(json::integer_number(plan.limit as int)),
                    ],
                ),
            ),
            Err(error) => Err(error),
        },
        r is Ok ==> r->Ok_0.wf(),
{
    match guest_target_of(&plan.route, "read") {
        Ok(path) => Ok(
            Json::object().with("path", Json::text(path.as_str())).with(
                "offset",
                Json::unsigned(plan.offset as u64),
            ).with("limit", Json::unsigned(plan.limit as u64)),
        ),
        Err(error) => Err(error),
    }
}

/// A line with its number in front, cut where it is too long.
pub open spec fn numbered(line: Seq<char>, number: int) -> Seq<char> {
    text::decimal(number as nat) + ": "@ + text::clip_marked(line, MAX_LINE_LENGTH as int, "..."@)
}

/// How many lines are shown.
pub open spec fn shown_count(total: int, offset: int, limit: int) -> int {
    if total - (offset - 1) <= 0 {
        0
    } else if total - (offset - 1) < limit {
        total - (offset - 1)
    } else {
        limit
    }
}

/// The lines that are shown, with their numbers.
pub open spec fn shown_lines(lines: Seq<Seq<char>>, offset: int, limit: int) -> Seq<Seq<char>> {
    Seq::new(
        shown_count(lines.len() as int, offset, limit) as nat,
        |i: int| numbered(lines[offset - 1 + i], offset + i),
    )
}

/// What is said behind the lines that are shown.
pub open spec fn file_note(total: int, offset: int, limit: int) -> Seq<char> {
    let last = offset - 1 + shown_count(total, offset, limit);
    if last < total {
        "(Showing lines "@ + text::decimal(offset as nat) + "-"@ + text::decimal(last as nat)
            + " of "@ + text::decimal(total as nat) + ". Use offset="@ + text::decimal(
            (last + 1) as nat,
        ) + " to continue.)"@
    } else {
        "(End of file - total "@ + text::decimal(total as nat) + " lines)"@
    }
}

/// How a file is shown.
pub open spec fn shown_file(
    path: Seq<char>,
    content: Seq<char>,
    offset: int,
    limit: int,
) -> Result<Seq<char>, ErrorView> {
    let lines = text::lines(content);
    let total = lines.len() as int;
    if offset > (if total == 0 {
        1
    } else {
        total
    }) {
        Err(
            ErrorView::Tool(
                "Offset "@ + text::decimal(offset as nat) + " is out of range for this file ("@
                    + text::decimal(total as nat) + " lines)"@,
            ),
        )
    } else {
        Ok(
            text::join(
                seq![
                    "<path>"@ + path + "</path>"@,
                    "<type>file</type>"@,
                    "<content>"@,
                ] + shown_lines(lines, offset, limit) + seq![
                    Seq::<char>::empty(),
                    file_note(total, offset, limit),
                    "</content>"@,
                ],
                "\n"@,
            ),
        )
    }
}

/// A number in decimal notation.
fn number(n: usize) -> (r: String)
    ensures
        r@ == text::decimal(n as nat),
{
    text::decimal_of(n as u64)
}

/// What is said behind the lines that are shown.
fn note_for_file(total: usize, offset: usize, last: usize) -> (r: String)
    ensures
        r@ == if last < total {
            "(Showing lines "@ + text::decimal(offset as nat) + "-"@ + text::decimal(last as nat)
                + " of "@ + text::decimal(total as nat) + ". Use offset="@ + text::decimal(
                (last + 1) as nat,
            ) + " to continue.)"@
        } else {
            "(End of file - total "@ + text::decimal(total as nat) + " lines)"@
        },
{
    if last < total {
        let first = text::concat3("(Showing lines ", number(offset).as_str(), "-");
        let second = text::concat3(first.as_str(), number(last).as_str(), " of ");
        let third = text::concat3(second.as_str(), number(total).as_str(), ". Use offset=");
        text::concat3(third.as_str(), number(last + 1).as_str(), " to continue.)")
    } else {
        text::concat3("(End of file - total ", number(total).as_str(), " lines)")
    }
}

/// How a file is shown.
pub fn render_file_output(path: &str, content: &str, offset: usize, limit: usize) -> (r: Result<
    String,
    FrameworkError,
>)
    requires
        offset > 0,
    ensures
        error::text_result(r) == shown_file(path@, content@, offset as int, limit as int),
{
    let lines = text::lines_of(content);
    let ghost all = text::views(lines@);
    let total: usize = lines.len();
    let reach: usize = if total == 0 {
        1
    } else {
        total
    };
    if offset > reach {
        let first = text::concat3(
            "Offset ",
            number(offset).as_str(),
            " is out of range for this file (",
        );
        return Err(
            FrameworkError::Tool(text::concat3(first.as_str(), number(total).as_str(), " lines)")),
        );
    }
    let ghost head = seq!["<path>"@ + path@ + "</path>"@, "<type>file</type>"@, "<content>"@];
    let ghost shown = shown_lines(all, offset as int, limit as int);
    let mut output: Vec<String> = Vec::new();
    output.push(text::concat3("<path>", path, "</path>"));
    output.push("<type>file</type>".to_owned());
    output.push("<content>".to_owned());
    assert(text::views(output@) =~= head);
    assert(head + shown.take(0) =~= head);
    let mut i: usize = 0;
    while i < limit && offset - 1 + i < total
        invariant
            0 < offset <= reach,
            reach == (if total == 0 {
                1
            } else {
                total
            }),
            total == lines@.len(),
            total == lines.len(),
            all == text::views(lines@),
            shown == shown_lines(all, offset as int, limit as int),
            i <= limit,
            offset - 1 + i <= total,
            text::views(output@) == head + shown.take(i as int),
        decreases limit - i,
    {
        let ghost before = text::views(output@);
        let at: usize = offset - 1 + i;
        let cut = text::clipped_marked(lines[at].as_str(), MAX_LINE_LENGTH, "...");
        let line = text::concat3(number(at + 1).as_str(), ": ", cut.as_str());
        output.push(line);
        proof {
            assert(all[at as int] == lines@[at as int]@);
            assert(shown[i as int] == line@);
            assert(text::views(output@) =~= before.push(line@));
            assert(head + shown.take(i + 1) =~= before.push(line@));
        }
        i = i + 1;
    }
    assert(shown.take(i as int) =~= shown);
    let last: usize = offset - 1 + i;
    let note = note_for_file(total, offset, last);
    let ghost body = text::views(output@);
    output.push(String::new());
    output.push(note);
    output.push("</content>".to_owned());
    proof {
        let tail = seq![
            Seq::<char>::empty(),
            file_note(total as int, offset as int, limit as int),
            "</content>"@,
        ];
        assert(text::views(output@) =~= body + tail);
    }
    Ok(text::joined(&output, "\n"))
}

/// The names of entries; a directory's ends with a slash.
pub open spec fn entry_names(entries: Seq<(String, bool)>) -> Seq<Seq<char>> {
    Seq::new(
        entries.len(),
        |i: int|
            if entries[i].1 {
                entries[i].0@ + "/"@
            } else {
                entries[i].0@
            },
    )
}

/// The names that are shown.
pub open spec fn shown_names(names: Seq<Seq<char>>, offset: int, limit: int) -> Seq<Seq<char>> {
    Seq::new(
        shown_count(names.len() as int, offset, limit) as nat,
        |i: int| names[offset - 1 + i],
    )
}

/// What is said behind the names that are shown.
pub open spec fn directory_note(total: int, offset: int, limit: int) -> Seq<char> {
    let count = shown_count(total, offset, limit);
    if offset - 1 + count < total {
        "\n(Showing "@ + text::decimal(count as nat) + " of "@ + text::decimal(total as nat)
            + " entries. Use offset="@ + text::decimal((offset + count) as nat)
            + " to continue.)"@
    } else {
        "\n("@ + text::decimal(total as nat) + " entries)"@
    }
}

/// How a directory is shown: its names in order, from an offset on.
pub open spec fn shown_directory(
    path: Seq<char>,
    names: Seq<Seq<char>>,
    offset: int,
    limit: int,
) -> Seq<char> {
    let sorted = order::sorted_texts(names);
    text::join(
        seq![
            "<path>"@ + path + "</path>"@,
            "<type>directory</type>"@,
            "<entries>"@,
            text::join(shown_names(sorted, offset, limit), "\n"@),
            directory_note(names.len() as int, offset, limit),
            "</entries>"@,
        ],
        "\n"@,
    )
}

/// How a directory is shown.
pub fn render_directory_output(
    path: &str,
    entries: Vec<(String, bool)>,
    offset: usize,
    limit: usize,
) -> (r: Result<String, FrameworkError>)
    ensures
        error::text_result(r) == if offset == 0 {
            Err::<Seq<char>, ErrorView>(
                ErrorView::Tool("read offset must be greater than or equal to 1"@),
            )
        } else {
            Ok::<Seq<char>, ErrorView>(
                shown_directory(path@, entry_names(entries@), offset as int, limit as int),
            )
        },
{
    if offset == 0 {
        return Err(error::tool_error("read offset must be greater than or equal to 1"));
    }
    let ghost given = entries@;
    let ghost wanted = entry_names(given);
    let mut names: Vec<String> = Vec::new();
    for entry in iter: entries
        invariant
            iter.seq() == given,
            wanted == entry_names(given),
            text::views(names@) =~= wanted.take(iter.index() as int),
    {
        let ghost before = text::views(names@);
        let (name, is_dir) = entry;
        let shown = if is_dir {
            text::concat2(name.as_str(), "/")
        } else {
            name
        };
        let ghost added = shown@;
        names.push(shown);
        assert(text::views(names@) =~= before.push(added));
    }
    assert(wanted.take(wanted.len() as int) =~= wanted);
    let sorted = order::sort_texts(names);
    let ghost all = text::views(sorted@);
    proof {
        order::law_sorting_texts_orders(wanted);
    }
    let total: usize = sorted.len();
    let ghost shown = shown_names(all, offset as int, limit as int);
    let mut selected: Vec<String> = Vec::new();
    let mut i: usize = 0;
    while i < limit && offset - 1 < total && i < total - (offset - 1)
        invariant
            offset > 0,
            total == sorted@.len(),
            all == text::views(sorted@),
            shown == shown_names(all, offset as int, limit as int),
            i <= limit,
            i <= shown.len(),
            text::views(selected@) =~= shown.take(i as int),
        decreases limit - i,
    {
        let ghost before = text::views(selected@);
        let at: usize = offset - 1 + i;
        selected.push(sorted[at].clone());
        assert(shown[i as int] == sorted@[at as int]@);
        assert(text::views(selected@) =~= before.push(shown[i as int]));
        i = i + 1;
    }
    assert(shown.take(i as int) =~= shown);
    let note = if offset - 1 < total && i < total - (offset - 1) {
        let first = text::concat3("\n(Showing ", number(i).as_str(), " of ");
        let second = text::concat3(
            first.as_str(),
            number(total).as_str(),
            " entries. Use offset=",
        );
        text::concat3(second.as_str(), number(offset + i).as_str(), " to continue.)")
    } else {
        text::concat3("\n(", number(total).as_str(), " entries)")
    };
    let mut output: Vec<String> = Vec::new();
    output.push(text::concat3("<path>", path, "</path>"));
    output.push("<type>directory</type>".to_owned());
    output.push("<entries>".to_owned());
    output.push(text::joined(&selected, "\n"));
    output.push(note);
    output.push("</entries>".to_owned());
    proof {
        assert(text::views(output@) =~= seq![
            "<path>"@ + path@ + "</path>"@,
            "<type>directory</type>"@,
            "<entries>"@,
            text::join(shown, "\n"@),
            directory_note(total as int, offset as int, limit as int),
            "</entries>"@,
        ]);
    }
    Ok(text::joined(&output, "\n"))
}

/// Reading on from where the note says misses nothing and repeats nothing: two pages of a file, the
/// second from the line behind the first, show what one page as long as both shows; and where the
/// first page is the last, more lines show nothing more.
pub proof fn law_reading_on_misses_nothing(
    lines: Seq<Seq<char>>,
    offset: int,
    limit: int,
    next_limit: int,
)
    requires
        1 <= offset <= lines.len(),
        1 <= limit,
        1 <= next_limit,
    ensures
        ({
            let total = lines.len() as int;
            let last = offset - 1 + shown_count(total, offset, limit);
            let whole = shown_lines(lines, offset, limit + next_limit);
            &&& offset <= last <= total
            &&& last < total ==> whole == shown_lines(lines, offset, limit) + shown_lines(
                lines,
                last + 1,
                next_limit,
            )
            &&& last == total ==> whole == shown_lines(lines, offset, limit)
        }),
{
    let total = lines.len() as int;
    let last = offset - 1 + shown_count(total, offset, limit);
    let whole = shown_lines(lines, offset, limit + next_limit);
    if last < total {
        assert(whole =~= shown_lines(lines, offset, limit) + shown_lines(
            lines,
            last + 1,
            next_limit,
        ));
    } else {
        assert(whole =~= shown_lines(lines, offset, limit));
    }
}

/// Two pages of a directory, the second from the name behind the first, show what one page as long
/// as both shows.
pub proof fn law_listing_on_misses_nothing(
    names: Seq<Seq<char>>,
    offset: int,
    limit: int,
    next_limit: int,
)
    requires
        1 <= offset <= names.len(),
        1 <= limit,
        1 <= next_limit,
        offset - 1 + shown_count(names.len() as int, offset, limit) < names.len(),
    ensures
        shown_names(names, offset, limit + next_limit) == shown_names(names, offset, limit)
            + shown_names(
            names,
            offset + shown_count(names.len() as int, offset, limit),
            next_limit,
        ),
{
    assert(shown_names(names, offset, limit + next_limit) =~= shown_names(names, offset, limit)
        + shown_names(
        names,
        offset + shown_count(names.len() as int, offset, limit),
        next_limit,
    ));
}

/// A page shows the lines from the asked one on, as many as asked for or as there are, each with its
/// number and as it is; only a line that is too long is cut, and marked.
pub proof fn law_pages_show_the_lines_asked_for(
    lines: Seq<Seq<char>>,
    offset: int,
    limit: int,
    i: int,
)
    requires
        1 <= offset <= lines.len(),
        1 <= limit,
    ensures
        ({
            let shown = shown_lines(lines, offset, limit);
            let left = lines.len() - offset + 1;
            &&& shown.len() == if left < limit {
                left
            } else {
                limit
            }
            &&& 0 <= i < shown.len() && lines[offset - 1 + i].len() <= 2000 ==> shown[i]
                == text::decimal((offset + i) as nat) + ": "@ + lines[offset - 1 + i]
            &&& 0 <= i < shown.len() && lines[offset - 1 + i].len() > 2000 ==> shown[i]
                == text::decimal((offset + i) as nat) + ": "@ + (lines[offset - 1 + i].take(2000)
                + "..."@)
        }),
{
}

/// A file is shown with its path, its lines and where to go on; an offset behind its last line is
/// refused.
pub proof fn law_files_are_shown_from_the_offset(
    path: Seq<char>,
    content: Seq<char>,
    offset: int,
    limit: int,
)
    requires
        1 <= offset,
        1 <= limit,
    ensures
        ({
            let lines = text::lines(content);
            &&& shown_file(path, content, offset, limit) is Err <==> offset > lines.len() && !(
            lines.len() == 0 && offset == 1)
            &&& shown_file(path, content, offset, limit) is Ok ==> shown_file(
                path,
                content,
                offset,
                limit,
            )->Ok_0 == text::join(
                seq!["<path>"@ + path + "</path>"@, "<type>file</type>"@, "<content>"@]
                    + shown_lines(lines, offset, limit) + seq![
                    Seq::<char>::empty(),
                    file_note(lines.len() as int, offset, limit),
                    "</content>"@,
                ],
                "\n"@,
            )
        }),
{
}

/// The note behind a page names the line to go on with, which is the one behind the last shown, or
/// says that the file is at its end.
pub proof fn law_notes_name_the_next_line(total: int, offset: int, limit: int)
    requires
        1 <= offset <= total,
        1 <= limit,
    ensures
        offset + limit <= total ==> file_note(total, offset, limit) == "(Showing lines "@
            + text::decimal(offset as nat) + "-"@ + text::decimal((offset + limit - 1) as nat)
            + " of "@ + text::decimal(total as nat) + ". Use offset="@ + text::decimal(
            (offset + limit) as nat,
        ) + " to continue.)"@,
        offset + limit > total ==> file_note(total, offset, limit) == "(End of file - total "@
            + text::decimal(total as nat) + " lines)"@,
        offset + limit <= total ==> directory_note(total, offset, limit) == "\n(Showing "@
            + text::decimal(limit as nat) + " of "@ + text::decimal(total as nat)
            + " entries. Use offset="@ + text::decimal((offset + limit) as nat)
            + " to continue.)"@,
        offset + limit > total ==> directory_note(total, offset, limit) == "\n("@ + text::decimal(
            total as nat,
        ) + " entries)"@,
{
}

/// A directory shows its entries by name, sorted; one that is a directory ends with a slash.
pub proof fn law_directories_show_their_entries(
    entries: Seq<(String, bool)>,
    offset: int,
    limit: int,
    i: int,
)
    requires
        1 <= offset,
        1 <= limit,
    ensures
        entry_names(entries).len() == entries.len(),
        0 <= i < entries.len() ==> entry_names(entries)[i] == if entries[i].1 {
            entries[i].0@ + "/"@
        } else {
            entries[i].0@
        },
        ({
            let sorted = order::sorted_texts(entry_names(entries));
            let shown = shown_names(sorted, offset, limit);
            &&& sorted.to_multiset() == entry_names(entries).to_multiset()
            &&& order::texts_ordered(sorted)
            &&& 0 <= i < shown.len() ==> shown[i] == sorted[offset - 1 + i]
            &&& offset <= entries.len() ==> shown.len() == if entries.len() - offset + 1 < limit {
                entries.len() - offset + 1
            } else {
                limit
            }
        }),
{
    order::law_sorting_texts_orders(entry_names(entries));
}

/// Without an offset reading starts at the first line, and without a limit it shows two thousand;
/// an offset or a limit of nothing, or a path of nothing, is refused.
pub proof fn law_reads_start_at_the_first_line(
    args: ReadArgs,
    place: FileEnv,
    config: FileToolConfig,
)
    ensures
        planned(args, place, config) matches Ok(plan) ==> {
            &&& plan.offset == (match args.offset {
                Some(offset) => offset,
                None => 1,
            })
            &&& plan.limit == (match args.limit {
                Some(limit) => limit,
                None => 2000,
            })
            &&& plan.offset > 0
            &&& plan.limit > 0
            &&& file_access::located(
                text::trim(args.file_path@),
                place,
                config.sandbox,
                SandboxCapability::Read,
            ) == Ok::<(PathView, RouteView), ErrorView>((plan.host_path, plan.route))
        },
        args.offset == Some(0usize) || args.limit == Some(0usize) || text::is_blank(args.file_path@)
            ==> planned(args, place, config) is Err,
{
}

/// A directory is shown with its path, the names that were asked for, sorted, and where to go on.
pub proof fn law_directories_are_shown(
    path: Seq<char>,
    names: Seq<Seq<char>>,
    offset: int,
    limit: int,
)
    ensures
        shown_directory(path, names, offset, limit) == text::join(
            seq![
                "<path>"@ + path + "</path>"@,
                "<type>directory</type>"@,
                "<entries>"@,
                text::join(shown_names(order::sorted_texts(names), offset, limit), "\n"@),
                directory_note(names.len() as int, offset, limit),
                "</entries>"@,
            ],
            "\n"@,
        ),
{
}

/// A guest is asked for the same as was planned.
pub proof fn law_guests_are_asked_for_the_plan(plan: &ReadPlan, r: Result<Json, FrameworkError>)
    requires
        call_ensures(guest_request, (plan,), r),
    ensures
        r is Ok <==> plan.route is Sandboxed,
        r matches Ok(request) ==> {
            &&& request@.text_at("path"@) == Some(plan.route->guest_path@)
            &&& request@.get("offset"@) == Some(
                JsonView::Number(json::integer_number(plan.offset as int)),
            )
            &&& request@.get("limit"@) == Some(
                JsonView::Number(json::integer_number(plan.limit as int)),
            )
        },
{
    reveal_strlit("path");
    reveal_strlit("offset");
    reveal_strlit("limit");
    assert("path"@.len() == 4);
    assert("offset"@.len() == 6);
    assert("limit"@.len() == 5);
}

/// A reading takes as long as it was set to, and ten seconds where nothing was set.
pub proof fn law_readings_take_their_time(tool: &ReadTool, r: u64)
    requires
        call_ensures(ReadTool::timeout_seconds, (tool,), r),
    ensures
        tool.config.timeout_seconds is Some ==> r == tool.config.timeout_seconds->0,
        tool.config.timeout_seconds is None ==> r == 10,
{
}

} // verus!
