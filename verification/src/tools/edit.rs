//! The edit tool: what it is asked for, and what it makes of a file.
use vstd::prelude::*;
use crate::config::FileToolConfig;
use crate::error::{ErrorView, FrameworkError, SandboxCapability};
use crate::error;
use crate::json::{Json, JsonView};
use crate::paths::{NormalPath, PathView};
use crate::text;
use crate::tools::common::ToolExecutionKind;
use crate::tools::file_access::{guest_target_of, locate, FileEnv, FileToolRoute, RouteView};
use crate::tools::file_access;

verus! {

/// The arguments of the tool.
#[derive(Debug, PartialEq, Eq)]
pub struct EditArgs {
    pub file_path: String,
    pub old_string: String,
    pub new_string: String,
    pub replace_all: bool,
}

/// What is to be changed, and where.
#[derive(Debug, PartialEq, Eq)]
pub struct EditPlan {
    pub args: EditArgs,
    pub host_path: NormalPath,
    pub route: FileToolRoute,
}

/// Where the change takes place.
pub open spec fn planned(args: EditArgs, place: FileEnv, config: FileToolConfig) -> Result<
    (PathView, RouteView),
    ErrorView,
> {
    if text::is_blank(args.file_path@) {
        Err(ErrorView::Tool("edit requires a non-empty filePath"@))
    } else if args.old_string@ == args.new_string@ {
        Err(
            ErrorView::Tool("No changes to apply: oldString and newString are identical."@),
        )
    } else {
        file_access::located(args.file_path@, place, config.sandbox, SandboxCapability::Write)
    }
}

/// The edit tool, with its settings.
#[derive(Debug, PartialEq, Eq)]
pub struct EditTool {
    pub config: FileToolConfig,
}

impl EditTool {
    /// What the tool is called.
    pub fn name(&self) -> (r: &'static str)
        ensures
            r@ == "edit"@,
    {
        "edit"
    }

    /// What the tool is for.
    pub fn description(&self) -> (r: &'static str)
        ensures
            r@ == "Edit a file using JSON: {filePath, oldString, newString, replaceAll?}."@,
    {
        "Edit a file using JSON: {filePath, oldString, newString, replaceAll?}."
    }

    /// What arguments the tool takes.
    pub fn input_schema_json(&self) -> (r: &'static str)
        ensures
            r@ == "{\"type\":\"object\",\"properties\":{\"filePath\":{\"type\":\"string\"},\"oldString\":{\"type\":\"string\"},\"newString\":{\"type\":\"string\"},\"replaceAll\":{\"type\":\"boolean\"}},\"required\":[\"filePath\",\"oldString\",\"newString\"]}"@,
    {
        "{\"type\":\"object\",\"properties\":{\"filePath\":{\"type\":\"string\"},\"oldString\":{\"type\":\"string\"},\"newString\":{\"type\":\"string\"},\"replaceAll\":{\"type\":\"boolean\"}},\"required\":[\"filePath\",\"oldString\",\"newString\"]}"
    }

    /// How the tool can run.
    pub fn supported_execution_kinds(&self) -> (r: Vec<ToolExecutionKind>)
        ensures
            r@ == seq![ToolExecutionKind::Direct, ToolExecutionKind::WasmSandbox],
    {
        vec![ToolExecutionKind::Direct, ToolExecutionKind::WasmSandbox]
    }

    /// The program that runs as a guest.
    pub fn artifact_name(&self) -> (r: &'static str)
        ensures
            r@ == "edit_tool.wasm"@,
    {
        "edit_tool.wasm"
    }

    /// How many seconds a guest may take.
    pub fn timeout_seconds(&self) -> (r: u64)
        ensures
            r == match self.config.timeout_seconds {
                Some(seconds) => seconds,
                None => 15,
            },
    {
        match self.config.timeout_seconds {
            Some(seconds) => seconds,
            None => 15,
        }
    }

    /// What is to be changed, and where.
    pub fn plan(&self, args: EditArgs, place: &FileEnv) -> (r: Result<EditPlan, FrameworkError>)
        ensures
            match r {
                Ok(plan) => Ok::<(PathView, RouteView), ErrorView>((plan.host_path@, plan.route@)),
                Err(error) => Err(error@),
            } == planned(args, *place, self.config),
            r is Ok ==> r->Ok_0.args == args,
    {
        if text::blank(args.file_path.as_str()) {
            return Err(error::tool_error("edit requires a non-empty filePath"));
        }
        if text::same_text(args.old_string.as_str(), args.new_string.as_str()) {
            return Err(
                error::tool_error("No changes to apply: oldString and newString are identical."),
            );
        }
        match locate(
            args.file_path.as_str(),
            place,
            &self.config.sandbox,
            SandboxCapability::Write,
        ) {
            Ok((host_path, route)) => Ok(EditPlan { args, host_path, route }),
            Err(error) => Err(error),
        }
    }
}

/// What a guest is told.
pub fn guest_request(plan: &EditPlan) -> (r: Result<Json, FrameworkError>)
    ensures
        match r {
            Ok(request) => Ok::<JsonView, ErrorView>(request@),
            Err(error) => Err(error@),
        } == match file_access::guest_target(plan.route@, "edit"@) {
            Ok(path) => Ok::<JsonView, ErrorView>(
                JsonView::Object(
                    map![
                        "filePath"@ => JsonView::Str(path),
                        "oldString"@ => JsonView::Str(plan.args.old_string@),
                        "newString"@ => JsonView::Str(plan.args.new_string@),
                        "replaceAll"@ => JsonView::Bool(plan.args.replace_all),
                    ],
                ),
            ),
            Err(error) => Err(error),
        },
        r is Ok ==> r->Ok_0.wf(),
{
    match guest_target_of(&plan.route, "edit") {
        Ok(path) => Ok(
            Json::object().with("filePath", Json::text(path.as_str())).with(
                "oldString",
                Json::text(plan.args.old_string.as_str()),
            ).with("newString", Json::text(plan.args.new_string.as_str())).with(
                "replaceAll",
                Json::Bool(plan.args.replace_all),
            ),
        ),
        Err(error) => Err(error),
    }
}

/// A text with plain line feeds at the ends of its lines.
pub open spec fn with_plain_endings(s: Seq<char>) -> Seq<char> {
    text::replace(s, "\r\n"@, "\n"@)
}

/// Whether lines of a text end with a carriage return and a line feed.
pub open spec fn has_wide_endings(s: Seq<char>) -> bool {
    text::contains(s, "\r\n"@)
}

/// A text with the line endings of a file.
pub open spec fn with_endings_of(s: Seq<char>, file: Seq<char>) -> Seq<char> {
    if has_wide_endings(file) {
        text::replace(with_plain_endings(s), "\n"@, "\r\n"@)
    } else {
        with_plain_endings(s)
    }
}

/// A text with plain line feeds at the ends of its lines.
pub fn normalize_line_endings(value: &str) -> (r: String)
    ensures
        r@ == with_plain_endings(value@),
{
    proof {
        reveal_strlit("\r\n");
    }
    text::replaced(value, "\r\n", "\n")
}

/// How the lines of a text end.
pub fn detect_line_ending(value: &str) -> (r: &'static str)
    ensures
        r@ == if has_wide_endings(value@) {
            "\r\n"@
        } else {
            "\n"@
        },
{
    if text::has_text(value, "\r\n") {
        "\r\n"
    } else {
        "\n"
    }
}

/// A text with plain line feeds, with other line endings.
pub fn convert_to_line_ending(value: &str, ending: &str) -> (r: String)
    ensures
        r@ == if ending@ == "\n"@ {
            value@
        } else {
            text::replace(value@, "\n"@, "\r\n"@)
        },
{
    if text::same_text(ending, "\n") {
        value.to_owned()
    } else {
        proof {
            reveal_strlit("\n");
        }
        text::replaced(value, "\n", "\r\n")
    }
}

/// The file after the change.
pub open spec fn edited(file: Seq<char>, args: EditArgs) -> Result<Seq<char>, ErrorView> {
    let from = with_endings_of(args.old_string@, file);
    let to = with_endings_of(args.new_string@, file);
    let count = text::match_count(file, from);
    if count == 0 {
        Err(
            ErrorView::Tool(
                "Could not find oldString in the file. It must match exactly, including whitespace, indentation, and line endings."@,
            ),
        )
    } else if count > 1 && !args.replace_all {
        Err(
            ErrorView::Tool(
                "Found multiple matches for oldString. Provide more surrounding context to make the match unique."@,
            ),
        )
    } else {
        Ok(text::replace(file, from, to))
    }
}

/// Plain endings leave a character where there was one.
proof fn lemma_endings_keep_some(s: Seq<char>, file: Seq<char>)
    requires
        s.len() > 0,
    ensures
        with_endings_of(s, file).len() > 0,
{
    reveal_strlit("\r\n");
    reveal_strlit("\n");
    text::lemma_find(s, "\r\n"@, 0);
    let plain = with_plain_endings(s);
    assert(plain.len() > 0);
    text::lemma_find(plain, "\n"@, 0);
}

/// The file after the change.
pub fn apply_edit(file: &str, args: &EditArgs) -> (r: Result<String, FrameworkError>)
    requires
        args.old_string@.len() > 0,
    ensures
        error::text_result(r) == edited(file@, *args),
{
    let ending = detect_line_ending(file);
    proof {
        reveal_strlit("\r\n");
        reveal_strlit("\n");
        assert("\r\n"@.len() != "\n"@.len());
        lemma_endings_keep_some(args.old_string@, file@);
    }
    let from = convert_to_line_ending(
        normalize_line_endings(args.old_string.as_str()).as_str(),
        ending,
    );
    let to = convert_to_line_ending(
        normalize_line_endings(args.new_string.as_str()).as_str(),
        ending,
    );
    assert(from@ == with_endings_of(args.old_string@, file@));
    assert(to@ == with_endings_of(args.new_string@, file@));
    let count: usize = text::matches_of(file, from.as_str());
    if count == 0 {
        return Err(
            error::tool_error(
                "Could not find oldString in the file. It must match exactly, including whitespace, indentation, and line endings.",
            ),
        );
    }
    if count > 1 && !args.replace_all {
        return Err(
            error::tool_error(
                "Found multiple matches for oldString. Provide more surrounding context to make the match unique.",
            ),
        );
    }
    Ok(text::replaced(file, from.as_str(), to.as_str()))
}

/// What a file is to hold.
#[derive(Debug, PartialEq, Eq)]
pub struct EditWrite {
    pub content: String,
    /// Whether the directory is made where there is none.
    pub make_parent: bool,
}

/// What is to be written, given the file or why it cannot be read; and whether the directory is
/// made.
pub open spec fn written(
    path: Seq<char>,
    file: Result<Seq<char>, Seq<char>>,
    args: EditArgs,
) -> Result<(Seq<char>, bool), ErrorView> {
    if args.old_string@.len() == 0 {
        Ok((args.new_string@, true))
    } else {
        match file {
            Ok(file) => match edited(file, args) {
                Ok(content) => Ok((content, false)),
                Err(error) => Err(error),
            },
            Err(message) => Err(
                ErrorView::Tool("File "@ + path + " not found: "@ + message),
            ),
        }
    }
}

/// What is to be written, given the file or why it cannot be read.  Without an old text the file is
/// made anew.
pub fn edit_outcome(path: &str, file: Result<String, String>, args: &EditArgs) -> (r: Result<
    EditWrite,
    FrameworkError,
>)
    ensures
        match r {
            Ok(write) => Ok::<(Seq<char>, bool), ErrorView>((write.content@, write.make_parent)),
            Err(error) => Err(error@),
        } == written(
            path@,
            match file {
                Ok(file) => Ok(file@),
                Err(message) => Err(message@),
            },
            *args,
        ),
{
    if args.old_string.as_str().is_empty() {
        return Ok(EditWrite { content: args.new_string.clone(), make_parent: true });
    }
    match file {
        Ok(file) => match apply_edit(file.as_str(), args) {
            Ok(content) => Ok(EditWrite { content, make_parent: false }),
            Err(error) => Err(error),
        },
        Err(message) => {
            let head = text::concat3("File ", path, " not found: ");
            Err(FrameworkError::Tool(text::concat2(head.as_str(), message.as_str())))
        },
    }
}

/// What the tool answers when it changed a file.
pub const EDIT_APPLIED: &'static str = "Edit applied successfully.";

/// A text that stands in a file once is changed there and nowhere else.
pub proof fn law_single_match_changes_one_place(file: Seq<char>, from: Seq<char>, to: Seq<char>)
    requires
        text::match_count(file, from) == 1,
    ensures
        text::find_from(file, from, 0) is Some,
        ({
            let at = text::find_from(file, from, 0)->0;
            text::replace(file, from, to) == file.take(at) + to + file.skip(at + from.len())
        }),
{
    text::lemma_find(file, from, 0);
    let at = text::find_from(file, from, 0)->0;
    let rest = file.skip(at + from.len());
    assert(text::match_count(rest, from) == 0);
    text::lemma_find(rest, from, 0);
    assert(text::replace(rest, from, to) == rest);
}

/// Without leave to change all, a text that stands in a file more than once is not changed.
pub proof fn law_ambiguous_edits_are_refused(file: Seq<char>, args: EditArgs)
    requires
        !args.replace_all,
        text::match_count(file, with_endings_of(args.old_string@, file)) != 1,
    ensures
        edited(file, args) is Err,
{
}

/// Text without wide ends of lines is taken as it is for a file without them.
proof fn lemma_plain(s: Seq<char>, file: Seq<char>)
    requires
        !text::contains(s, "\r\n"@),
        !text::contains(file, "\r\n"@),
    ensures
        with_endings_of(s, file) == s,
{
    reveal_strlit("\r\n");
    text::law_replacing_goes_from_the_left(s, "\r\n"@, Seq::empty(), "\n"@);
}

/// An edit changes what was asked and nothing else: where the old text stands once, the file is what
/// stood before it, the new text, and what stood behind it.
pub proof fn law_edits_change_what_was_asked(
    before: Seq<char>,
    behind: Seq<char>,
    args: EditArgs,
)
    requires
        args.old_string@.len() > 0,
        !text::contains(args.old_string@, "\r\n"@),
        !text::contains(args.new_string@, "\r\n"@),
        !text::contains(before + args.old_string@ + behind, "\r\n"@),
        !text::contains(behind, args.old_string@),
        forall|j: int|
            0 <= j < before.len() ==> !text::occurs_at(
                before + args.old_string@ + behind,
                args.old_string@,
                j,
            ),
    ensures
        edited(before + args.old_string@ + behind, args) == Ok::<Seq<char>, ErrorView>(
            before + args.new_string@ + behind,
        ),
{
    let file = before + args.old_string@ + behind;
    lemma_plain(args.old_string@, file);
    lemma_plain(args.new_string@, file);
    text::law_replacing_goes_from_the_left(before, args.old_string@, behind, args.new_string@);
    text::law_replacing_goes_from_the_left(
        behind,
        args.old_string@,
        Seq::empty(),
        args.new_string@,
    );
}

/// Where all places are to be changed, the first is changed and the rest of the file likewise.
pub proof fn law_all_places_are_changed(before: Seq<char>, behind: Seq<char>, args: EditArgs)
    requires
        args.replace_all,
        args.old_string@.len() > 0,
        !text::contains(args.old_string@, "\r\n"@),
        !text::contains(args.new_string@, "\r\n"@),
        !text::contains(before + args.old_string@ + behind, "\r\n"@),
        forall|j: int|
            0 <= j < before.len() ==> !text::occurs_at(
                before + args.old_string@ + behind,
                args.old_string@,
                j,
            ),
    ensures
        edited(before + args.old_string@ + behind, args) == Ok::<Seq<char>, ErrorView>(
            before + args.new_string@ + text::replace(behind, args.old_string@, args.new_string@),
        ),
{
    let file = before + args.old_string@ + behind;
    lemma_plain(args.old_string@, file);
    lemma_plain(args.new_string@, file);
    text::law_replacing_goes_from_the_left(before, args.old_string@, behind, args.new_string@);
}

/// What does not stand in the file cannot be changed.
pub proof fn law_missing_texts_are_refused(file: Seq<char>, args: EditArgs)
    requires
        args.old_string@.len() > 0,
        !text::contains(args.old_string@, "\r\n"@),
        !text::contains(file, "\r\n"@),
        !text::contains(file, args.old_string@),
    ensures
        edited(file, args) is Err,
        written(Seq::empty(), Ok(file), args) is Err,
{
    lemma_plain(args.old_string@, file);
    text::law_replacing_goes_from_the_left(
        file,
        args.old_string@,
        Seq::empty(),
        args.new_string@,
    );
}

/// Without an old text the new one is the whole file, whatever was there; otherwise what is written
/// is the edited file, and a file that cannot be read is not written.
pub proof fn law_what_is_written(
    path: Seq<char>,
    file: Result<Seq<char>, Seq<char>>,
    args: EditArgs,
)
    ensures
        args.old_string@.len() == 0 ==> written(path, file, args) == Ok::<
            (Seq<char>, bool),
            ErrorView,
        >((args.new_string@, true)),
        args.old_string@.len() > 0 && file is Err ==> written(path, file, args) is Err,
        args.old_string@.len() > 0 && file is Ok ==> match edited(file->Ok_0, args) {
            Ok(content) => written(path, file, args) == Ok::<(Seq<char>, bool), ErrorView>(
                (content, false),
            ),
            Err(error) => written(path, file, args) == Err::<(Seq<char>, bool), ErrorView>(error),
        },
{
}

/// An edit that changes nothing, or names no file, is refused; any other is looked at for where it
/// writes to.
pub proof fn law_edits_need_a_file_and_a_change(
    args: EditArgs,
    place: FileEnv,
    config: FileToolConfig,
)
    ensures
        text::is_blank(args.file_path@) || args.old_string@ == args.new_string@ ==> planned(
            args,
            place,
            config,
        ) is Err,
        !text::is_blank(args.file_path@) && args.old_string@ != args.new_string@ ==> planned(
            args,
            place,
            config,
        ) == file_access::located(
            args.file_path@,
            place,
            config.sandbox,
            SandboxCapability::Write,
        ),
{
}

/// Line ends are those of the file: in a file with wide ones the texts of an edit get wide ones.
pub proof fn law_edits_keep_line_ends(first: Seq<char>, second: Seq<char>, file: Seq<char>)
    requires
        forall|i: int| 0 <= i < first.len() ==> #[trigger] first[i] != '\n' && first[i] != '\r',
        forall|i: int| 0 <= i < second.len() ==> #[trigger] second[i] != '\n' && second[i] != '\r',
    ensures
        text::contains(file, "\r\n"@) ==> with_endings_of(first + seq!['\n'] + second, file)
            == first + seq!['\r', '\n'] + second,
        !text::contains(file, "\r\n"@) ==> with_endings_of(
            first + seq!['\r', '\n'] + second,
            file,
        ) == first + seq!['\n'] + second,
{
    reveal_strlit("\r\n");
    reveal_strlit("\n");
    let wide = "\r\n"@;
    let plain = "\n"@;
    assert(wide =~= seq!['\r', '\n']);
    assert(plain =~= seq!['\n']);
    let s = first + seq!['\n'] + second;
    assert(!text::contains(s, wide)) by {
        if text::contains(s, wide) {
            let i = choose|i: int| text::occurs_at(s, wide, i);
            assert(s.subrange(i, i + 2)[0] == '\r');
            assert(s[i] == '\r');
            if i < first.len() {
                assert(s[i] == first[i]);
            } else if i > first.len() {
                assert(s[i] == second[i - first.len() - 1]);
            }
        }
    }
    text::law_replacing_goes_from_the_left(s, wide, Seq::empty(), plain);
    assert(!text::contains(second, plain)) by {
        if text::contains(second, plain) {
            let i = choose|i: int| text::occurs_at(second, plain, i);
            assert(second.subrange(i, i + 1)[0] == '\n');
            assert(second[i] == '\n');
        }
    }
    assert(!text::contains(second, wide)) by {
        if text::contains(second, wide) {
            let i = choose|i: int| text::occurs_at(second, wide, i);
            assert(second.subrange(i, i + 2)[0] == '\r');
            assert(second[i] == '\r');
        }
    }
    assert forall|j: int| 0 <= j < first.len() implies !text::occurs_at(
        first + plain + second,
        plain,
        j,
    ) by {
        let t = first + plain + second;
        if text::occurs_at(t, plain, j) {
            assert(t.subrange(j, j + 1)[0] == t[j]);
            assert(t[j] == first[j]);
        }
    }
    text::law_replacing_goes_from_the_left(first, plain, second, wide);
    text::law_replacing_goes_from_the_left(second, plain, Seq::empty(), wide);
    assert forall|j: int| 0 <= j < first.len() implies !text::occurs_at(
        first + wide + second,
        wide,
        j,
    ) by {
        let t = first + wide + second;
        if text::occurs_at(t, wide, j) {
            assert(t.subrange(j, j + 2)[0] == t[j]);
            assert(t[j] == first[j]);
        }
    }
    text::law_replacing_goes_from_the_left(first, wide, second, plain);
    text::law_replacing_goes_from_the_left(second, wide, Seq::empty(), plain);
}

/// A guest is asked for the same as was planned.
pub proof fn law_guests_are_asked_for_the_plan(plan: &EditPlan, r: Result<Json, FrameworkError>)
    requires
        call_ensures(guest_request, (plan,), r),
    ensures
        r is Ok <==> plan.route is Sandboxed,
        r matches Ok(request) ==> {
            &&& request@.text_at("filePath"@) == Some(plan.route->guest_path@)
            &&& request@.text_at("oldString"@) == Some(plan.args.old_string@)
            &&& request@.text_at("newString"@) == Some(plan.args.new_string@)
            &&& request@.get("replaceAll"@) == Some(JsonView::Bool(plan.args.replace_all))
        },
{
    reveal_strlit("filePath");
    reveal_strlit("oldString");
    reveal_strlit("newString");
    reveal_strlit("replaceAll");
    assert("filePath"@.len() == 8);
    assert("oldString"@.len() == 9 && "oldString"@[0] == 'o');
    assert("newString"@.len() == 9 && "newString"@[0] == 'n');
    assert("replaceAll"@.len() == 10);
}

/// A plan holds the edit as it was asked for.
pub proof fn law_plans_hold_the_edit(
    tool: &EditTool,
    args: EditArgs,
    place: &FileEnv,
    r: Result<EditPlan, FrameworkError>,
)
    requires
        call_ensures(EditTool::plan, (tool, args, place), r),
    ensures
        r matches Ok(plan) ==> plan.args == args,
        text::is_blank(args.file_path@) || args.old_string@ == args.new_string@ ==> r is Err,
{
}

/// An edit takes as long as it was set to, and fifteen seconds where nothing was set.
pub proof fn law_edits_take_their_time(tool: &EditTool, r: u64)
    requires
        call_ensures(EditTool::timeout_seconds, (tool,), r),
    ensures
        tool.config.timeout_seconds is Some ==> r == tool.config.timeout_seconds->0,
        tool.config.timeout_seconds is None ==> r == 15,
{
}

} // verus!
