//! The tools for runs in the background: background, process and wait.
use vstd::prelude::*;
use crate::error::{ErrorView, FrameworkError};
use crate::error;
use crate::json::{Json, JsonView};
use crate::json;
use crate::text;
use crate::tools::common::{BackgroundArgs, ProcessArgs, WaitArgs};

verus! {

/// What is to be done with runs in the background.
#[derive(Debug, PartialEq, Eq)]
pub enum RunRequest {
    List,
    Status(String),
    Kill(String),
    Forget(String),
}

/// What is to be done with runs in the background, as it reads.
#[verifier::ext_equal]
pub enum RequestView {
    List,
    Status(Seq<char>),
    Kill(Seq<char>),
    Forget(Seq<char>),
}

impl View for RunRequest {
    type V = RequestView;

    open spec fn view(&self) -> RequestView {
        match self {
            RunRequest::List => RequestView::List,
            RunRequest::Status(run_id) => RequestView::Status(run_id@),
            RunRequest::Kill(run_id) => RequestView::Kill(run_id@),
            RunRequest::Forget(run_id) => RequestView::Forget(run_id@),
        }
    }
}

/// What a result with a request says.
pub open spec fn request_result(r: Result<RunRequest, FrameworkError>) -> Result<
    RequestView,
    ErrorView,
> {
    match r {
        Ok(request) => Ok(request@),
        Err(error) => Err(error@),
    }
}

/// A run's name, or the error where there is none.
fn named(run_id: Option<String>, missing: &str) -> (r: Result<String, FrameworkError>)
    ensures
        error::text_result(r) == match text::opt_view(run_id) {
            Some(run_id) => Ok::<Seq<char>, ErrorView>(run_id),
            None => Err(ErrorView::Tool(missing@)),
        },
{
    match run_id {
        Some(run_id) => Ok(run_id),
        None => Err(error::tool_error(missing)),
    }
}

/// The background tool.
#[derive(Debug, Clone, Copy, PartialEq, Eq, Structural)]
pub enum BackgroundTool {
    Lifecycle,
}

/// What the background tool is to do.
pub open spec fn background_request(action: Seq<char>, run_id: Option<Seq<char>>) -> Result<
    RequestView,
    ErrorView,
> {
    if action == "list"@ {
        Ok(RequestView::List)
    } else if action == "status"@ {
        match run_id {
            Some(run_id) => Ok(RequestView::Status(run_id)),
            None => Err(ErrorView::Tool("background status requires run_id"@)),
        }
    } else if action == "kill"@ {
        match run_id {
            Some(run_id) => Ok(RequestView::Kill(run_id)),
            None => Err(ErrorView::Tool("background kill requires run_id"@)),
        }
    } else {
        Err(
            ErrorView::Tool("background action must be one of list|status|kill, got: "@ + action),
        )
    }
}

impl BackgroundTool {
    /// What the tool is called.
    pub fn name(&self) -> (r: &'static str)
        ensures
            r@ == "background"@,
    {
        "background"
    }

    /// What the tool is for.
    pub fn description(&self) -> (r: &'static str)
        ensures
            r@ == "Manage background async tool runs using JSON: {action: list|status|kill, run_id?}. Returns JSON string."@,
    {
        "Manage background async tool runs using JSON: {action: list|status|kill, run_id?}. Returns JSON string."
    }

    /// What arguments the tool takes.
    pub fn input_schema_json(&self) -> (r: &'static str)
        ensures
            r@ == "{\"type\":\"object\",\"properties\":{\"action\":{\"type\":\"string\",\"enum\":[\"list\",\"status\",\"kill\"]},\"run_id\":{\"type\":\"string\"}},\"required\":[\"action\"]}"@,
    {
        "{\"type\":\"object\",\"properties\":{\"action\":{\"type\":\"string\",\"enum\":[\"list\",\"status\",\"kill\"]},\"run_id\":{\"type\":\"string\"}},\"required\":[\"action\"]}"
    }

    /// What the tool is to do.
    pub fn plan(&self, args: BackgroundArgs) -> (r: Result<RunRequest, FrameworkError>)
        ensures
            request_result(r) == background_request(args.action@, text::opt_view(args.run_id)),
    {
        let action = args.action.as_str();
        if text::same_text(action, "list") {
            Ok(RunRequest::List)
        } else if text::same_text(action, "status") {
            match named(args.run_id, "background status requires run_id") {
                Ok(run_id) => Ok(RunRequest::Status(run_id)),
                Err(error) => Err(error),
            }
        } else if text::same_text(action, "kill") {
            match named(args.run_id, "background kill requires run_id") {
                Ok(run_id) => Ok(RunRequest::Kill(run_id)),
                Err(error) => Err(error),
            }
        } else {
            Err(
                FrameworkError::Tool(
                    text::concat2(
                        "background action must be one of list|status|kill, got: ",
                        action,
                    ),
                ),
            )
        }
    }
}

/// The process tool.
#[derive(Debug, Clone, Copy, PartialEq, Eq, Structural)]
pub enum ProcessTool {
    Lifecycle,
}

/// What the process tool is to do.
pub open spec fn process_request(action: Seq<char>, run_id: Option<Seq<char>>) -> Result<
    RequestView,
    ErrorView,
> {
    if action == "list"@ {
        Ok(RequestView::List)
    } else if action == "poll"@ {
        match run_id {
            Some(run_id) => Ok(RequestView::Status(run_id)),
            None => Err(ErrorView::Tool("process poll requires run_id"@)),
        }
    } else if action == "cancel"@ || action == "kill"@ {
        match run_id {
            Some(run_id) => Ok(RequestView::Kill(run_id)),
            None => Err(ErrorView::Tool("process cancel requires run_id"@)),
        }
    } else if action == "forget"@ {
        match run_id {
            Some(run_id) => Ok(RequestView::Forget(run_id)),
            None => Err(ErrorView::Tool("process forget requires run_id"@)),
        }
    } else {
        Err(
            ErrorView::Tool(
                "process action must be one of list|poll|cancel|kill|forget, got: "@ + action,
            ),
        )
    }
}

impl ProcessTool {
    /// What the tool is called.
    pub fn name(&self) -> (r: &'static str)
        ensures
            r@ == "process"@,
    {
        "process"
    }

    /// What the tool is for.
    pub fn description(&self) -> (r: &'static str)
        ensures
            r@ == "Manage exec background processes using JSON: {action: list|poll|kill|forget, session_id?}. Returns JSON string."@,
    {
        "Manage exec background processes using JSON: {action: list|poll|kill|forget, session_id?}. Returns JSON string."
    }

    /// What arguments the tool takes.
    pub fn input_schema_json(&self) -> (r: &'static str)
        ensures
            r@ == "{\"type\":\"object\",\"properties\":{\"action\":{\"type\":\"string\",\"enum\":[\"list\",\"poll\",\"kill\",\"forget\"]},\"session_id\":{\"type\":\"string\"}},\"required\":[\"action\"]}"@,
    {
        "{\"type\":\"object\",\"properties\":{\"action\":{\"type\":\"string\",\"enum\":[\"list\",\"poll\",\"kill\",\"forget\"]},\"session_id\":{\"type\":\"string\"}},\"required\":[\"action\"]}"
    }

    /// What the tool is to do.
    pub fn plan(&self, args: ProcessArgs) -> (r: Result<RunRequest, FrameworkError>)
        ensures
            request_result(r) == process_request(args.action@, text::opt_view(args.session_id)),
    {
        let action = args.action.as_str();
        if text::same_text(action, "list") {
            Ok(RunRequest::List)
        } else if text::same_text(action, "poll") {
            match named(args.session_id, "process poll requires run_id") {
                Ok(run_id) => Ok(RunRequest::Status(run_id)),
                Err(error) => Err(error),
            }
        } else if text::same_text(action, "cancel") || text::same_text(action, "kill") {
            match named(args.session_id, "process cancel requires run_id") {
                Ok(run_id) => Ok(RunRequest::Kill(run_id)),
                Err(error) => Err(error),
            }
        } else if text::same_text(action, "forget") {
            match named(args.session_id, "process forget requires run_id") {
                Ok(run_id) => Ok(RunRequest::Forget(run_id)),
                Err(error) => Err(error),
            }
        } else {
            Err(
                FrameworkError::Tool(
                    text::concat2(
                        "process action must be one of list|poll|cancel|kill|forget, got: ",
                        action,
                    ),
                ),
            )
        }
    }
}

/// The wait tool.
#[derive(Debug, Clone, Copy, PartialEq, Eq, Structural)]
pub struct WaitTool;

impl WaitTool {
    /// What the tool is called.
    pub fn name(&self) -> (r: &'static str)
        ensures
            r@ == "wait"@,
    {
        "wait"
    }

    /// What the tool is for.
    pub fn description(&self) -> (r: &'static str)
        ensures
            r@ == "Block until one or more background async tool runs complete or a timeout expires. Returns snapshots for the requested runs."@,
    {
        "Block until one or more background async tool runs complete or a timeout expires. Returns snapshots for the requested runs."
    }

    /// What arguments the tool takes.
    pub fn input_schema_json(&self) -> (r: &'static str)
        ensures
            r@ == "{\"type\":\"object\",\"properties\":{\"run_ids\":{\"type\":\"array\",\"items\":{\"type\":\"string\"},\"description\":\"Background run IDs to wait on.\"},\"timeout_ms\":{\"type\":\"integer\",\"description\":\"Optional timeout in milliseconds. Defaults to 30000 and clamps to 120000.\"}},\"required\":[\"run_ids\"]}"@,
    {
        "{\"type\":\"object\",\"properties\":{\"run_ids\":{\"type\":\"array\",\"items\":{\"type\":\"string\"},\"description\":\"Background run IDs to wait on.\"},\"timeout_ms\":{\"type\":\"integer\",\"description\":\"Optional timeout in milliseconds. Defaults to 30000 and clamps to 120000.\"}},\"required\":[\"run_ids\"]}"
    }

    /// Whether there is something to wait for.
    pub fn check(&self, args: &WaitArgs) -> (r: Result<(), FrameworkError>)
        ensures
            error::unit_result(r) == if args.run_ids@.len() == 0 {
                Err::<(), ErrorView>(ErrorView::Tool("wait requires at least one run_id"@))
            } else {
                Ok(())
            },
    {
        if args.run_ids.len() == 0 {
            Err(error::tool_error("wait requires at least one run_id"))
        } else {
            Ok(())
        }
    }
}

/// What a tool answers with documents about runs, under a name.
pub fn runs_answer(key: &str, runs: Vec<Json>) -> (r: Json)
    requires
        json::all_wf(runs@),
    ensures
        r.wf(),
        r@ == JsonView::Object(
            map!["status"@ => JsonView::Str("ok"@)].insert(
                key@,
                JsonView::Array(json::items_view(runs@)),
            ),
        ),
{
    Json::object().with("status", Json::text("ok")).with(key, Json::array(runs))
}

/// Each action asks for what it is named after, of the run that was named, and is refused where it
/// needs a run and none was named.
pub proof fn law_actions_ask_for_what_they_say(run_id: Seq<char>)
    ensures
        background_request("list"@, None) == Ok::<RequestView, ErrorView>(RequestView::List),
        background_request("status"@, Some(run_id)) == Ok::<RequestView, ErrorView>(
            RequestView::Status(run_id),
        ),
        background_request("kill"@, Some(run_id)) == Ok::<RequestView, ErrorView>(
            RequestView::Kill(run_id),
        ),
        background_request("status"@, None) is Err,
        background_request("kill"@, None) is Err,
        process_request("list"@, None) == Ok::<RequestView, ErrorView>(RequestView::List),
        process_request("poll"@, Some(run_id)) == Ok::<RequestView, ErrorView>(
            RequestView::Status(run_id),
        ),
        process_request("cancel"@, Some(run_id)) == Ok::<RequestView, ErrorView>(
            RequestView::Kill(run_id),
        ),
        process_request("kill"@, Some(run_id)) == Ok::<RequestView, ErrorView>(
            RequestView::Kill(run_id),
        ),
        process_request("forget"@, Some(run_id)) == Ok::<RequestView, ErrorView>(
            RequestView::Forget(run_id),
        ),
        process_request("poll"@, None) is Err,
        process_request("cancel"@, None) is Err,
        process_request("forget"@, None) is Err,
{
    reveal_strlit("list");
    reveal_strlit("status");
    reveal_strlit("kill");
    reveal_strlit("poll");
    reveal_strlit("cancel");
    reveal_strlit("forget");
    assert("list"@.len() == 4 && "list"@[0] == 'l');
    assert("status"@.len() == 6 && "status"@[0] == 's');
    assert("kill"@.len() == 4 && "kill"@[0] == 'k');
    assert("poll"@.len() == 4 && "poll"@[0] == 'p');
    assert("cancel"@.len() == 6 && "cancel"@[0] == 'c');
    assert("forget"@.len() == 6 && "forget"@[0] == 'f');
}

/// Every other action is refused, with itself named.
pub proof fn law_other_actions_are_refused(action: Seq<char>, run_id: Option<Seq<char>>)
    requires
        action != "list"@,
        action != "kill"@,
    ensures
        action != "status"@ ==> background_request(action, run_id) == Err::<RequestView, ErrorView>(
            ErrorView::Tool("background action must be one of list|status|kill, got: "@ + action),
        ),
        action != "poll"@ && action != "cancel"@ && action != "forget"@ ==> process_request(
            action,
            run_id,
        ) == Err::<RequestView, ErrorView>(
            ErrorView::Tool(
                "process action must be one of list|poll|cancel|kill|forget, got: "@ + action,
            ),
        ),
{
}

/// Waiting needs at least one run, and nothing more.
pub proof fn law_waiting_needs_a_run(tool: &WaitTool, args: &WaitArgs, r: Result<(), FrameworkError>)
    requires
        call_ensures(WaitTool::check, (tool, args), r),
    ensures
        r is Ok <==> args.run_ids@.len() > 0,
{
}

} // verus!
