//! The plain tools: which there are, who may use them, and what they are asked for.
use vstd::prelude::*;
use crate::error::{ErrorView, FrameworkError};
use crate::dispatch;
use crate::error;
use crate::json::{Json, JsonView};
use crate::json;
use crate::providers::types::ToolDefinition;
use crate::text;
use crate::tools::common::{
    document, exec_args, memorize_args, memory_args, simple_text_arg, summon_args,
    truncate_for_tool_output,
};
use crate::tools::common;

verus! {

/// A plain tool.
#[derive(Debug, Clone, Copy, PartialEq, Eq, Structural)]
pub enum Tool {
    Memory,
    Memorize,
    Summon,
    Search,
    Clock,
    Fetch,
    Read,
    Exec,
}

/// Which plain tools an agent has.
#[derive(Debug, Clone, Copy, PartialEq, Eq, Structural)]
pub struct ToolConfig {
    pub memory: bool,
    pub memorize: bool,
    pub summon: bool,
    pub search: bool,
    pub clock: bool,
    pub fetch: bool,
    pub read: bool,
    pub exec_tool: bool,
}

/// What a run allows the tools.
#[derive(Debug, Clone, Copy, PartialEq, Eq, Structural)]
pub struct ToolCtx {
    pub network_allow_all: bool,
    pub read_allow_all: bool,
    /// Whether there is somebody who summons agents.
    pub summon_service: bool,
}

/// What a tool is asked for.
#[derive(Debug, PartialEq, Eq)]
pub enum ToolRequest {
    /// The time.
    Clock,
    /// What is remembered of something.
    Memory { query: String, top_k: usize },
    /// To remember something.
    Memorize { fact: String, kind: String, importance: u8 },
    /// To hand over to another agent.
    Summon { target: String, summary: String },
    /// To search the web.
    Search { query: String },
    /// To fetch a page.
    Fetch { url: String },
    /// To read a file.
    Read { path: String },
    /// To run a command.
    Exec { command: String },
}

/// What a tool is asked for, as it reads.
#[verifier::ext_equal]
pub enum RequestView {
    Clock,
    Memory { query: Seq<char>, top_k: usize },
    Memorize { fact: Seq<char>, kind: Seq<char>, importance: u8 },
    Summon { target: Seq<char>, summary: Seq<char> },
    Search { query: Seq<char> },
    Fetch { url: Seq<char> },
    Read { path: Seq<char> },
    Exec { command: Seq<char> },
}

impl View for ToolRequest {
    type V = RequestView;

    open spec fn view(&self) -> RequestView {
        match self {
            ToolRequest::Clock => RequestView::Clock,
            ToolRequest::Memory { query, top_k } => RequestView::Memory {
                query: query@,
                top_k: *top_k,
            },
            ToolRequest::Memorize { fact, kind, importance } => RequestView::Memorize {
                fact: fact@,
                kind: kind@,
                importance: *importance,
            },
            ToolRequest::Summon { target, summary } => RequestView::Summon {
                target: target@,
                summary: summary@,
            },
            ToolRequest::Search { query } => RequestView::Search { query: query@ },
            ToolRequest::Fetch { url } => RequestView::Fetch { url: url@ },
            ToolRequest::Read { path } => RequestView::Read { path: path@ },
            ToolRequest::Exec { command } => RequestView::Exec { command: command@ },
        }
    }
}

/// What a tool is asked for, given the document that the arguments are; or why nothing is.
pub open spec fn requested(
    tool: Tool,
    ctx: ToolCtx,
    document: Option<JsonView>,
    args_json: Seq<char>,
) -> Result<RequestView, ErrorView> {
    match tool {
        Tool::Clock => Ok(RequestView::Clock),
        Tool::Memory => {
            let (query, top_k) = common::memory_query(document, args_json);
            Ok(RequestView::Memory { query, top_k })
        },
        Tool::Memorize => {
            let (fact, kind, importance) = common::memorized(document, args_json);
            Ok(RequestView::Memorize { fact, kind, importance })
        },
        Tool::Summon => {
            let (target, summary) = common::summoned(document, args_json);
            if ctx.summon_service {
                Ok(RequestView::Summon { target, summary })
            } else {
                Err(ErrorView::Tool("summon service unavailable"@))
            }
        },
        Tool::Search => if ctx.network_allow_all {
            Ok(RequestView::Search { query: common::simple_text(document, args_json) })
        } else {
            Err(ErrorView::Tool("network tools blocked by runtime policy"@))
        },
        Tool::Fetch => if ctx.network_allow_all {
            Ok(RequestView::Fetch { url: common::simple_text(document, args_json) })
        } else {
            Err(ErrorView::Tool("network tools blocked by runtime policy"@))
        },
        Tool::Read => if ctx.read_allow_all {
            Ok(RequestView::Read { path: common::simple_text(document, args_json) })
        } else {
            Err(ErrorView::Tool("read tool blocked by runtime policy"@))
        },
        Tool::Exec => {
            let command = text::trim(common::executed(document, args_json).command);
            if command.len() == 0 {
                Err(ErrorView::Tool("exec requires a non-empty command"@))
            } else {
                Ok(RequestView::Exec { command })
            }
        },
    }
}

/// What a result with a request says.
pub open spec fn request_result(r: Result<ToolRequest, FrameworkError>) -> Result<
    RequestView,
    ErrorView,
> {
    match r {
        Ok(request) => Ok(request@),
        Err(error) => Err(error@),
    }
}

/// Whether the network may be used.
pub fn ensure_network(ctx: &ToolCtx) -> (r: Result<(), FrameworkError>)
    ensures
        error::unit_result(r) == if ctx.network_allow_all {
            Ok::<(), ErrorView>(())
        } else {
            Err(ErrorView::Tool("network tools blocked by runtime policy"@))
        },
{
    if ctx.network_allow_all {
        Ok(())
    } else {
        Err(error::tool_error("network tools blocked by runtime policy"))
    }
}

/// All plain tools.
pub open spec fn every_tool() -> Seq<Tool> {
    seq![
        Tool::Memory,
        Tool::Memorize,
        Tool::Summon,
        Tool::Search,
        Tool::Clock,
        Tool::Fetch,
        Tool::Read,
        Tool::Exec,
    ]
}

impl Tool {
    /// All plain tools.
    pub fn all() -> (r: Vec<Tool>)
        ensures
            r@ == every_tool(),
    {
        vec![
            Tool::Memory,
            Tool::Memorize,
            Tool::Summon,
            Tool::Search,
            Tool::Clock,
            Tool::Fetch,
            Tool::Read,
            Tool::Exec,
        ]
    }

    /// The tool's name.
    pub open spec fn label(self) -> Seq<char> {
        match self {
            Tool::Memory => "memory"@,
            Tool::Memorize => "memorize"@,
            Tool::Summon => "summon"@,
            Tool::Search => "search"@,
            Tool::Clock => "clock"@,
            Tool::Fetch => "fetch"@,
            Tool::Read => "read"@,
            Tool::Exec => "exec"@,
        }
    }

    /// The tool's name.
    pub fn as_str(self) -> (r: &'static str)
        ensures
            r@ == self.label(),
    {
        match self {
            Tool::Memory => "memory",
            Tool::Memorize => "memorize",
            Tool::Summon => "summon",
            Tool::Search => "search",
            Tool::Clock => "clock",
            Tool::Fetch => "fetch",
            Tool::Read => "read",
            Tool::Exec => "exec",
        }
    }

    /// What the tool is for.
    pub open spec fn purpose(self) -> Seq<char> {
        match self {
            Tool::Memory => "Semantic query short-term + long-term memory using JSON: {query, top_k?}"@,
            Tool::Memorize => "Store durable long-term memory using JSON: {fact, kind?, importance?(1-5)}"@,
            Tool::Summon => "Synchronously hand off to another agent with JSON: {agent, summary?}"@,
            Tool::Search => "Web search using JSON: {query}"@,
            Tool::Clock => "Current timestamp"@,
            Tool::Fetch => "Fetch URL content using JSON: {url}"@,
            Tool::Read => "Read local file using JSON: {path}"@,
            Tool::Exec => "Run a local shell command using JSON: {command}. Returns exit code, stdout, stderr."@,
        }
    }

    /// What the tool is for.
    pub fn description(self) -> (r: &'static str)
        ensures
            r@ == self.purpose(),
    {
        match self {
            Tool::Memory => "Semantic query short-term + long-term memory using JSON: {query, top_k?}",
            Tool::Memorize => "Store durable long-term memory using JSON: {fact, kind?, importance?(1-5)}",
            Tool::Summon => "Synchronously hand off to another agent with JSON: {agent, summary?}",
            Tool::Search => "Web search using JSON: {query}",
            Tool::Clock => "Current timestamp",
            Tool::Fetch => "Fetch URL content using JSON: {url}",
            Tool::Read => "Read local file using JSON: {path}",
            Tool::Exec => "Run a local shell command using JSON: {command}. Returns exit code, stdout, stderr.",
        }
    }

    /// What arguments the tool takes.
    pub open spec fn schema(self) -> Seq<char> {
        match self {
            Tool::Memory => "{\"type\":\"object\",\"properties\":{\"query\":{\"type\":\"string\"},\"top_k\":{\"type\":\"integer\"}},\"required\":[\"query\"]}"@,
            Tool::Memorize => "{\"type\":\"object\",\"properties\":{\"fact\":{\"type\":\"string\"},\"kind\":{\"type\":\"string\"},\"importance\":{\"type\":\"integer\",\"minimum\":1,\"maximum\":5}},\"required\":[\"fact\"]}"@,
            Tool::Summon => "{\"type\":\"object\",\"properties\":{\"agent\":{\"type\":\"string\"},\"summary\":{\"type\":\"string\"}},\"required\":[\"agent\"]}"@,
            Tool::Search => "{\"type\":\"object\",\"properties\":{\"query\":{\"type\":\"string\"}},\"required\":[\"query\"]}"@,
            Tool::Clock => "{\"type\":\"null\"}"@,
            Tool::Fetch => "{\"type\":\"object\",\"properties\":{\"url\":{\"type\":\"string\"}},\"required\":[\"url\"]}"@,
            Tool::Read => "{\"type\":\"object\",\"properties\":{\"path\":{\"type\":\"string\"}},\"required\":[\"path\"]}"@,
            Tool::Exec => "{\"type\":\"object\",\"properties\":{\"command\":{\"type\":\"string\"}},\"required\":[\"command\"]}"@,
        }
    }

    /// What arguments the tool takes.
    pub fn input_schema_json(self) -> (r: &'static str)
        ensures
            r@ == self.schema(),
    {
        match self {
            Tool::Memory => "{\"type\":\"object\",\"properties\":{\"query\":{\"type\":\"string\"},\"top_k\":{\"type\":\"integer\"}},\"required\":[\"query\"]}",
            Tool::Memorize => "{\"type\":\"object\",\"properties\":{\"fact\":{\"type\":\"string\"},\"kind\":{\"type\":\"string\"},\"importance\":{\"type\":\"integer\",\"minimum\":1,\"maximum\":5}},\"required\":[\"fact\"]}",
            Tool::Summon => "{\"type\":\"object\",\"properties\":{\"agent\":{\"type\":\"string\"},\"summary\":{\"type\":\"string\"}},\"required\":[\"agent\"]}",
            Tool::Search => "{\"type\":\"object\",\"properties\":{\"query\":{\"type\":\"string\"}},\"required\":[\"query\"]}",
            Tool::Clock => "{\"type\":\"null\"}",
            Tool::Fetch => "{\"type\":\"object\",\"properties\":{\"url\":{\"type\":\"string\"}},\"required\":[\"url\"]}",
            Tool::Read => "{\"type\":\"object\",\"properties\":{\"path\":{\"type\":\"string\"}},\"required\":[\"path\"]}",
            Tool::Exec => "{\"type\":\"object\",\"properties\":{\"command\":{\"type\":\"string\"}},\"required\":[\"command\"]}",
        }
    }

    /// What a model is told of the tool.
    pub fn definition(self) -> (r: ToolDefinition)
        ensures
            r.name@ == self.label(),
            r.description@ == self.purpose(),
            r.input_schema_json@ == self.schema(),
    {
        ToolDefinition {
            name: self.as_str().to_owned(),
            description: self.description().to_owned(),
            input_schema_json: self.input_schema_json().to_owned(),
        }
    }

    /// Whether an agent has the tool.
    pub open spec fn enabled_in(self, config: ToolConfig) -> bool {
        match self {
            Tool::Memory => config.memory,
            Tool::Memorize => config.memorize,
            Tool::Summon => config.summon,
            Tool::Search => config.search,
            Tool::Clock => config.clock,
            Tool::Fetch => config.fetch,
            Tool::Read => config.read,
            Tool::Exec => config.exec_tool,
        }
    }

    /// Whether an agent has the tool.
    pub fn is_enabled(self, config: &ToolConfig) -> (r: bool)
        ensures
            r == self.enabled_in(*config),
    {
        match self {
            Tool::Memory => config.memory,
            Tool::Memorize => config.memorize,
            Tool::Summon => config.summon,
            Tool::Search => config.search,
            Tool::Clock => config.clock,
            Tool::Fetch => config.fetch,
            Tool::Read => config.read,
            Tool::Exec => config.exec_tool,
        }
    }

    /// The tool with a name.
    pub fn try_from(value: &str) -> (r: Result<Self, FrameworkError>)
        ensures
            match r {
                Ok(tool) => tool.label() == value@,
                Err(error) => error@ == ErrorView::Tool("unknown tool: "@ + value@) && forall|
                    tool: Tool,
                |
                    (#[trigger] tool.label()) != value@,
            },
    {
        if text::same_text(value, "memory") {
            return Ok(Tool::Memory);
        }
        if text::same_text(value, "memorize") {
            return Ok(Tool::Memorize);
        }
        if text::same_text(value, "summon") {
            return Ok(Tool::Summon);
        }
        if text::same_text(value, "search") {
            return Ok(Tool::Search);
        }
        if text::same_text(value, "clock") {
            return Ok(Tool::Clock);
        }
        if text::same_text(value, "fetch") {
            return Ok(Tool::Fetch);
        }
        if text::same_text(value, "read") {
            return Ok(Tool::Read);
        }
        if text::same_text(value, "exec") {
            return Ok(Tool::Exec);
        }
        Err(FrameworkError::Tool(text::concat2("unknown tool: ", value)))
    }

    /// What the tool is asked for, given the document that the arguments are; or why nothing is.
    pub fn request_of(self, ctx: &ToolCtx, document: &Option<Json>, args_json: &str) -> (r: Result<
        ToolRequest,
        FrameworkError,
    >)
        requires
            common::doc_wf(*document),
        ensures
            request_result(r) == requested(self, *ctx, common::doc_view(*document), args_json@),
    {
        match self {
            Tool::Clock => Ok(ToolRequest::Clock),
            Tool::Memory => {
                let (query, top_k) = memory_args(document, args_json);
                Ok(ToolRequest::Memory { query, top_k })
            },
            Tool::Memorize => {
                let (fact, kind, importance) = memorize_args(document, args_json);
                Ok(ToolRequest::Memorize { fact, kind, importance })
            },
            Tool::Summon => {
                let (target, summary) = summon_args(document, args_json);
                if ctx.summon_service {
                    Ok(ToolRequest::Summon { target, summary })
                } else {
                    Err(error::tool_error("summon service unavailable"))
                }
            },
            Tool::Search => match ensure_network(ctx) {
                Ok(()) => Ok(ToolRequest::Search { query: simple_text_arg(document, args_json) }),
                Err(error) => Err(error),
            },
            Tool::Fetch => match ensure_network(ctx) {
                Ok(()) => Ok(ToolRequest::Fetch { url: simple_text_arg(document, args_json) }),
                Err(error) => Err(error),
            },
            Tool::Read => {
                if ctx.read_allow_all {
                    Ok(ToolRequest::Read { path: simple_text_arg(document, args_json) })
                } else {
                    Err(error::tool_error("read tool blocked by runtime policy"))
                }
            },
            Tool::Exec => {
                let command = text::trimmed(exec_args(document, args_json).command.as_str());
                if command.as_str().is_empty() {
                    Err(error::tool_error("exec requires a non-empty command"))
                } else {
                    Ok(ToolRequest::Exec { command })
                }
            },
        }
    }

    /// What the tool is asked for; or why nothing is.
    pub fn request(self, ctx: &ToolCtx, args_json: &str) -> (r: Result<ToolRequest, FrameworkError>)
        ensures
            request_result(r) == requested(
                self,
                *ctx,
                common::document_of(args_json@),
                args_json@,
            ),
    {
        self.request_of(ctx, &document(args_json), args_json)
    }
}

/// A tool's name leads back to the tool.
pub proof fn law_tools_have_names_of_their_own(a: Tool, b: Tool)
    ensures
        a.label() == b.label() ==> a == b,
        every_tool().contains(a),
{
    reveal_strlit("memory");
    reveal_strlit("memorize");
    reveal_strlit("summon");
    reveal_strlit("search");
    reveal_strlit("clock");
    reveal_strlit("fetch");
    reveal_strlit("read");
    reveal_strlit("exec");
    let all = every_tool();
    assert(all[0] == Tool::Memory);
    assert(all[1] == Tool::Memorize);
    assert(all[2] == Tool::Summon);
    assert(all[3] == Tool::Search);
    assert(all[4] == Tool::Clock);
    assert(all[5] == Tool::Fetch);
    assert(all[6] == Tool::Read);
    assert(all[7] == Tool::Exec);
    if a != b && a.label() == b.label() {
        assert(a.label()[0] == b.label()[0]);
        assert(a.label().len() == b.label().len());
        assert(a.label()[1] == b.label()[1]);
        assert(a.label()[2] == b.label()[2]);
    }
}

/// No request gets past what the run forbids.
pub proof fn law_forbidden_tools_are_refused(
    tool: Tool,
    ctx: ToolCtx,
    document: Option<JsonView>,
    args_json: Seq<char>,
)
    ensures
        !ctx.network_allow_all && (tool == Tool::Search || tool == Tool::Fetch) ==> requested(
            tool,
            ctx,
            document,
            args_json,
        ) is Err,
        !ctx.read_allow_all && tool == Tool::Read ==> requested(
            tool,
            ctx,
            document,
            args_json,
        ) is Err,
{
}

/// What a command answers: how it ended and what it wrote.
pub open spec fn exec_answer(code: i32, stdout: Seq<char>, stderr: Seq<char>) -> Seq<char> {
    "exit_code: "@ + text::decimal_int(code as int) + "\nstdout:\n"@ + common::tool_clip(
        text::trim(stdout),
        8000,
    ) + "\nstderr:\n"@ + common::tool_clip(text::trim(stderr), 4000)
}

/// What a command answers: how it ended and what it wrote.
pub fn exec_output(code: i32, stdout: &str, stderr: &str) -> (r: String)
    ensures
        r@ == exec_answer(code, stdout@, stderr@),
{
    let out = truncate_for_tool_output(text::trimmed(stdout).as_str(), 8000);
    let err = truncate_for_tool_output(text::trimmed(stderr).as_str(), 4000);
    let head = text::concat3(
        "exit_code: ",
        text::decimal_of_i64(code as i64).as_str(),
        "\nstdout:\n",
    );
    let body = text::concat2(head.as_str(), out.as_str());
    text::concat3(body.as_str(), "\nstderr:\n", err.as_str())
}

/// A text under a name, or nothing.
pub open spec fn text_or_none(value: JsonView, key: Seq<char>) -> Seq<char> {
    match value.text_at(key) {
        Some(found) => found,
        None => Seq::empty(),
    }
}

/// The lines with the text of an item.
pub open spec fn with_text(lines: Seq<Seq<char>>, item: JsonView) -> Seq<Seq<char>> {
    match item.text_at("Text"@) {
        Some(told) => lines.push(told),
        None => lines,
    }
}

/// The lines with the texts of items.
pub open spec fn with_texts(lines: Seq<Seq<char>>, items: Seq<JsonView>) -> Seq<Seq<char>>
    decreases items.len(),
{
    if items.len() == 0 {
        lines
    } else {
        with_text(with_texts(lines, items.drop_last()), items.last())
    }
}

/// The first five of some items.
pub open spec fn first_five(items: Seq<JsonView>) -> Seq<JsonView> {
    first_of_items(items, 5)
}

/// The first of some items.
pub open spec fn first_of_items(items: Seq<JsonView>, n: int) -> Seq<JsonView> {
    if items.len() <= n {
        items
    } else {
        items.take(n)
    }
}

/// The lines with the text of a topic, or with the texts of the topics in it as far as there are
/// fewer than five lines.
pub open spec fn with_topic_text(lines: Seq<Seq<char>>, topic: JsonView) -> Seq<Seq<char>> {
    match topic.text_at("Text"@) {
        Some(told) => lines.push(told),
        None => match topic.array_at("Topics"@) {
            Some(topics) => with_texts(lines, first_of_items(topics, 5 - lines.len())),
            None => lines,
        },
    }
}

/// The lines with the texts of topics; behind the first, nothing is added to five lines.
pub open spec fn with_topic_texts(lines: Seq<Seq<char>>, topics: Seq<JsonView>) -> Seq<Seq<char>>
    decreases topics.len(),
{
    if topics.len() == 0 {
        lines
    } else {
        let before = with_topic_texts(lines, topics.drop_last());
        if topics.len() > 1 && before.len() >= 5 {
            before
        } else {
            with_topic_text(before, topics.last())
        }
    }
}

/// The lines that a search comes to, where there is no summary.
pub open spec fn search_lines(value: JsonView, with_results: bool) -> Seq<Seq<char>> {
    let lines = match value.array_at("Results"@) {
        Some(results) if with_results => with_texts(Seq::empty(), first_five(results)),
        _ => Seq::empty(),
    };
    match value.array_at("RelatedTopics"@) {
        Some(topics) => with_topic_texts(lines, first_five(topics)),
        None => lines,
    }
}

/// What a search comes to: the summary, or else lines about results and topics.
pub open spec fn search_summary(value: JsonView, with_results: bool) -> Seq<char> {
    let told = text::trim(text_or_none(value, "AbstractText"@));
    let heading = text::trim(text_or_none(value, "Heading"@));
    if told.len() > 0 {
        text::trim(heading + "\n"@ + told)
    } else if search_lines(value, with_results).len() == 0 {
        "no search summary available"@
    } else {
        text::join(search_lines(value, with_results), "\n"@)
    }
}

/// A text under a name, without the space around it.
fn trimmed_at(value: &Json, key: &str) -> (r: String)
    requires
        value.wf(),
    ensures
        r@ == text::trim(text_or_none(value@, key@)),
{
    match value.text_at(key) {
        Some(found) => text::trimmed(found),
        None => {
            let none = String::new();
            assert(none@ =~= Seq::<char>::empty());
            text::trimmed(none.as_str())
        },
    }
}

/// The lines with the texts of the first of some items.
fn push_texts(lines: Vec<String>, items: &Vec<Json>, n: usize) -> (r: Vec<String>)
    requires
        json::all_wf(items@),
    ensures
        text::views(r@) == with_texts(
            text::views(lines@),
            first_of_items(json::items_view(items@), n as int),
        ),
{
    let ghost start = text::views(lines@);
    let ghost whole = json::items_view(items@);
    let ghost all = first_of_items(whole, n as int);
    let mut lines = lines;
    let mut i: usize = 0;
    proof {
        json::lemma_items(items@);
    }
    assert(all.take(0) =~= Seq::<JsonView>::empty());
    while i < items.len() && i < n
        invariant
            i <= items@.len(),
            i <= n,
            json::all_wf(items@),
            whole.len() == items@.len(),
            all == first_of_items(whole, n as int),
            forall|k: int| 0 <= k < items@.len() ==> #[trigger] whole[k] == items@[k]@,
            text::views(lines@) == with_texts(start, all.take(i as int)),
        decreases items@.len() - i,
    {
        let ghost before = text::views(lines@);
        proof {
            assert(all.take(i + 1).drop_last() =~= all.take(i as int));
            assert(all.take(i + 1).last() == items@[i as int]@);
        }
        if let Some(told) = items[i].text_at("Text") {
            lines.push(told.to_owned());
            assert(text::views(lines@) =~= before.push(told@));
        }
        i = i + 1;
    }
    assert(all.take(i as int) =~= all);
    lines
}

/// No more lines come of a topic than one, where there are five.
proof fn lemma_texts_bounded(lines: Seq<Seq<char>>, items: Seq<JsonView>)
    ensures
        with_texts(lines, items).len() <= lines.len() + items.len(),
        with_texts(lines, items).len() >= lines.len(),
    decreases items.len(),
{
    if items.len() > 0 {
        lemma_texts_bounded(lines, items.drop_last());
    }
}

/// The lines with the texts of topics.
fn push_topic_texts(lines: Vec<String>, topics: &Vec<Json>) -> (r: Vec<String>)
    requires
        json::all_wf(topics@),
        lines@.len() <= 5,
    ensures
        text::views(r@) == with_topic_texts(
            text::views(lines@),
            first_five(json::items_view(topics@)),
        ),
{
    let ghost start = text::views(lines@);
    let ghost whole = json::items_view(topics@);
    let ghost all = first_five(whole);
    let mut lines = lines;
    let mut i: usize = 0;
    let mut open = true;
    proof {
        json::lemma_items(topics@);
    }
    assert(all.take(0) =~= Seq::<JsonView>::empty());
    while i < topics.len() && i < 5
        invariant
            i <= topics@.len(),
            i <= 5,
            json::all_wf(topics@),
            whole.len() == topics@.len(),
            all == first_five(whole),
            forall|k: int| 0 <= k < topics@.len() ==> #[trigger] whole[k] == topics@[k]@,
            text::views(lines@) == with_topic_texts(start, all.take(i as int)),
            open == (i == 0 || lines@.len() < 5),
            i == 0 ==> lines@.len() <= 5,
        decreases topics@.len() - i,
    {
        let ghost before = text::views(lines@);
        proof {
            assert(all.take(i + 1).drop_last() =~= all.take(i as int));
            assert(all.take(i + 1).last() == topics@[i as int]@);
        }
        if open {
            let topic = &topics[i];
            if let Some(told) = topic.text_at("Text") {
                lines.push(told.to_owned());
                assert(text::views(lines@) =~= before.push(told@));
            } else if let Some(inner) = topic.array_at("Topics") {
                let room: usize = 5 - lines.len();
                lines = push_texts(lines, inner, room);
            }
        }
        open = lines.len() < 5;
        i = i + 1;
    }
    assert(all.take(i as int) =~= all);
    lines
}

/// What a search comes to, with or without a look at the results.
pub fn summarize_search(value: &Json, with_results: bool) -> (r: String)
    requires
        value.wf(),
    ensures
        r@ == search_summary(value@, with_results),
{
    let told = trimmed_at(value, "AbstractText");
    let heading = trimmed_at(value, "Heading");
    if !told.as_str().is_empty() {
        let merged = text::concat3(heading.as_str(), "\n", told.as_str());
        return text::trimmed(merged.as_str());
    }
    let mut lines: Vec<String> = Vec::new();
    assert(text::views(lines@) =~= Seq::<Seq<char>>::empty());
    if with_results {
        if let Some(results) = value.array_at("Results") {
            proof {
                json::lemma_items(results@);
                lemma_texts_bounded(Seq::empty(), first_five(json::items_view(results@)));
            }
            lines = push_texts(lines, results, 5);
            assert(text::views(lines@).len() <= 5);
        }
    }
    if let Some(topics) = value.array_at("RelatedTopics") {
        lines = push_topic_texts(lines, topics);
    }
    assert(text::views(lines@) == search_lines(value@, with_results));
    if lines.len() == 0 {
        "no search summary available".to_owned()
    } else {
        text::joined(&lines, "\n")
    }
}

/// What a search comes to: the summary, or else lines about results and topics.
pub fn summarize_duckduckgo_value(value: &Json) -> (r: String)
    requires
        value.wf(),
    ensures
        r@ == search_summary(value@, true),
{
    summarize_search(value, true)
}

/// The tools that models are told of, in the order in which they were registered.
#[derive(Debug, PartialEq, Eq)]
pub struct ToolRegistry {
    pub definitions: Vec<ToolDefinition>,
}

/// What a model is told of a tool: its name, what it is for, and its arguments.
pub type DefinitionView = (Seq<char>, Seq<char>, Seq<char>);

impl View for ToolRegistry {
    type V = Seq<DefinitionView>;

    open spec fn view(&self) -> Seq<DefinitionView> {
        Seq::new(
            self.definitions@.len(),
            |i: int|
                (
                    self.definitions@[i].name@,
                    self.definitions@[i].description@,
                    self.definitions@[i].input_schema_json@,
                ),
        )
    }
}

impl ToolRegistry {
    /// No tools.
    pub fn new() -> (r: Self)
        ensures
            r@ == Seq::<DefinitionView>::empty(),
    {
        let registry = ToolRegistry { definitions: Vec::new() };
        assert(registry@ =~= Seq::<DefinitionView>::empty());
        registry
    }

    /// Adds a tool.
    pub fn register(&mut self, name: &str, description: &str, input_schema_json: &str)
        ensures
            final(self)@ == old(self)@.push((name@, description@, input_schema_json@)),
    {
        let ghost before = self@;
        self.definitions.push(
            ToolDefinition {
                name: name.to_owned(),
                description: description.to_owned(),
                input_schema_json: input_schema_json.to_owned(),
            },
        );
        assert(self@ =~= before.push((name@, description@, input_schema_json@)));
    }
}

/// What models are told of the tools that are always there.
pub open spec fn builtin_definitions() -> Seq<DefinitionView> {
    seq![
        (
            "memory"@,
            "Semantic query short-term + long-term memory using JSON: {query, top_k?}"@,
            "{\"type\":\"object\",\"properties\":{\"query\":{\"type\":\"string\"},\"top_k\":{\"type\":\"integer\"}},\"required\":[\"query\"]}"@,
        ),
        (
            "memorize"@,
            "Store durable long-term memory using JSON: {fact, kind?, importance?(1-5)}"@,
            "{\"type\":\"object\",\"properties\":{\"fact\":{\"type\":\"string\"},\"kind\":{\"type\":\"string\"},\"importance\":{\"type\":\"integer\",\"minimum\":1,\"maximum\":5}},\"required\":[\"fact\"]}"@,
        ),
        (
            "summon"@,
            "Synchronously hand off to another agent with JSON: {agent, summary?}"@,
            "{\"type\":\"object\",\"properties\":{\"agent\":{\"type\":\"string\"},\"summary\":{\"type\":\"string\"}},\"required\":[\"agent\"]}"@,
        ),
        (
            "web_search"@,
            "Web search using JSON: {query}"@,
            "{\"type\":\"object\",\"properties\":{\"query\":{\"type\":\"string\"}},\"required\":[\"query\"]}"@,
        ),
        (
            "clock"@,
            "Current timestamp"@,
            "{\"type\":\"null\"}"@,
        ),
        (
            "web_fetch"@,
            "Fetch URL content using JSON: {url}"@,
            "{\"type\":\"object\",\"properties\":{\"url\":{\"type\":\"string\"}},\"required\":[\"url\"]}"@,
        ),
        (
            "read"@,
            "Read local file using JSON: {path}"@,
            "{\"type\":\"object\",\"properties\":{\"path\":{\"type\":\"string\"}},\"required\":[\"path\"]}"@,
        ),
        (
            "exec"@,
            "Run local shell commands using JSON: {command, background?, yield_ms?}. Returns JSON string."@,
            "{\"type\":\"object\",\"properties\":{\"command\":{\"type\":\"string\"},\"background\":{\"type\":\"boolean\"},\"yield_ms\":{\"type\":\"integer\",\"minimum\":0}},\"required\":[\"command\"]}"@,
        ),
        (
            "process"@,
            "Manage exec background processes using JSON: {action: list|poll|kill, session_id?}. Returns JSON string."@,
            "{\"type\":\"object\",\"properties\":{\"action\":{\"type\":\"string\",\"enum\":[\"list\",\"poll\",\"kill\"]},\"session_id\":{\"type\":\"string\"}},\"required\":[\"action\"]}"@,
        ),
    ]
}

/// Adds the tools that are always there.
pub fn register_builtin_tools(registry: &mut ToolRegistry)
    ensures
        final(registry)@ == old(registry)@ + builtin_definitions(),
{
    let ghost before = registry@;
    registry.register(
        "memory",
        "Semantic query short-term + long-term memory using JSON: {query, top_k?}",
        "{\"type\":\"object\",\"properties\":{\"query\":{\"type\":\"string\"},\"top_k\":{\"type\":\"integer\"}},\"required\":[\"query\"]}",
    );
    registry.register(
        "memorize",
        "Store durable long-term memory using JSON: {fact, kind?, importance?(1-5)}",
        "{\"type\":\"object\",\"properties\":{\"fact\":{\"type\":\"string\"},\"kind\":{\"type\":\"string\"},\"importance\":{\"type\":\"integer\",\"minimum\":1,\"maximum\":5}},\"required\":[\"fact\"]}",
    );
    registry.register(
        "summon",
        "Synchronously hand off to another agent with JSON: {agent, summary?}",
        "{\"type\":\"object\",\"properties\":{\"agent\":{\"type\":\"string\"},\"summary\":{\"type\":\"string\"}},\"required\":[\"agent\"]}",
    );
    registry.register(
        "web_search",
        "Web search using JSON: {query}",
        "{\"type\":\"object\",\"properties\":{\"query\":{\"type\":\"string\"}},\"required\":[\"query\"]}",
    );
    registry.register(
        "clock",
        "Current timestamp",
        "{\"type\":\"null\"}",
    );
    registry.register(
        "web_fetch",
        "Fetch URL content using JSON: {url}",
        "{\"type\":\"object\",\"properties\":{\"url\":{\"type\":\"string\"}},\"required\":[\"url\"]}",
    );
    registry.register(
        "read",
        "Read local file using JSON: {path}",
        "{\"type\":\"object\",\"properties\":{\"path\":{\"type\":\"string\"}},\"required\":[\"path\"]}",
    );
    registry.register(
        "exec",
        "Run local shell commands using JSON: {command, background?, yield_ms?}. Returns JSON string.",
        "{\"type\":\"object\",\"properties\":{\"command\":{\"type\":\"string\"},\"background\":{\"type\":\"boolean\"},\"yield_ms\":{\"type\":\"integer\",\"minimum\":0}},\"required\":[\"command\"]}",
    );
    registry.register(
        "process",
        "Manage exec background processes using JSON: {action: list|poll|kill, session_id?}. Returns JSON string.",
        "{\"type\":\"object\",\"properties\":{\"action\":{\"type\":\"string\",\"enum\":[\"list\",\"poll\",\"kill\"]},\"session_id\":{\"type\":\"string\"}},\"required\":[\"action\"]}",
    );
    assert(registry@ =~= before + builtin_definitions());
}

/// The tools that come with the framework.
#[derive(Debug, Clone, Copy, PartialEq, Eq, Structural)]
pub enum BuiltinTool {
    Memory,
    Memorize,
    Forget,
    Summon,
    Task,
    Exec,
    Process,
    Read,
    Edit,
    WebSearch,
    WebFetch,
    Clock,
}

/// How a call of a tool that comes with the framework is carried out: in one step, or by what the
/// tool of that name needs.
#[derive(Debug, Clone, Copy, PartialEq, Eq, Structural)]
pub enum RegisteredKind {
    Direct,
    Summon,
    Task,
    Exec,
    Read,
    Edit,
}

/// The tools that come with the framework, one after another.
pub open spec fn every_builtin() -> Seq<BuiltinTool> {
    seq![
        BuiltinTool::Memory,
        BuiltinTool::Memorize,
        BuiltinTool::Forget,
        BuiltinTool::Summon,
        BuiltinTool::Task,
        BuiltinTool::Exec,
        BuiltinTool::Process,
        BuiltinTool::Read,
        BuiltinTool::Edit,
        BuiltinTool::WebSearch,
        BuiltinTool::WebFetch,
        BuiltinTool::Clock,
    ]
}

/// The tools that come with the framework, one after another.
pub fn builtin_tools() -> (r: Vec<BuiltinTool>)
    ensures
        r@ == every_builtin(),
{
    let r = vec![
        BuiltinTool::Memory,
        BuiltinTool::Memorize,
        BuiltinTool::Forget,
        BuiltinTool::Summon,
        BuiltinTool::Task,
        BuiltinTool::Exec,
        BuiltinTool::Process,
        BuiltinTool::Read,
        BuiltinTool::Edit,
        BuiltinTool::WebSearch,
        BuiltinTool::WebFetch,
        BuiltinTool::Clock,
    ];
    assert(r@ =~= every_builtin());
    r
}

impl BuiltinTool {
    /// What a model calls the tool.
    pub open spec fn label(self) -> Seq<char> {
        match self {
            BuiltinTool::Memory => "memory"@,
            BuiltinTool::Memorize => "memorize"@,
            BuiltinTool::Forget => "forget"@,
            BuiltinTool::Summon => "summon"@,
            BuiltinTool::Task => "task"@,
            BuiltinTool::Exec => "exec"@,
            BuiltinTool::Process => "process"@,
            BuiltinTool::Read => "read"@,
            BuiltinTool::Edit => "edit"@,
            BuiltinTool::WebSearch => "web_search"@,
            BuiltinTool::WebFetch => "web_fetch"@,
            BuiltinTool::Clock => "clock"@,
        }
    }

    /// What a model calls the tool.
    pub fn name(self) -> (r: &'static str)
        ensures
            r@ == self.label(),
    {
        match self {
            BuiltinTool::Memory => "memory",
            BuiltinTool::Memorize => "memorize",
            BuiltinTool::Forget => "forget",
            BuiltinTool::Summon => "summon",
            BuiltinTool::Task => "task",
            BuiltinTool::Exec => "exec",
            BuiltinTool::Process => "process",
            BuiltinTool::Read => "read",
            BuiltinTool::Edit => "edit",
            BuiltinTool::WebSearch => "web_search",
            BuiltinTool::WebFetch => "web_fetch",
            BuiltinTool::Clock => "clock",
        }
    }

    /// How a call of the tool is carried out.
    pub fn kind(self) -> (r: RegisteredKind)
        ensures
            r == match self {
                BuiltinTool::Summon => RegisteredKind::Summon,
                BuiltinTool::Task => RegisteredKind::Task,
                BuiltinTool::Exec => RegisteredKind::Exec,
                BuiltinTool::Read => RegisteredKind::Read,
                BuiltinTool::Edit => RegisteredKind::Edit,
                _ => RegisteredKind::Direct,
            },
    {
        match self {
            BuiltinTool::Summon => RegisteredKind::Summon,
            BuiltinTool::Task => RegisteredKind::Task,
            BuiltinTool::Exec => RegisteredKind::Exec,
            BuiltinTool::Read => RegisteredKind::Read,
            BuiltinTool::Edit => RegisteredKind::Edit,
            _ => RegisteredKind::Direct,
        }
    }
}

/// The tools that come with the framework are listed once each, have names of their own, and hold
/// every tool that is kept for owners.
pub proof fn law_builtin_tools_are_told_apart(a: BuiltinTool, b: BuiltinTool, name: Seq<char>)
    ensures
        every_builtin().contains(a),
        every_builtin().no_duplicates(),
        a.label() == b.label() ==> a == b,
        dispatch::is_owners_tool(name) ==> exists|tool: BuiltinTool| #[trigger] tool.label() == name,
{
    reveal_strlit("memory");
    reveal_strlit("memorize");
    reveal_strlit("forget");
    reveal_strlit("summon");
    reveal_strlit("task");
    reveal_strlit("exec");
    reveal_strlit("process");
    reveal_strlit("read");
    reveal_strlit("edit");
    reveal_strlit("web_search");
    reveal_strlit("web_fetch");
    reveal_strlit("clock");
    let all = every_builtin();
    assert(all[0] == BuiltinTool::Memory);
    assert(all[1] == BuiltinTool::Memorize);
    assert(all[2] == BuiltinTool::Forget);
    assert(all[3] == BuiltinTool::Summon);
    assert(all[4] == BuiltinTool::Task);
    assert(all[5] == BuiltinTool::Exec);
    assert(all[6] == BuiltinTool::Process);
    assert(all[7] == BuiltinTool::Read);
    assert(all[8] == BuiltinTool::Edit);
    assert(all[9] == BuiltinTool::WebSearch);
    assert(all[10] == BuiltinTool::WebFetch);
    assert(all[11] == BuiltinTool::Clock);
    if a != b && a.label() == b.label() {
        assert(a.label().len() == b.label().len());
        assert(a.label()[0] == b.label()[0]);
        assert(a.label()[1] == b.label()[1]);
        assert(a.label()[2] == b.label()[2]);
        assert(a.label()[3] == b.label()[3]);
        if a.label().len() > 4 {
            assert(a.label()[4] == b.label()[4]);
        }
    }
    assert(BuiltinTool::Memory.label() == "memory"@);
    assert(BuiltinTool::Memorize.label() == "memorize"@);
    assert(BuiltinTool::Forget.label() == "forget"@);
    assert(BuiltinTool::Summon.label() == "summon"@);
    assert(BuiltinTool::Task.label() == "task"@);
    assert(BuiltinTool::Exec.label() == "exec"@);
    assert(BuiltinTool::Process.label() == "process"@);
    assert(BuiltinTool::Read.label() == "read"@);
    assert(BuiltinTool::Edit.label() == "edit"@);
    assert(BuiltinTool::WebSearch.label() == "web_search"@);
    assert(BuiltinTool::WebFetch.label() == "web_fetch"@);
    assert(BuiltinTool::Clock.label() == "clock"@);
}

/// A tool that may be used is asked for what its arguments say, and nothing else is put in their
/// place.
pub proof fn law_tools_are_asked_for_what_is_given(
    ctx: ToolCtx,
    document: Option<JsonView>,
    args_json: Seq<char>,
)
    ensures
        requested(Tool::Clock, ctx, document, args_json) == Ok::<RequestView, ErrorView>(
            RequestView::Clock,
        ),
        requested(Tool::Memory, ctx, document, args_json) matches Ok(
            RequestView::Memory { query, top_k },
        ) && (query, top_k) == common::memory_query(document, args_json),
        requested(Tool::Memorize, ctx, document, args_json) matches Ok(
            RequestView::Memorize { fact, kind, importance },
        ) && (fact, kind, importance) == common::memorized(document, args_json),
        ctx.summon_service ==> match requested(Tool::Summon, ctx, document, args_json) {
            Ok(RequestView::Summon { target, summary }) => (target, summary) == common::summoned(
                document,
                args_json,
            ),
            _ => false,
        },
        !ctx.summon_service ==> requested(Tool::Summon, ctx, document, args_json) is Err,
        ctx.network_allow_all ==> requested(Tool::Search, ctx, document, args_json) == Ok::<
            RequestView,
            ErrorView,
        >(RequestView::Search { query: common::simple_text(document, args_json) }),
        ctx.network_allow_all ==> requested(Tool::Fetch, ctx, document, args_json) == Ok::<
            RequestView,
            ErrorView,
        >(RequestView::Fetch { url: common::simple_text(document, args_json) }),
        ctx.read_allow_all ==> requested(Tool::Read, ctx, document, args_json) == Ok::<
            RequestView,
            ErrorView,
        >(RequestView::Read { path: common::simple_text(document, args_json) }),
        !text::is_blank(common::executed(document, args_json).command) ==> requested(
            Tool::Exec,
            ctx,
            document,
            args_json,
        ) == Ok::<RequestView, ErrorView>(
            RequestView::Exec { command: text::trim(common::executed(document, args_json).command) },
        ),
        text::is_blank(common::executed(document, args_json).command) ==> requested(
            Tool::Exec,
            ctx,
            document,
            args_json,
        ) is Err,
{
}

/// Each tool is switched on by the setting of its name.
pub proof fn law_tools_are_switched_on_by_name(config: ToolConfig)
    ensures
        Tool::Memory.enabled_in(config) == config.memory,
        Tool::Memorize.enabled_in(config) == config.memorize,
        Tool::Summon.enabled_in(config) == config.summon,
        Tool::Search.enabled_in(config) == config.search,
        Tool::Clock.enabled_in(config) == config.clock,
        Tool::Fetch.enabled_in(config) == config.fetch,
        Tool::Read.enabled_in(config) == config.read,
        Tool::Exec.enabled_in(config) == config.exec_tool,
{
}

/// The answer to a command tells its code, and what it wrote, without the white space around it.
pub proof fn law_commands_are_answered_with_what_they_left(
    code: i32,
    stdout: Seq<char>,
    stderr: Seq<char>,
)
    requires
        stdout.len() <= 4000,
        stderr.len() <= 4000,
    ensures
        exec_answer(code, stdout, stderr) == "exit_code: "@ + text::decimal_int(code as int)
            + "\nstdout:\n"@ + text::trim(stdout) + "\nstderr:\n"@ + text::trim(stderr),
{
    let (from, to) = text::law_trimming_takes_the_ends(stdout, text::CharClass::White);
    let (start, end) = text::law_trimming_takes_the_ends(stderr, text::CharClass::White);
}

/// A search is summed up by its summary under its heading where it has one, else by the first texts
/// of its results and topics, one on each line.
pub proof fn law_searches_are_summed_up(value: JsonView, with_results: bool)
    ensures
        value.text_at("AbstractText"@) matches Some(told) ==> !text::is_blank(told) ==> {
            let heading = match value.text_at("Heading"@) {
                Some(heading) => heading,
                None => Seq::empty(),
            };
            search_summary(value, with_results) == text::trim(
                text::trim(heading) + "\n"@ + text::trim(told),
            )
        },
        value.text_at("AbstractText"@) is None && search_lines(value, with_results).len() == 0
            ==> search_summary(value, with_results) == "no search summary available"@,
        value.text_at("AbstractText"@) is None && search_lines(value, with_results).len() > 0
            ==> search_summary(value, with_results) == text::join(
            search_lines(value, with_results),
            "\n"@,
        ),
{
    assert(text::trim(Seq::<char>::empty()).len() == 0) by {
        let (from, to) = text::law_trimming_takes_the_ends(Seq::empty(), text::CharClass::White);
    }
}

/// The texts of items are told in their order, and an item without one tells nothing.
pub proof fn law_texts_are_told_in_turn(
    lines: Seq<Seq<char>>,
    items: Seq<JsonView>,
    next: JsonView,
)
    ensures
        with_texts(lines, Seq::empty()) == lines,
        next.text_at("Text"@) is Some ==> with_texts(lines, items.push(next)) == with_texts(
            lines,
            items,
        ).push(next.text_at("Text"@)->0),
        next.text_at("Text"@) is None ==> with_texts(lines, items.push(next)) == with_texts(
            lines,
            items,
        ),
        with_topic_texts(lines, Seq::empty()) == lines,
        next.text_at("Text"@) is Some && with_topic_texts(lines, items).len() < 5
            ==> with_topic_texts(lines, items.push(next)) == with_topic_texts(lines, items).push(
            next.text_at("Text"@)->0,
        ),
{
    assert(items.push(next).drop_last() =~= items);
}

/// The results come before the topics, and of each only the first five are looked at.
pub proof fn law_results_come_before_topics(value: JsonView)
    ensures
        value.array_at("Results"@) matches Some(results) ==> value.array_at("RelatedTopics"@) is None
            ==> results.len() <= 5 ==> search_lines(value, true) == with_texts(
            Seq::empty(),
            results,
        ),
        value.array_at("Results"@) is None && value.array_at("RelatedTopics"@) is None
            ==> search_lines(value, true).len() == 0,
        value.array_at("RelatedTopics"@) matches Some(topics) ==> topics.len() <= 5 ==> {
            &&& search_lines(value, false) == with_topic_texts(Seq::empty(), topics)
            &&& value.array_at("Results"@) matches Some(results) ==> results.len() <= 5
                ==> search_lines(value, true) == with_topic_texts(
                with_texts(Seq::empty(), results),
                topics,
            )
        },
{
}

/// A tool that is registered is found behind those that were registered before.
pub proof fn law_registered_tools_are_found(
    registry: &mut ToolRegistry,
    name: &str,
    description: &str,
    input_schema_json: &str,
)
    requires
        call_ensures(ToolRegistry::register, (registry, name, description, input_schema_json), ()),
    ensures
        final(registry).definitions@.len() == old(registry).definitions@.len() + 1,
        final(registry).definitions@.last().name@ == name@,
        final(registry).definitions@.last().description@ == description@,
        final(registry).definitions@.last().input_schema_json@ == input_schema_json@,
{
    let before = old(registry)@;
    let after = final(registry)@;
    assert(after.len() == before.len() + 1);
    assert(after.last() == (name@, description@, input_schema_json@));
}

/// The tools that come with it are registered behind what is there, under these names.
pub proof fn law_tools_that_come_with_it_are_registered(registry: &mut ToolRegistry, i: int)
    requires
        call_ensures(register_builtin_tools, (registry,), ()),
    ensures
        final(registry)@.len() == old(registry)@.len() + 9,
        0 <= i < old(registry)@.len() ==> final(registry)@[i] == old(registry)@[i],
        ({
            let names = Seq::new(
                9,
                |k: int| final(registry)@[old(registry)@.len() + k].0,
            );
            names == seq![
                "memory"@,
                "memorize"@,
                "summon"@,
                "web_search"@,
                "clock"@,
                "web_fetch"@,
                "read"@,
                "exec"@,
                "process"@,
            ]
        }),
{
    let n = old(registry)@.len() as int;
    let all = final(registry)@;
    let more = builtin_definitions();
    assert(all == old(registry)@ + more);
    assert(all[n] == more[0] && all[n + 1] == more[1] && all[n + 2] == more[2]);
    assert(all[n + 3] == more[3] && all[n + 4] == more[4] && all[n + 5] == more[5]);
    assert(all[n + 6] == more[6] && all[n + 7] == more[7] && all[n + 8] == more[8]);
}

/// A topic without a text of its own tells the texts of the topics in it, as far as five lines go.
pub proof fn law_topics_within_topics_are_told(
    lines: Seq<Seq<char>>,
    topics: Seq<JsonView>,
    next: JsonView,
    inner: Seq<JsonView>,
)
    requires
        next.text_at("Text"@) is None,
        with_topic_texts(lines, topics).len() < 5,
    ensures
        next.array_at("Topics"@) == Some(inner) && inner.len() <= 5 - with_topic_texts(
            lines,
            topics,
        ).len() ==> with_topic_texts(lines, topics.push(next)) == with_texts(
            with_topic_texts(lines, topics),
            inner,
        ),
        next.array_at("Topics"@) is None ==> with_topic_texts(lines, topics.push(next))
            == with_topic_texts(lines, topics),
{
    assert(topics.push(next).drop_last() =~= topics);
}

} // verus!
