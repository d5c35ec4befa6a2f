//! The arguments that models pass to tools, and what tools answer about processes.
use vstd::prelude::*;
use crate::error::{ErrorView, FrameworkError};
use crate::json::{Json, JsonView};
use crate::json;
use crate::text::CharClass;
use crate::text;

verus! {

/// The document that the arguments are, where they are one.
pub open spec fn document_of(args_json: Seq<char>) -> Option<JsonView> {
    match json::parsed_json(args_json) {
        Ok(document) => Some(document),
        Err(_) => None,
    }
}

/// The arguments without the quotes around them.
pub open spec fn bare(args_json: Seq<char>) -> Seq<char> {
    text::trim_of(args_json, CharClass::Only('"'))
}

/// A text under a key of a document.
pub open spec fn text_under(document: Option<JsonView>, key: Seq<char>) -> Option<Seq<char>> {
    match document {
        Some(document) => document.text_at(key),
        None => None,
    }
}

/// The text that a document is.
pub open spec fn text_itself(document: Option<JsonView>) -> Option<Seq<char>> {
    match document {
        Some(document) => document.as_str(),
        None => None,
    }
}

/// The first of two that is there.
pub open spec fn first_of<T>(first: Option<T>, second: Option<T>) -> Option<T> {
    match first {
        Some(value) => Some(value),
        None => second,
    }
}

/// What is there, or else a default.
pub open spec fn value_or<T>(value: Option<T>, otherwise: T) -> T {
    match value {
        Some(value) => value,
        None => otherwise,
    }
}

/// A member of a document.
pub open spec fn member(document: Option<JsonView>, key: Seq<char>) -> Option<JsonView> {
    match document {
        Some(document) => document.get(key),
        None => None,
    }
}

/// A member of a document under one of two names.
pub open spec fn member_of(
    document: Option<JsonView>,
    name: Seq<char>,
    other_name: Seq<char>,
) -> Option<JsonView> {
    first_of(member(document, name), member(document, other_name))
}

/// A truth value under a key of a document; false where there is none.
pub open spec fn flag(document: Option<JsonView>, key: Seq<char>) -> bool {
    match member(document, key) {
        Some(value) => value.as_bool() == Some(true),
        None => false,
    }
}

/// The number that a member is.
pub open spec fn number_in_member(value: Option<JsonView>) -> Option<u64> {
    match value {
        Some(value) => value.as_u64(),
        None => None,
    }
}

/// The document that the arguments are, as it reads.
pub open spec fn doc_view(document: Option<Json>) -> Option<JsonView> {
    match document {
        Some(document) => Some(document@),
        None => None,
    }
}

/// Whether no key of the document stands twice.
pub open spec fn doc_wf(document: Option<Json>) -> bool {
    document is Some ==> document->0.wf()
}

/// The document that the arguments are, where they are one.
pub fn document(args_json: &str) -> (r: Option<Json>)
    ensures
        doc_view(r) == document_of(args_json@),
        doc_wf(r),
{
    match Json::parse(args_json) {
        Ok(document) => Some(document),
        Err(_) => None,
    }
}

/// The arguments without the quotes around them.
fn without_quotes(args_json: &str) -> (r: String)
    ensures
        r@ == bare(args_json@),
{
    text::trim_class(args_json, CharClass::Only('"'))
}

/// A text under a key of a document.
fn text_at(document: &Option<Json>, key: &str) -> (r: Option<String>)
    requires
        doc_wf(*document),
    ensures
        text::opt_view(r) == text_under(doc_view(*document), key@),
{
    match document {
        Some(document) => match document.text_at(key) {
            Some(value) => Some(value.to_owned()),
            None => None,
        },
        None => None,
    }
}

/// The text that a document is.
fn as_text(document: &Option<Json>) -> (r: Option<String>)
    ensures
        text::opt_view(r) == text_itself(doc_view(*document)),
{
    match document {
        Some(document) => match document.as_str() {
            Some(value) => Some(value.to_owned()),
            None => None,
        },
        None => None,
    }
}

/// A member of a document under one of two names.
fn get_either<'a>(document: &'a Option<Json>, name: &str, other_name: &str) -> (r: Option<&'a Json>)
    requires
        doc_wf(*document),
    ensures
        json::opt_json(r) == member_of(doc_view(*document), name@, other_name@),
        r is Some ==> r->0.wf(),
{
    match document {
        Some(document) => match document.get(name) {
            Some(value) => Some(value),
            None => document.get(other_name),
        },
        None => None,
    }
}

/// A truth value under a key of a document; false where there is none.
fn flag_at(document: &Option<Json>, key: &str) -> (r: bool)
    requires
        doc_wf(*document),
    ensures
        r == flag(doc_view(*document), key@),
{
    match document {
        Some(document) => match document.get(key) {
            Some(value) => match value.as_bool() {
                Some(flag) => flag,
                None => false,
            },
            None => false,
        },
        None => false,
    }
}

/// A number under one of two names of a document.
fn number_at(document: &Option<Json>, name: &str, other_name: &str) -> (r: Option<u64>)
    requires
        doc_wf(*document),
    ensures
        r == number_in_member(member_of(doc_view(*document), name@, other_name@)),
{
    match get_either(document, name, other_name) {
        Some(value) => value.as_u64(),
        None => None,
    }
}

/// The one text that arguments pass: a text itself, or one under a usual name.
pub open spec fn simple_text(document: Option<JsonView>, args_json: Seq<char>) -> Seq<char> {
    value_or(
        first_of(
            text_itself(document),
            first_of(
                text_under(document, "query"@),
                first_of(text_under(document, "url"@), text_under(document, "path"@)),
            ),
        ),
        bare(args_json),
    )
}

/// The one text that arguments pass, given the document that they are.
pub fn simple_text_arg(document: &Option<Json>, args_json: &str) -> (r: String)
    requires
        doc_wf(*document),
    ensures
        r@ == simple_text(doc_view(*document), args_json@),
{
    if let Some(value) = as_text(document) {
        return value;
    }
    if let Some(value) = text_at(document, "query") {
        return value;
    }
    if let Some(value) = text_at(document, "url") {
        return value;
    }
    if let Some(value) = text_at(document, "path") {
        return value;
    }
    without_quotes(args_json)
}

/// The one text that arguments pass.
pub fn parse_simple_text_arg(args_json: &str) -> (r: String)
    ensures
        r@ == simple_text(document_of(args_json@), args_json@),
{
    simple_text_arg(&document(args_json), args_json)
}

/// A number of at least one, as wide as the machine counts.
pub open spec fn at_least_one(n: u64) -> usize {
    if (n as usize) < 1 {
        1
    } else {
        n as usize
    }
}

/// What is asked of the memory, and for how many hits.
pub open spec fn memory_query(document: Option<JsonView>, args_json: Seq<char>) -> (
    Seq<char>,
    usize,
) {
    match text_under(document, "query"@) {
        Some(query) => (
            query,
            at_least_one(value_or(number_in_member(member(document, "top_k"@)), 5)),
        ),
        None => match text_itself(document) {
            Some(query) => (query, 5),
            None => (bare(args_json), 5),
        },
    }
}

/// What is asked of the memory, given the document that the arguments are.
pub fn memory_args(document: &Option<Json>, args_json: &str) -> (r: (String, usize))
    requires
        doc_wf(*document),
    ensures
        (r.0@, r.1) == memory_query(doc_view(*document), args_json@),
{
    if let Some(query) = text_at(document, "query") {
        let top_k: u64 = match number_at(document, "top_k", "top_k") {
            Some(top_k) => top_k,
            None => 5,
        };
        let wide: usize = top_k as usize;
        return (
            query,
            if wide < 1 {
                1
            } else {
                wide
            },
        );
    }
    if let Some(query) = as_text(document) {
        return (query, 5);
    }
    (without_quotes(args_json), 5)
}

/// What is asked of the memory.
pub fn parse_memory_args(args_json: &str) -> (r: (String, usize))
    ensures
        (r.0@, r.1) == memory_query(document_of(args_json@), args_json@),
{
    memory_args(&document(args_json), args_json)
}

/// What the memory tool is to do.
#[derive(Debug, PartialEq, Eq)]
pub enum MemoryAction {
    /// Look for what is like a text.
    Query { query: String, top_k: Option<usize> },
    /// Show the facts that are stored.
    List { kind: Option<String>, limit: Option<usize> },
}

/// What the memory tool is to do, as it reads.
#[verifier::ext_equal]
pub enum MemoryActionView {
    Query { query: Seq<char>, top_k: Option<usize> },
    List { kind: Option<Seq<char>>, limit: Option<usize> },
}

impl View for MemoryAction {
    type V = MemoryActionView;

    open spec fn view(&self) -> MemoryActionView {
        match self {
            MemoryAction::Query { query, top_k } => MemoryActionView::Query {
                query: query@,
                top_k: *top_k,
            },
            MemoryAction::List { kind, limit } => MemoryActionView::List {
                kind: text::opt_view(*kind),
                limit: *limit,
            },
        }
    }
}

/// A number, no less than one, where there is one.
pub open spec fn count_given(value: Option<u64>) -> Option<usize> {
    match value {
        Some(n) => Some(at_least_one(n)),
        None => None,
    }
}

/// The kind of facts that arguments name, where they name one.
pub open spec fn kind_given(document: Option<JsonView>) -> Option<Seq<char>> {
    match text_under(document, "kind"@) {
        Some(kind) => if text::is_blank(kind) {
            None
        } else {
            Some(text::trim(kind))
        },
        None => None,
    }
}

/// What the memory tool is to do: to list the facts where that is asked for, and otherwise to look
/// for what is like a text.
pub open spec fn memory_action(document: Option<JsonView>, args_json: Seq<char>) -> MemoryActionView {
    if text_under(document, "action"@) == Some("list"@) {
        MemoryActionView::List {
            kind: kind_given(document),
            limit: count_given(number_in_member(member(document, "limit"@))),
        }
    } else {
        MemoryActionView::Query {
            query: memory_query(document, args_json).0,
            top_k: if text_under(document, "query"@) is Some {
                count_given(number_in_member(member(document, "top_k"@)))
            } else {
                None
            },
        }
    }
}

/// A number under a key, no less than one.
fn count_at(document: &Option<Json>, key: &str) -> (r: Option<usize>)
    requires
        doc_wf(*document),
    ensures
        r == count_given(number_in_member(member(doc_view(*document), key@))),
{
    match number_at(document, key, key) {
        Some(n) => {
            let wide: usize = n as usize;
            Some(
                if wide < 1 {
                    1
                } else {
                    wide
                },
            )
        },
        None => None,
    }
}

/// The kind of facts that arguments name.
fn kind_at(document: &Option<Json>) -> (r: Option<String>)
    requires
        doc_wf(*document),
    ensures
        text::opt_view(r) == kind_given(doc_view(*document)),
{
    match text_at(document, "kind") {
        Some(kind) => if text::blank(kind.as_str()) {
            None
        } else {
            Some(text::trimmed(kind.as_str()))
        },
        None => None,
    }
}

/// What the memory tool is to do, given the document that the arguments are.
pub fn memory_action_of(document: &Option<Json>, args_json: &str) -> (r: MemoryAction)
    requires
        doc_wf(*document),
    ensures
        r@ == memory_action(doc_view(*document), args_json@),
{
    if let Some(action) = text_at(document, "action") {
        if text::same_text(action.as_str(), "list") {
            return MemoryAction::List { kind: kind_at(document), limit: count_at(document, "limit") };
        }
    }
    let (query, _) = memory_args(document, args_json);
    let top_k = match text_at(document, "query") {
        Some(_) => count_at(document, "top_k"),
        None => None,
    };
    MemoryAction::Query { query, top_k }
}

/// What the memory tool is to do.
pub fn parse_memory_action(args_json: &str) -> (r: MemoryAction)
    ensures
        r@ == memory_action(document_of(args_json@), args_json@),
{
    memory_action_of(&document(args_json), args_json)
}

/// Which agent is summoned, and with what summary.
pub open spec fn summoned(document: Option<JsonView>, args_json: Seq<char>) -> (
    Seq<char>,
    Seq<char>,
) {
    match text_under(document, "agent"@) {
        Some(agent) => (agent, value_or(text_under(document, "summary"@), Seq::empty())),
        None => match text_itself(document) {
            Some(agent) => (agent, Seq::empty()),
            None => (bare(args_json), Seq::empty()),
        },
    }
}

/// A given text, or else the empty one.
fn or_empty(value: Option<String>) -> (r: String)
    ensures
        r@ == value_or(text::opt_view(value), Seq::empty()),
{
    match value {
        Some(value) => value,
        None => {
            let r = String::new();
            assert(r@ =~= Seq::<char>::empty());
            r
        },
    }
}

/// Which agent is summoned, given the document that the arguments are.
pub fn summon_args(document: &Option<Json>, args_json: &str) -> (r: (String, String))
    requires
        doc_wf(*document),
    ensures
        (r.0@, r.1@) == summoned(doc_view(*document), args_json@),
{
    if let Some(agent) = text_at(document, "agent") {
        return (agent, or_empty(text_at(document, "summary")));
    }
    let agent = match as_text(document) {
        Some(agent) => agent,
        None => without_quotes(args_json),
    };
    (agent, or_empty(None))
}

/// Which agent is summoned, and with what summary.
pub fn parse_summon_args(args_json: &str) -> (r: (String, String))
    ensures
        (r.0@, r.1@) == summoned(document_of(args_json@), args_json@),
{
    summon_args(&document(args_json), args_json)
}

/// What a summons asks for.
#[derive(Debug, PartialEq, Eq)]
pub struct SummonArgs {
    pub agent: String,
    pub summary: String,
    pub background: bool,
}

/// What a summons asks for, in the background or not.
pub fn parse_summon_request(args_json: &str) -> (r: SummonArgs)
    ensures
        (r.agent@, r.summary@) == summoned(document_of(args_json@), args_json@),
        r.background == (text_under(document_of(args_json@), "agent"@) is Some && flag(
            document_of(args_json@),
            "background"@,
        )),
{
    let document = document(args_json);
    let named = text_at(&document, "agent").is_some();
    let background = flag_at(&document, "background");
    let (agent, summary) = summon_args(&document, args_json);
    SummonArgs { agent, summary, background: named && background }
}

/// What a worker is told to do.
pub open spec fn task_prompt(document: Option<JsonView>, args_json: Seq<char>) -> Seq<char> {
    value_or(
        first_of(text_under(document, "prompt"@), text_itself(document)),
        bare(args_json),
    )
}

/// What a worker is told to do, given the document that the arguments are.
pub fn task_args(document: &Option<Json>, args_json: &str) -> (r: String)
    requires
        doc_wf(*document),
    ensures
        r@ == task_prompt(doc_view(*document), args_json@),
{
    if let Some(prompt) = text_at(document, "prompt") {
        return prompt;
    }
    if let Some(prompt) = as_text(document) {
        return prompt;
    }
    without_quotes(args_json)
}

/// What a worker is told to do.
pub fn parse_task_args(args_json: &str) -> (r: String)
    ensures
        r@ == task_prompt(document_of(args_json@), args_json@),
{
    task_args(&document(args_json), args_json)
}

/// What a task asks for.
#[derive(Debug, PartialEq, Eq)]
pub struct TaskArgs {
    pub prompt: String,
    pub background: bool,
}

/// What a task asks for, in the background or not.
pub fn parse_task_request(args_json: &str) -> (r: TaskArgs)
    ensures
        r.prompt@ == task_prompt(document_of(args_json@), args_json@),
        r.background == (text_under(document_of(args_json@), "prompt"@) is Some && flag(
            document_of(args_json@),
            "background"@,
        )),
{
    let document = document(args_json);
    let named = text_at(&document, "prompt").is_some();
    let background = flag_at(&document, "background");
    TaskArgs { prompt: task_args(&document, args_json), background: named && background }
}

/// An importance between one and five.
pub open spec fn importance_of(n: u64) -> u8 {
    if n < 1 {
        1
    } else if n > 5 {
        5
    } else {
        n as u8
    }
}

/// What is memorized: the fact, its kind and its importance.
pub open spec fn memorized(document: Option<JsonView>, args_json: Seq<char>) -> (
    Seq<char>,
    Seq<char>,
    u8,
) {
    match text_under(document, "fact"@) {
        Some(fact) => (
            fact,
            value_or(text_under(document, "kind"@), "general"@),
            importance_of(value_or(number_in_member(member(document, "importance"@)), 3)),
        ),
        None => match text_itself(document) {
            Some(fact) => (fact, "general"@, 3),
            None => (bare(args_json), "general"@, 3),
        },
    }
}

/// What is memorized, given the document that the arguments are.
pub fn memorize_args(document: &Option<Json>, args_json: &str) -> (r: (String, String, u8))
    requires
        doc_wf(*document),
    ensures
        (r.0@, r.1@, r.2) == memorized(doc_view(*document), args_json@),
{
    if let Some(fact) = text_at(document, "fact") {
        let kind = match text_at(document, "kind") {
            Some(kind) => kind,
            None => "general".to_owned(),
        };
        let given: u64 = match number_at(document, "importance", "importance") {
            Some(n) => n,
            None => 3,
        };
        let importance: u8 = if given < 1 {
            1
        } else if given > 5 {
            5
        } else {
            given as u8
        };
        return (fact, kind, importance);
    }
    let fact = match as_text(document) {
        Some(fact) => fact,
        None => without_quotes(args_json),
    };
    (fact, "general".to_owned(), 3)
}

/// What is memorized: the fact, its kind and its importance.
pub fn parse_memorize_args(args_json: &str) -> (r: (String, String, u8))
    ensures
        (r.0@, r.1@, r.2) == memorized(document_of(args_json@), args_json@),
{
    memorize_args(&document(args_json), args_json)
}

/// What a fact is memorized with lies between one and five.
pub proof fn law_importance_is_bounded(document: Option<JsonView>, args_json: Seq<char>)
    ensures
        1 <= memorized(document, args_json).2 <= 5,
{
}

/// What is to be forgotten, but for how similar it has to be.
#[derive(Debug, PartialEq, Eq)]
pub struct ForgetArgs {
    pub query: String,
    pub commit: bool,
    /// How like the query a fact has to be, as it is given.
    pub similarity_threshold: Option<Json>,
    pub max_matches: usize,
    pub kind: Option<String>,
}

/// What is to be forgotten, as it reads.
#[verifier::ext_equal]
pub struct ForgetView {
    pub query: Seq<char>,
    pub commit: bool,
    pub similarity_threshold: Option<JsonView>,
    pub max_matches: usize,
    pub kind: Option<Seq<char>>,
}

impl View for ForgetArgs {
    type V = ForgetView;

    open spec fn view(&self) -> ForgetView {
        ForgetView {
            query: self.query@,
            commit: self.commit,
            similarity_threshold: doc_view(self.similarity_threshold),
            max_matches: self.max_matches,
            kind: text::opt_view(self.kind),
        }
    }
}

/// A number of matches between one and fifty.
pub open spec fn matches_of(n: u64) -> usize {
    if (n as usize) < 1 {
        1
    } else if (n as usize) > 50 {
        50
    } else {
        n as usize
    }
}

/// What is to be forgotten.  Nothing is, unless the arguments say so.
pub open spec fn forgotten(document: Option<JsonView>, args_json: Seq<char>) -> ForgetView {
    match text_under(document, "query"@) {
        Some(query) => ForgetView {
            query,
            commit: flag(document, "commit"@),
            similarity_threshold: member_of(
                document,
                "similarity_threshold"@,
                "similarityThreshold"@,
            ),
            max_matches: matches_of(
                value_or(
                    number_in_member(member_of(document, "max_matches"@, "maxMatches"@)),
                    5,
                ),
            ),
            kind: kind_given(document),
        },
        None => ForgetView {
            query: value_or(text_itself(document), bare(args_json)),
            commit: false,
            similarity_threshold: None,
            max_matches: 5,
            kind: None,
        },
    }
}

/// What is to be forgotten, given the document that the arguments are.
pub fn forget_args(document: &Option<Json>, args_json: &str) -> (r: ForgetArgs)
    requires
        doc_wf(*document),
    ensures
        r@ == forgotten(doc_view(*document), args_json@),
        doc_wf(r.similarity_threshold),
{
    if let Some(query) = text_at(document, "query") {
        let given: u64 = match number_at(document, "max_matches", "maxMatches") {
            Some(n) => n,
            None => 5,
        };
        let wide: usize = given as usize;
        let max_matches: usize = if wide < 1 {
            1
        } else if wide > 50 {
            50
        } else {
            wide
        };
        let kind = kind_at(document);
        let similarity_threshold = match get_either(
            document,
            "similarity_threshold",
            "similarityThreshold",
        ) {
            Some(given) => Some(given.clone()),
            None => None,
        };
        return ForgetArgs {
            query,
            commit: flag_at(document, "commit"),
            similarity_threshold,
            max_matches,
            kind,
        };
    }
    let query = match as_text(document) {
        Some(query) => query,
        None => without_quotes(args_json),
    };
    ForgetArgs { query, commit: false, similarity_threshold: None, max_matches: 5, kind: None }
}

/// What is to be forgotten.
pub fn parse_forget_args(args_json: &str) -> (r: ForgetArgs)
    ensures
        r@ == forgotten(document_of(args_json@), args_json@),
        doc_wf(r.similarity_threshold),
{
    forget_args(&document(args_json), args_json)
}

/// Facts are deleted only where the arguments are an object that asks for it.
pub proof fn law_forgetting_is_asked_for(document: Option<JsonView>, args_json: Seq<char>)
    requires
        forgotten(document, args_json).commit,
    ensures
        text_under(document, "query"@) is Some,
        flag(document, "commit"@),
        1 <= forgotten(document, args_json).max_matches <= 50,
{
}

/// What is to be run.
#[derive(Debug, PartialEq, Eq)]
pub struct ExecArgs {
    pub command: String,
    pub workdir: Option<String>,
    pub background: bool,
    pub yield_ms: u64,
}

/// What is to be run, as it reads.
#[verifier::ext_equal]
pub struct ExecArgsView {
    pub command: Seq<char>,
    pub workdir: Option<Seq<char>>,
    pub background: bool,
    pub yield_ms: u64,
}

impl View for ExecArgs {
    type V = ExecArgsView;

    open spec fn view(&self) -> ExecArgsView {
        ExecArgsView {
            command: self.command@,
            workdir: text::opt_view(self.workdir),
            background: self.background,
            yield_ms: self.yield_ms,
        }
    }
}

/// How long a command is waited for where nothing is said, in milliseconds.
pub const DEFAULT_EXEC_YIELD_MS: u64 = 10_000;

/// What is to be run.
pub open spec fn executed(document: Option<JsonView>, args_json: Seq<char>) -> ExecArgsView {
    match text_under(document, "command"@) {
        Some(command) => ExecArgsView {
            command,
            workdir: text_under(document, "workdir"@),
            background: flag(document, "background"@),
            yield_ms: value_or(
                number_in_member(member_of(document, "yield_ms"@, "yieldMs"@)),
                DEFAULT_EXEC_YIELD_MS,
            ),
        },
        None => ExecArgsView {
            command: value_or(text_itself(document), bare(args_json)),
            workdir: None,
            background: false,
            yield_ms: DEFAULT_EXEC_YIELD_MS,
        },
    }
}

/// What is to be run, given the document that the arguments are.
pub fn exec_args(document: &Option<Json>, args_json: &str) -> (r: ExecArgs)
    requires
        doc_wf(*document),
    ensures
        r@ == executed(doc_view(*document), args_json@),
{
    if let Some(command) = text_at(document, "command") {
        let yield_ms: u64 = match number_at(document, "yield_ms", "yieldMs") {
            Some(n) => n,
            None => DEFAULT_EXEC_YIELD_MS,
        };
        return ExecArgs {
            command,
            workdir: text_at(document, "workdir"),
            background: flag_at(document, "background"),
            yield_ms,
        };
    }
    let command = match as_text(document) {
        Some(command) => command,
        None => without_quotes(args_json),
    };
    ExecArgs { command, workdir: None, background: false, yield_ms: DEFAULT_EXEC_YIELD_MS }
}

/// What is to be run.
pub fn parse_exec_args(args_json: &str) -> (r: ExecArgs)
    ensures
        r@ == executed(document_of(args_json@), args_json@),
{
    exec_args(&document(args_json), args_json)
}

/// What is to be done with a process.
#[derive(Debug, PartialEq, Eq)]
pub struct ProcessArgs {
    pub action: String,
    pub session_id: Option<String>,
}

/// A text under one of two names of a document.
pub open spec fn text_of_member(value: Option<JsonView>) -> Option<Seq<char>> {
    match value {
        Some(value) => value.as_str(),
        None => None,
    }
}

/// A text under one of two names of a document.
fn text_at_either(document: &Option<Json>, name: &str, other_name: &str) -> (r: Option<String>)
    requires
        doc_wf(*document),
    ensures
        text::opt_view(r) == text_of_member(member_of(doc_view(*document), name@, other_name@)),
{
    match get_either(document, name, other_name) {
        Some(value) => match value.as_str() {
            Some(value) => Some(value.to_owned()),
            None => None,
        },
        None => None,
    }
}

/// What is to be done, and with what: an action, which is to list where nothing is said, and an id.
pub open spec fn managed(
    document: Option<JsonView>,
    name: Seq<char>,
    other_name: Seq<char>,
) -> (Seq<char>, Option<Seq<char>>) {
    (
        value_or(text_under(document, "action"@), "list"@),
        text_of_member(member_of(document, name, other_name)),
    )
}

/// What is to be done, and with what.
fn manage_args(document: &Option<Json>, name: &str, other_name: &str) -> (r: (
    String,
    Option<String>,
))
    requires
        doc_wf(*document),
    ensures
        (r.0@, text::opt_view(r.1)) == managed(doc_view(*document), name@, other_name@),
{
    let action = match text_at(document, "action") {
        Some(action) => action,
        None => "list".to_owned(),
    };
    (action, text_at_either(document, name, other_name))
}

/// What is to be done with a process, given the document that the arguments are.
pub fn process_args(document: &Option<Json>) -> (r: ProcessArgs)
    requires
        doc_wf(*document),
    ensures
        (r.action@, text::opt_view(r.session_id)) == managed(
            doc_view(*document),
            "session_id"@,
            "sessionId"@,
        ),
{
    let (action, session_id) = manage_args(document, "session_id", "sessionId");
    ProcessArgs { action, session_id }
}

/// What is to be done with a process.
pub fn parse_process_args(args_json: &str) -> (r: ProcessArgs)
    ensures
        (r.action@, text::opt_view(r.session_id)) == managed(
            document_of(args_json@),
            "session_id"@,
            "sessionId"@,
        ),
{
    process_args(&document(args_json))
}

/// What is to be done with a run in the background.
#[derive(Debug, PartialEq, Eq)]
pub struct BackgroundArgs {
    pub action: String,
    pub run_id: Option<String>,
}

/// What is to be done with a run, given the document that the arguments are.
pub fn background_args(document: &Option<Json>) -> (r: BackgroundArgs)
    requires
        doc_wf(*document),
    ensures
        (r.action@, text::opt_view(r.run_id)) == managed(
            doc_view(*document),
            "run_id"@,
            "runId"@,
        ),
{
    let (action, run_id) = manage_args(document, "run_id", "runId");
    BackgroundArgs { action, run_id }
}

/// What is to be done with a run in the background.
pub fn parse_background_args(args_json: &str) -> (r: BackgroundArgs)
    ensures
        (r.action@, text::opt_view(r.run_id)) == managed(
            document_of(args_json@),
            "run_id"@,
            "runId"@,
        ),
{
    background_args(&document(args_json))
}

/// Which runs are waited for, and how long.
#[derive(Debug, PartialEq, Eq)]
pub struct WaitArgs {
    pub run_ids: Vec<String>,
    pub timeout_ms: u64,
}

/// How long runs are waited for where nothing is said, in milliseconds.
pub const DEFAULT_WAIT_MS: u64 = 30_000;

/// How long runs are waited for at most, in milliseconds.
pub const MAX_WAIT_MS: u64 = 120_000;

/// The texts among documents.
pub open spec fn texts_in(items: Seq<JsonView>) -> Seq<Seq<char>>
    decreases items.len(),
{
    if items.len() == 0 {
        Seq::empty()
    } else {
        let before = texts_in(items.drop_last());
        match items.last().as_str() {
            Some(value) => before.push(value),
            None => before,
        }
    }
}

/// Which runs are waited for.
pub open spec fn awaited(document: Option<JsonView>) -> Seq<Seq<char>> {
    match document {
        Some(document) => match document.array_at("run_ids"@) {
            Some(items) => texts_in(items),
            None => Seq::empty(),
        },
        None => Seq::empty(),
    }
}

/// How long runs are waited for.
pub open spec fn awaited_ms(document: Option<JsonView>) -> u64 {
    let given = value_or(number_in_member(member(document, "timeout_ms"@)), DEFAULT_WAIT_MS);
    if given > MAX_WAIT_MS {
        MAX_WAIT_MS
    } else {
        given
    }
}

/// The texts among documents.
fn texts_among(items: &Vec<Json>) -> (r: Vec<String>)
    ensures
        text::views(r@) == texts_in(json::items_view(items@)),
{
    let ghost whole = json::items_view(items@);
    let mut texts: Vec<String> = Vec::new();
    let mut i: usize = 0;
    proof {
        json::lemma_items(items@);
        assert(text::views(texts@) =~= texts_in(whole.take(0)));
    }
    while i < items.len()
        invariant
            i <= items@.len(),
            whole == json::items_view(items@),
            text::views(texts@) == texts_in(whole.take(i as int)),
        decreases items@.len() - i,
    {
        let ghost before = text::views(texts@);
        proof {
            json::lemma_items(items@);
            assert(whole.take(i + 1).drop_last() =~= whole.take(i as int));
            assert(whole.take(i + 1).last() == items@[i as int]@);
        }
        if let Some(value) = items[i].as_str() {
            texts.push(value.to_owned());
            assert(text::views(texts@) =~= before.push(value@));
        }
        i = i + 1;
    }
    proof {
        json::lemma_items(items@);
        assert(whole.take(i as int) =~= whole);
    }
    texts
}

/// Which runs are waited for, given the document that the arguments are.
pub fn wait_args(document: &Option<Json>) -> (r: WaitArgs)
    requires
        doc_wf(*document),
    ensures
        text::views(r.run_ids@) == awaited(doc_view(*document)),
        r.timeout_ms == awaited_ms(doc_view(*document)),
{
    let run_ids = match document {
        Some(document) => match document.array_at("run_ids") {
            Some(items) => texts_among(items),
            None => Vec::new(),
        },
        None => Vec::new(),
    };
    assert(text::views(run_ids@) =~= awaited(doc_view(*document)));
    let given: u64 = match number_at(document, "timeout_ms", "timeout_ms") {
        Some(n) => n,
        None => DEFAULT_WAIT_MS,
    };
    WaitArgs {
        run_ids,
        timeout_ms: if given > MAX_WAIT_MS {
            MAX_WAIT_MS
        } else {
            given
        },
    }
}

/// Which runs are waited for, and how long.
pub fn parse_wait_args(args_json: &str) -> (r: WaitArgs)
    ensures
        text::views(r.run_ids@) == awaited(document_of(args_json@)),
        r.timeout_ms == awaited_ms(document_of(args_json@)),
{
    wait_args(&document(args_json))
}

/// The reaction that is asked for.
pub open spec fn reaction(document: Option<JsonView>, args_json: Seq<char>) -> Seq<char> {
    value_or(
        first_of(text_under(document, "emoji"@), text_itself(document)),
        bare(args_json),
    )
}

/// The reaction that is asked for, given the document that the arguments are.
pub fn react_args(document: &Option<Json>, args_json: &str) -> (r: String)
    requires
        doc_wf(*document),
    ensures
        r@ == reaction(doc_view(*document), args_json@),
{
    if let Some(emoji) = text_at(document, "emoji") {
        return emoji;
    }
    if let Some(emoji) = as_text(document) {
        return emoji;
    }
    without_quotes(args_json)
}

/// The reaction that is asked for.
pub fn parse_react_args(args_json: &str) -> (r: String)
    ensures
        r@ == reaction(document_of(args_json@), args_json@),
{
    react_args(&document(args_json), args_json)
}

/// The command that the plain exec tool is asked to run.
pub fn parse_exec_command_arg(args_json: &str) -> (r: String)
    ensures
        r@ == executed(document_of(args_json@), args_json@).command,
{
    parse_exec_args(args_json).command
}

/// A text that is not too long for a tool's answer.
pub open spec fn tool_clip(s: Seq<char>, max_chars: int) -> Seq<char> {
    text::clip_marked(s, max_chars, "\n...[truncated]"@)
}

/// A text that is not too long for a tool's answer.
pub fn truncate_for_tool_output(value: &str, max_chars: usize) -> (r: String)
    ensures
        r@ == tool_clip(value@, max_chars as int),
{
    text::clipped_marked(value, max_chars, "\n...[truncated]")
}

/// What a tool answers about a command that ended.
pub open spec fn command_output(exit_code: i32, stdout: Seq<char>, stderr: Seq<char>) -> JsonView {
    JsonView::Object(
        map![
            "status"@ => JsonView::Str("completed"@),
            "exitCode"@ => JsonView::Number(json::integer_number(exit_code as int)),
            "stdout"@ => JsonView::Str(tool_clip(text::trim(stdout), 8_000)),
            "stderr"@ => JsonView::Str(tool_clip(text::trim(stderr), 4_000)),
        ],
    )
}

/// What a tool answers about a command that ended.
pub fn command_output_to_json(exit_code: i32, stdout: &str, stderr: &str) -> (r: Json)
    ensures
        r@ == command_output(exit_code, stdout@, stderr@),
        r.wf(),
{
    let out = truncate_for_tool_output(text::trimmed(stdout).as_str(), 8_000);
    let err = truncate_for_tool_output(text::trimmed(stderr).as_str(), 4_000);
    Json::object().with("status", Json::text("completed")).with(
        "exitCode",
        Json::signed(exit_code as i64),
    ).with("stdout", Json::text(out.as_str())).with("stderr", Json::text(err.as_str()))
}

/// How a tool can run.
#[derive(Debug, Clone, Copy, PartialEq, Eq, Structural)]
pub enum ToolExecutionKind {
    Direct,
    WasmSandbox,
    HostSandbox,
}

/// The settings of a tool, or why they cannot be read.
pub fn configured<T>(tool_name: &str, parsed: Result<T, String>) -> (r: Result<T, FrameworkError>)
    ensures
        match parsed {
            Ok(config) => r == Ok::<T, FrameworkError>(config),
            Err(message) => r is Err && r->Err_0@ == ErrorView::Config(
                "tools."@ + tool_name@ + " config is invalid: "@ + message@,
            ),
        },
{
    match parsed {
        Ok(config) => Ok(config),
        Err(message) => {
            let head = text::concat3("tools.", tool_name, " config is invalid: ");
            Err(FrameworkError::Config(text::concat2(head.as_str(), message.as_str())))
        },
    }
}

/// The arguments of a tool, or why they cannot be read.
pub fn object_args<T>(tool_name: &str, parsed: Result<T, String>) -> (r: Result<T, FrameworkError>)
    ensures
        match parsed {
            Ok(args) => r == Ok::<T, FrameworkError>(args),
            Err(message) => r is Err && r->Err_0@ == ErrorView::Tool(
                tool_name@ + " requires JSON object args: "@ + message@,
            ),
        },
{
    match parsed {
        Ok(args) => Ok(args),
        Err(message) => Err(
            FrameworkError::Tool(
                text::concat3(tool_name, " requires JSON object args: ", message.as_str()),
            ),
        ),
    }
}

/// A plain text is itself what is asked; in a document it stands under the query, else under the
/// address, else under the path; and what is no document is taken as it is, without the quotes
/// around it.
pub proof fn law_plain_texts_are_read(document: JsonView, args_json: Seq<char>)
    ensures
        document.as_str() is Some ==> simple_text(Some(document), args_json)
            == document.as_str()->0,
        document.as_str() is None && document.text_at("query"@) is Some ==> simple_text(
            Some(document),
            args_json,
        ) == document.text_at("query"@)->0,
        document.as_str() is None && document.text_at("query"@) is None && document.text_at("url"@)
            is Some ==> simple_text(Some(document), args_json) == document.text_at("url"@)->0,
        document.as_str() is None && document.text_at("query"@) is None && document.text_at("url"@)
            is None && document.text_at("path"@) is Some ==> simple_text(Some(document), args_json)
            == document.text_at("path"@)->0,
        simple_text(None, args_json) == text::trim_of(args_json, CharClass::Only('"')),
{
}

/// Arguments that are valid are read as the document that they write; others are no document.
pub proof fn law_arguments_are_read_as_written(args_json: Seq<char>)
    ensures
        json::parsed_json(args_json) is Ok ==> document_of(args_json) == Some(
            json::parsed_json(args_json)->Ok_0,
        ),
        json::parsed_json(args_json) is Err ==> document_of(args_json) is None,
{
}

/// A memory is asked for with the query and the number given; without a number with five, and never
/// with less than one.
pub proof fn law_memories_are_asked_for_as_given(
    document: JsonView,
    args_json: Seq<char>,
    query: Seq<char>,
    top_k: u64,
)
    requires
        document.text_at("query"@) == Some(query),
        top_k <= u32::MAX,
    ensures
        memory_query(Some(document), args_json).0 == query,
        document.get("top_k"@) is None ==> memory_query(Some(document), args_json).1 == 5,
        document.get("top_k"@) is Some && document.get("top_k"@)->0.as_u64() == Some(top_k) && top_k
            > 0 ==> memory_query(Some(document), args_json).1 == top_k,
        memory_query(Some(document), args_json).1 >= 1,
        document.text_at("action"@) != Some("list"@) ==> {
            let action = memory_action(Some(document), args_json);
            &&& action matches MemoryActionView::Query { query: asked, top_k: given }
            &&& asked == query
            &&& document.get("top_k"@) is None ==> given is None
            &&& document.get("top_k"@) is Some && document.get("top_k"@)->0.as_u64() == Some(top_k)
                && top_k > 0 ==> given == Some(top_k as usize)
        },
        document.text_at("action"@) == Some("list"@) ==> {
            let action = memory_action(Some(document), args_json);
            &&& action matches MemoryActionView::List { kind, limit }
            &&& document.text_at("kind"@) is None ==> kind is None
            &&& document.text_at("kind"@) is Some && !text::is_blank(document.text_at("kind"@)->0)
                ==> kind == Some(text::trim(document.text_at("kind"@)->0))
            &&& document.get("limit"@) is None ==> limit is None
            &&& document.get("limit"@) is Some && document.get("limit"@)->0.as_u64() == Some(top_k)
                && top_k > 0 ==> limit == Some(top_k as usize)
        },
{
}

/// An agent is summoned with the summary given, and with none where none is given.
pub proof fn law_summons_name_the_agent(document: JsonView, args_json: Seq<char>)
    ensures
        document.text_at("agent"@) is Some && document.text_at("summary"@) is Some ==> summoned(
            Some(document),
            args_json,
        ) == (document.text_at("agent"@)->0, document.text_at("summary"@)->0),
        document.text_at("agent"@) is Some && document.text_at("summary"@) is None ==> summoned(
            Some(document),
            args_json,
        ) == (document.text_at("agent"@)->0, Seq::<char>::empty()),
        document.text_at("agent"@) is None && document.as_str() is Some ==> summoned(
            Some(document),
            args_json,
        ) == (document.as_str()->0, Seq::<char>::empty()),
        document.text_at("prompt"@) is Some ==> task_prompt(Some(document), args_json)
            == document.text_at("prompt"@)->0,
        document.text_at("prompt"@) is None && document.as_str() is Some ==> task_prompt(
            Some(document),
            args_json,
        ) == document.as_str()->0,
        document.text_at("emoji"@) is Some ==> reaction(Some(document), args_json)
            == document.text_at("emoji"@)->0,
        document.text_at("emoji"@) is None && document.as_str() is Some ==> reaction(
            Some(document),
            args_json,
        ) == document.as_str()->0,
        task_prompt(None, args_json) == text::trim_of(args_json, CharClass::Only('"')),
        reaction(None, args_json) == text::trim_of(args_json, CharClass::Only('"')),
{
}

/// A flag is set where it is given as true, and nowhere else.
pub proof fn law_flags_are_given(document: JsonView, key: Seq<char>)
    ensures
        flag(Some(document), key) <==> document.get(key) is Some && document.get(key)->0
            == JsonView::Bool(true),
        !flag(None, key),
{
}

/// A fact is kept with the kind and the importance given; without them it is a general one of
/// importance three.
pub proof fn law_facts_are_kept_as_given(
    document: JsonView,
    args_json: Seq<char>,
    fact: Seq<char>,
    importance: u64,
)
    requires
        document.text_at("fact"@) == Some(fact),
        1 <= importance <= 5,
    ensures
        ({
            let kept = memorized(Some(document), args_json);
            &&& kept.0 == fact
            &&& document.text_at("kind"@) is Some ==> kept.1 == document.text_at("kind"@)->0
            &&& document.text_at("kind"@) is None ==> kept.1 == "general"@
            &&& document.get("importance"@) is None ==> kept.2 == 3
            &&& document.get("importance"@) is Some && document.get("importance"@)->0.as_u64()
                == Some(importance) ==> kept.2 == importance
        }),
{
}

/// Forgetting takes over what is given: the query, whether it is meant, how alike and how many.
pub proof fn law_forgetting_is_taken_over(
    document: JsonView,
    args_json: Seq<char>,
    query: Seq<char>,
    many: u64,
)
    requires
        document.text_at("query"@) == Some(query),
        1 <= many <= 50,
    ensures
        ({
            let asked = forgotten(Some(document), args_json);
            &&& asked.query == query
            &&& asked.commit <==> document.get("commit"@) is Some && document.get("commit"@)->0
                == JsonView::Bool(true)
            &&& document.get("similarity_threshold"@) is Some ==> asked.similarity_threshold
                == document.get("similarity_threshold"@)
            &&& document.get("similarity_threshold"@) is None ==> asked.similarity_threshold
                == document.get("similarityThreshold"@)
            &&& document.get("max_matches"@) is Some && document.get("max_matches"@)->0.as_u64()
                == Some(many) ==> asked.max_matches == many
            &&& document.get("max_matches"@) is None && document.get("maxMatches"@) is None
                ==> asked.max_matches == 5
            &&& document.text_at("kind"@) is Some && !text::is_blank(document.text_at("kind"@)->0)
                ==> asked.kind == Some(text::trim(document.text_at("kind"@)->0))
            &&& document.text_at("kind"@) is None ==> asked.kind is None
        }),
{
}

/// A command is run as it is given: where, how and how long to wait for it are taken over too.
pub proof fn law_commands_are_run_as_given(document: JsonView, args_json: Seq<char>)
    ensures
        document.text_at("command"@) is Some ==> {
            let asked = executed(Some(document), args_json);
            &&& asked.command == document.text_at("command"@)->0
            &&& asked.workdir == document.text_at("workdir"@)
            &&& asked.background <==> document.get("background"@) is Some
                && document.get("background"@)->0 == JsonView::Bool(true)
            &&& document.get("yield_ms"@) is Some && document.get("yield_ms"@)->0.as_u64() is Some
                ==> asked.yield_ms == document.get("yield_ms"@)->0.as_u64()->0
            &&& document.get("yield_ms"@) is None && document.get("yieldMs"@) is Some
                && document.get("yieldMs"@)->0.as_u64() is Some ==> asked.yield_ms == document.get(
                "yieldMs"@,
            )->0.as_u64()->0
            &&& document.get("yield_ms"@) is None && document.get("yieldMs"@) is None
                ==> asked.yield_ms == 10_000
        },
        document.text_at("command"@) is None && document.as_str() is Some ==> executed(
            Some(document),
            args_json,
        ).command == document.as_str()->0,
        executed(None, args_json).command == text::trim_of(args_json, CharClass::Only('"')),
        !executed(None, args_json).background,
{
}

/// What is done with a run is what is given, and the run is found under either of its names; without
/// an action the runs are listed.
pub proof fn law_runs_are_managed_as_given(
    document: JsonView,
    name: Seq<char>,
    other_name: Seq<char>,
)
    ensures
        document.text_at("action"@) is Some ==> managed(Some(document), name, other_name).0
            == document.text_at("action"@)->0,
        document.text_at("action"@) is None ==> managed(Some(document), name, other_name).0
            == "list"@,
        document.text_at(name) is Some ==> managed(Some(document), name, other_name).1
            == document.text_at(name),
        document.get(name) is None ==> managed(Some(document), name, other_name).1
            == document.text_at(other_name),
{
}

/// Waited for are all the runs that are named, in their order, and for as long as is given, but for
/// no more than two minutes; without a time half a minute.
pub proof fn law_waits_are_as_given(document: JsonView, items: Seq<JsonView>, next: JsonView)
    ensures
        document.array_at("run_ids"@) == Some(items) ==> awaited(Some(document)) == texts_in(items),
        texts_in(Seq::empty()).len() == 0,
        next.as_str() is Some ==> texts_in(items.push(next)) == texts_in(items).push(
            next.as_str()->0,
        ),
        next.as_str() is None ==> texts_in(items.push(next)) == texts_in(items),
        document.get("timeout_ms"@) is None ==> awaited_ms(Some(document)) == 30_000,
        document.get("timeout_ms"@) is Some && document.get("timeout_ms"@)->0.as_u64() is Some ==> {
            let given = document.get("timeout_ms"@)->0.as_u64()->0;
            &&& given <= 120_000 ==> awaited_ms(Some(document)) == given
            &&& given > 120_000 ==> awaited_ms(Some(document)) == 120_000
        },
{
    assert(items.push(next).drop_last() =~= items);
}

/// What a command left is told as it is, without the white space around it; only what is too long
/// is cut, and marked.
pub proof fn law_command_output_is_told(exit_code: i32, stdout: Seq<char>, stderr: Seq<char>)
    ensures
        ({
            let told = command_output(exit_code, stdout, stderr);
            let out = text::trim(stdout);
            let err = text::trim(stderr);
            &&& told.get("exitCode"@) == Some(
                JsonView::Number(json::integer_number(exit_code as int)),
            )
            &&& told.text_at("status"@) == Some("completed"@)
            &&& out.len() <= 8_000 ==> told.text_at("stdout"@) == Some(out)
            &&& out.len() > 8_000 ==> told.text_at("stdout"@) == Some(
                out.take(8_000) + "\n...[truncated]"@,
            )
            &&& err.len() <= 4_000 ==> told.text_at("stderr"@) == Some(err)
            &&& err.len() > 4_000 ==> told.text_at("stderr"@) == Some(
                err.take(4_000) + "\n...[truncated]"@,
            )
        }),
{
    reveal_strlit("status");
    reveal_strlit("exitCode");
    reveal_strlit("stdout");
    reveal_strlit("stderr");
    assert("status"@.len() == 6 && "status"@[2] == 'a');
    assert("exitCode"@.len() == 8);
    assert("stdout"@.len() == 6 && "stdout"@[2] == 'd' && "stdout"@[3] == 'o');
    assert("stderr"@.len() == 6 && "stderr"@[2] == 'd' && "stderr"@[3] == 'e');
}

} // verus!
