//! The record of executed tool calls, and who may make them.
use vstd::prelude::*;
use crate::providers::types::{ProviderResponse, ToolCall};
use crate::text;

verus! {

/// How a tool call ended.
#[derive(Debug, Clone, Copy, PartialEq, Eq, Structural)]
pub enum ToolExecutionStatus {
    Success,
    Accepted,
    ToolError,
}

/// An executed tool call, with the calls that it made in turn.
#[derive(Debug, PartialEq, Eq)]
pub struct ToolExecutionResult {
    pub name: String,
    pub args_json: String,
    pub output: String,
    pub status: ToolExecutionStatus,
    pub elapsed_ms: u64,
    pub tool_call_id: Option<String>,
    pub nested_tool_calls: Vec<ToolExecutionResult>,
}

/// What a summary keeps of a tool call.
pub struct CallView {
    pub name: Seq<char>,
    pub status: ToolExecutionStatus,
}

impl ToolExecutionResult {
    /// What a summary keeps of the call itself.
    pub open spec fn own(self) -> CallView {
        CallView { name: self.name@, status: self.status }
    }
}

/// The call itself, then the calls that it made, each with its own.
pub open spec fn flatten(call: ToolExecutionResult) -> Seq<CallView>
    decreases call,
{
    seq![call.own()] + flatten_all(call.nested_tool_calls@)
}

/// The calls one after another, each followed by the calls that it made.
pub open spec fn flatten_all(calls: Seq<ToolExecutionResult>) -> Seq<CallView>
    decreases calls,
{
    if calls.len() == 0 {
        Seq::empty()
    } else {
        flatten_all(calls.drop_last()) + flatten(calls.last())
    }
}

/// What an answer asks for.
#[derive(Debug, PartialEq, Eq)]
pub enum DispatchAction {
    ToolCalls(Vec<ToolCall>),
    FinalResponse(String),
    Empty,
}

/// What an answer of a model that calls tools natively asks for: its calls where it makes any, or
/// else its text where there is one.
pub fn native_action(response: ProviderResponse) -> (r: DispatchAction)
    ensures
        r == if response.tool_calls@.len() > 0 {
            DispatchAction::ToolCalls(response.tool_calls)
        } else {
            match response.output_text {
                Some(output) => if text::is_blank(output@) {
                    DispatchAction::Empty
                } else {
                    DispatchAction::FinalResponse(output)
                },
                None => DispatchAction::Empty,
            }
        },
{
    if response.tool_calls.len() > 0 {
        return DispatchAction::ToolCalls(response.tool_calls);
    }
    match response.output_text {
        Some(output) => if text::blank(output.as_str()) {
            DispatchAction::Empty
        } else {
            DispatchAction::FinalResponse(output)
        },
        None => DispatchAction::Empty,
    }
}

/// How tools are offered to a model: by the provider's own means, or in the prompt.
#[derive(Debug, Clone, Copy, PartialEq, Eq, Structural)]
pub enum DispatcherKind {
    Native,
    Xml,
}

/// Whether a tool is for owners alone.
pub open spec fn is_owners_tool(name: Seq<char>) -> bool {
    ||| name == "exec"@
    ||| name == "process"@
    ||| name == "forget"@
    ||| name == "summon"@
    ||| name == "edit"@
    ||| name == "memorize"@
}

/// Whether a tool is for owners alone: those that can destroy something, or act for others, are.
pub fn owner_restricted(name: &str) -> (r: bool)
    ensures
        r == is_owners_tool(name@),
{
    text::same_text(name, "exec") || text::same_text(name, "process") || text::same_text(
        name,
        "forget",
    ) || text::same_text(name, "summon") || text::same_text(name, "edit") || text::same_text(
        name,
        "memorize",
    )
}

/// Whether a user may use a tool.
pub open spec fn may_use(name: Seq<char>, user_id: Seq<char>, owner_ids: Seq<Seq<char>>) -> bool {
    is_owners_tool(name) ==> owner_ids.contains(user_id)
}

/// Whether a user may use a tool.
pub fn is_authorized(name: &str, user_id: &str, owner_ids: &Vec<String>) -> (r: bool)
    ensures
        r == may_use(name@, user_id@, text::views(owner_ids@)),
{
    if !owner_restricted(name) {
        return true;
    }
    let ghost owners = text::views(owner_ids@);
    let mut i: usize = 0;
    while i < owner_ids.len()
        invariant
            i <= owner_ids@.len(),
            owners == text::views(owner_ids@),
            forall|k: int| 0 <= k < i ==> #[trigger] owners[k] != user_id@,
        decreases owner_ids@.len() - i,
    {
        assert(owners[i as int] == owner_ids@[i as int]@);
        if text::same_text(owner_ids[i].as_str(), user_id) {
            return true;
        }
        i = i + 1;
    }
    false
}

/// Nobody but an owner runs commands, changes files, forgets or memorizes, or summons others; where
/// there are no owners, nobody does.
pub proof fn law_only_owners_use_sensitive_tools(
    name: Seq<char>,
    user_id: Seq<char>,
    owner_ids: Seq<Seq<char>>,
)
    requires
        is_owners_tool(name),
        !owner_ids.contains(user_id),
    ensures
        !may_use(name, user_id, owner_ids),
{
}

/// An answer that calls tools asks for all of its calls; one without calls that says something is
/// the reply, as it is; one that says nothing is empty.
pub proof fn law_answers_ask_for_what_they_hold(response: ProviderResponse, r: DispatchAction)
    requires
        call_ensures(native_action, (response,), r),
    ensures
        r is ToolCalls <==> response.tool_calls@.len() > 0,
        r matches DispatchAction::ToolCalls(calls) ==> calls@ == response.tool_calls@,
        r is FinalResponse <==> response.tool_calls@.len() == 0 && response.output_text is Some
            && !text::is_blank(response.output_text->0@),
        r matches DispatchAction::FinalResponse(reply) ==> reply@ == response.output_text->0@,
{
}

/// The tools for owners are the six that change or run things; every other tool is for everyone,
/// and an owner may use them all.
pub proof fn law_other_tools_are_for_everyone(
    name: Seq<char>,
    user_id: Seq<char>,
    owner_ids: Seq<Seq<char>>,
)
    ensures
        owner_ids.contains(user_id) ==> may_use(name, user_id, owner_ids),
        name != "exec"@ && name != "process"@ && name != "forget"@ && name != "summon"@ && name
            != "edit"@ && name != "memorize"@ ==> may_use(name, user_id, owner_ids),
        !owner_ids.contains(user_id) ==> {
            &&& !may_use("exec"@, user_id, owner_ids)
            &&& !may_use("process"@, user_id, owner_ids)
            &&& !may_use("forget"@, user_id, owner_ids)
            &&& !may_use("summon"@, user_id, owner_ids)
            &&& !may_use("edit"@, user_id, owner_ids)
            &&& !may_use("memorize"@, user_id, owner_ids)
        },
{
}

/// The calls of two lists are those of the first followed by those of the second, and a call comes
/// before the calls that it made.
pub proof fn law_calls_follow_their_order(
    first: Seq<ToolExecutionResult>,
    second: Seq<ToolExecutionResult>,
    call: ToolExecutionResult,
)
    ensures
        flatten_all(first + second) == flatten_all(first) + flatten_all(second),
        flatten(call).len() == 1 + flatten_all(call.nested_tool_calls@).len(),
        flatten(call)[0].name == call.name@,
        flatten(call)[0].status == call.status,
        flatten(call).skip(1) == flatten_all(call.nested_tool_calls@),
        call.nested_tool_calls@.len() == 0 ==> flatten_all(first.push(call)) == flatten_all(
            first,
        ).push(CallView { name: call.name@, status: call.status }),
    decreases second.len(),
{
    assert(flatten(call).skip(1) =~= flatten_all(call.nested_tool_calls@));
    assert(first.push(call).drop_last() =~= first);
    if call.nested_tool_calls@.len() == 0 {
        assert(flatten(call) =~= seq![call.own()]);
        assert(flatten_all(first) + seq![call.own()] =~= flatten_all(first).push(call.own()));
    }
    if second.len() == 0 {
        assert(first + second =~= first);
        assert(flatten_all(first) + flatten_all(second) =~= flatten_all(first));
    } else {
        law_calls_follow_their_order(first, second.drop_last(), call);
        assert((first + second).drop_last() =~= first + second.drop_last());
        assert(flatten_all(first) + flatten_all(second.drop_last()) + flatten(second.last())
            =~= flatten_all(first) + flatten_all(second));
    }
}

} // verus!
