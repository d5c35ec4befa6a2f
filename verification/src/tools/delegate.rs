//! The tools that hand work to another agent: summon and task.
use vstd::prelude::*;
use crate::error::{ErrorView, FrameworkError};
use crate::error;
use crate::text;
use crate::tools::common::{SummonArgs, TaskArgs};

verus! {

/// The settings of the summon tool.
#[derive(Debug, PartialEq, Eq)]
pub struct SummonToolConfig {
    pub allowed: Vec<String>,
    pub allow_background: bool,
}

impl Default for SummonToolConfig {
    fn default() -> (r: Self)
        ensures
            r.allowed@ == Seq::<String>::empty() && !r.allow_background,
    {
        SummonToolConfig { allowed: Vec::new(), allow_background: false }
    }
}

/// The settings of the task tool.
#[derive(Debug, PartialEq, Eq)]
pub struct TaskToolConfig {
    pub worker_max_steps: Option<u32>,
    pub allow_background: bool,
}

impl Default for TaskToolConfig {
    fn default() -> (r: Self)
        ensures
            r.worker_max_steps is None && !r.allow_background,
    {
        TaskToolConfig { worker_max_steps: None, allow_background: false }
    }
}

/// Whether work may run in the background: the tool and the run must both allow it.
pub open spec fn background_error(
    tool_name: Seq<char>,
    allow_background: bool,
    allow_async_tools: bool,
) -> Option<ErrorView> {
    if !allow_background {
        Some(
            ErrorView::Tool(
                tool_name + " background mode is disabled by tools."@ + tool_name
                    + ".allow_background"@,
            ),
        )
    } else if !allow_async_tools {
        Some(ErrorView::Tool("background async tools are not allowed in delegated runs"@))
    } else {
        None
    }
}

/// Whether work may run in the background: the tool and the run must both allow it.
pub fn check_background(tool_name: &str, allow_background: bool, allow_async_tools: bool) -> (r:
    Result<(), FrameworkError>)
    ensures
        error::unit_result(r) == match background_error(
            tool_name@,
            allow_background,
            allow_async_tools,
        ) {
            Some(error) => Err::<(), ErrorView>(error),
            None => Ok(()),
        },
{
    if !allow_background {
        let head = text::concat3(
            tool_name,
            " background mode is disabled by tools.",
            tool_name,
        );
        return Err(FrameworkError::Tool(text::concat2(head.as_str(), ".allow_background")));
    }
    if !allow_async_tools {
        return Err(
            error::tool_error("background async tools are not allowed in delegated runs"),
        );
    }
    Ok(())
}

/// The summon tool, with its settings.
#[derive(Debug, PartialEq, Eq)]
pub struct SummonTool {
    pub config: SummonToolConfig,
}

impl SummonTool {
    /// What the tool is called.
    pub fn name(&self) -> (r: &'static str)
        ensures
            r@ == "summon"@,
    {
        "summon"
    }

    /// What the tool is for.
    pub fn description(&self) -> (r: &'static str)
        ensures
            r@ == if self.config.allow_background {
                "Hand off to another agent using JSON: {agent, summary?, background?}"@
            } else {
                "Synchronously hand off to another agent with JSON: {agent, summary?}"@
            },
    {
        if self.config.allow_background {
            "Hand off to another agent using JSON: {agent, summary?, background?}"
        } else {
            "Synchronously hand off to another agent with JSON: {agent, summary?}"
        }
    }

    /// What arguments the tool takes.
    pub fn input_schema_json(&self) -> (r: &'static str)
        ensures
            r@ == if self.config.allow_background {
                "{\"type\":\"object\",\"properties\":{\"agent\":{\"type\":\"string\"},\"summary\":{\"type\":\"string\"},\"background\":{\"type\":\"boolean\"}},\"required\":[\"agent\"]}"@
            } else {
                "{\"type\":\"object\",\"properties\":{\"agent\":{\"type\":\"string\"},\"summary\":{\"type\":\"string\"}},\"required\":[\"agent\"]}"@
            },
    {
        if self.config.allow_background {
            "{\"type\":\"object\",\"properties\":{\"agent\":{\"type\":\"string\"},\"summary\":{\"type\":\"string\"},\"background\":{\"type\":\"boolean\"}},\"required\":[\"agent\"]}"
        } else {
            "{\"type\":\"object\",\"properties\":{\"agent\":{\"type\":\"string\"},\"summary\":{\"type\":\"string\"}},\"required\":[\"agent\"]}"
        }
    }

    /// Sets whether work may run in the background.
    pub fn set_allow_background(&mut self, allow_background: bool)
        ensures
            *final(self) == (SummonTool {
                config: SummonToolConfig { allow_background, ..old(self).config },
            }),
    {
        self.config.allow_background = allow_background;
    }

    /// Whether an agent may be summoned.
    pub fn target_allowed(&self, target: &str) -> (r: bool)
        ensures
            r == text::views(self.config.allowed@).contains(target@),
    {
        let ghost all = text::views(self.config.allowed@);
        let mut i: usize = 0;
        while i < self.config.allowed.len()
            invariant
                i <= self.config.allowed@.len(),
                all == text::views(self.config.allowed@),
                forall|k: int| 0 <= k < i ==> #[trigger] all[k] != target@,
            decreases self.config.allowed@.len() - i,
        {
            assert(all[i as int] == self.config.allowed@[i as int]@);
            if text::same_text(self.config.allowed[i].as_str(), target) {
                return true;
            }
            i = i + 1;
        }
        false
    }

    /// What the summoned agent is told; or why nobody is summoned.
    pub fn plan(&self, args: &SummonArgs, allow_async_tools: bool) -> (r: Result<
        String,
        FrameworkError,
    >)
        ensures
            error::text_result(r) == summons(
                args.agent@,
                args.summary@,
                args.background,
                text::views(self.config.allowed@),
                self.config.allow_background,
                allow_async_tools,
            ),
    {
        if !self.target_allowed(args.agent.as_str()) {
            return Err(
                FrameworkError::Tool(
                    text::concat3(
                        "summon target '",
                        args.agent.as_str(),
                        "' is not allowed by tools.summon.allowed",
                    ),
                ),
            );
        }
        if args.background {
            if let Err(error) = check_background(
                "summon",
                self.config.allow_background,
                allow_async_tools,
            ) {
                return Err(error);
            }
        }
        Ok(handoff_text(args.agent.as_str(), args.summary.as_str()))
    }
}

/// What a summoned agent is told.
pub open spec fn handoff(agent: Seq<char>, summary: Seq<char>) -> Seq<char> {
    if text::is_blank(summary) {
        "You were summoned as agent `"@ + agent
            + "`. Continue from session context and produce a final answer."@
    } else {
        "You were summoned as agent `"@ + agent + "` with handoff summary:\n"@ + summary
    }
}

/// What a summoned agent is told.
fn handoff_text(agent: &str, summary: &str) -> (r: String)
    ensures
        r@ == handoff(agent@, summary@),
{
    let named = text::concat2("You were summoned as agent `", agent);
    if text::blank(summary) {
        text::concat2(
            named.as_str(),
            "`. Continue from session context and produce a final answer.",
        )
    } else {
        text::concat3(named.as_str(), "` with handoff summary:\n", summary)
    }
}

/// What the summoned agent is told; or why nobody is summoned.
pub open spec fn summons(
    agent: Seq<char>,
    summary: Seq<char>,
    background: bool,
    allowed: Seq<Seq<char>>,
    allow_background: bool,
    allow_async_tools: bool,
) -> Result<Seq<char>, ErrorView> {
    if !allowed.contains(agent) {
        Err(
            ErrorView::Tool(
                "summon target '"@ + agent + "' is not allowed by tools.summon.allowed"@,
            ),
        )
    } else {
        match background_error("summon"@, allow_background, allow_async_tools) {
            Some(error) if background => Err(error),
            _ => Ok(handoff(agent, summary)),
        }
    }
}

/// Nobody is summoned who is not on the list; where the list is empty, nobody is.
pub proof fn law_only_listed_agents_are_summoned(
    agent: Seq<char>,
    summary: Seq<char>,
    background: bool,
    allowed: Seq<Seq<char>>,
    allow_background: bool,
    allow_async_tools: bool,
)
    ensures
        summons(agent, summary, background, allowed, allow_background, allow_async_tools) is Ok
            ==> allowed.contains(agent),
        allowed.len() == 0 ==> summons(
            agent,
            summary,
            background,
            allowed,
            allow_background,
            allow_async_tools,
        ) is Err,
{
}

/// The task tool, with its settings.
#[derive(Debug, PartialEq, Eq)]
pub struct TaskTool {
    pub config: TaskToolConfig,
}

impl TaskTool {
    /// What the tool is called.
    pub fn name(&self) -> (r: &'static str)
        ensures
            r@ == "task"@,
    {
        "task"
    }

    /// What the tool is for.
    pub fn description(&self) -> (r: &'static str)
        ensures
            r@ == if self.config.allow_background {
                "Run a delegated worker task using JSON: {prompt, background?}"@
            } else {
                "Run a delegated worker task using JSON: {prompt}"@
            },
    {
        if self.config.allow_background {
            "Run a delegated worker task using JSON: {prompt, background?}"
        } else {
            "Run a delegated worker task using JSON: {prompt}"
        }
    }

    /// What arguments the tool takes.
    pub fn input_schema_json(&self) -> (r: &'static str)
        ensures
            r@ == if self.config.allow_background {
                "{\"type\":\"object\",\"properties\":{\"prompt\":{\"type\":\"string\"},\"background\":{\"type\":\"boolean\"}},\"required\":[\"prompt\"]}"@
            } else {
                "{\"type\":\"object\",\"properties\":{\"prompt\":{\"type\":\"string\"}},\"required\":[\"prompt\"]}"@
            },
    {
        if self.config.allow_background {
            "{\"type\":\"object\",\"properties\":{\"prompt\":{\"type\":\"string\"},\"background\":{\"type\":\"boolean\"}},\"required\":[\"prompt\"]}"
        } else {
            "{\"type\":\"object\",\"properties\":{\"prompt\":{\"type\":\"string\"}},\"required\":[\"prompt\"]}"
        }
    }

    /// Sets whether work may run in the background.
    pub fn set_allow_background(&mut self, allow_background: bool)
        ensures
            *final(self) == (TaskTool {
                config: TaskToolConfig { allow_background, ..old(self).config },
            }),
    {
        self.config.allow_background = allow_background;
    }

    /// What the worker is told; or why there is none.
    pub fn plan(&self, args: &TaskArgs, allow_async_tools: bool) -> (r: Result<
        String,
        FrameworkError,
    >)
        ensures
            error::text_result(r) == match background_error(
                "task"@,
                self.config.allow_background,
                allow_async_tools,
            ) {
                Some(error) if args.background => Err::<Seq<char>, ErrorView>(error),
                _ => Ok(args.prompt@),
            },
    {
        if args.background {
            if let Err(error) = check_background(
                "task",
                self.config.allow_background,
                allow_async_tools,
            ) {
                return Err(error);
            }
        }
        Ok(args.prompt.clone())
    }
}

/// An agent that is listed is summoned: in the foreground always, in the background where both the
/// tool and the run allow it. It is told its name and what was handed over.
pub proof fn law_listed_agents_are_summoned(
    agent: Seq<char>,
    summary: Seq<char>,
    allowed: Seq<Seq<char>>,
    allow_background: bool,
    allow_async_tools: bool,
)
    requires
        allowed.contains(agent),
    ensures
        !text::is_blank(summary) ==> summons(
            agent,
            summary,
            false,
            allowed,
            allow_background,
            allow_async_tools,
        ) == Ok::<Seq<char>, ErrorView>(
            "You were summoned as agent `"@ + agent + "` with handoff summary:\n"@ + summary,
        ),
        text::is_blank(summary) ==> summons(
            agent,
            summary,
            false,
            allowed,
            allow_background,
            allow_async_tools,
        ) == Ok::<Seq<char>, ErrorView>(
            "You were summoned as agent `"@ + agent
                + "`. Continue from session context and produce a final answer."@,
        ),
        allow_background && allow_async_tools ==> summons(
            agent,
            summary,
            true,
            allowed,
            allow_background,
            allow_async_tools,
        ) == summons(agent, summary, false, allowed, allow_background, allow_async_tools),
        !allow_background || !allow_async_tools ==> summons(
            agent,
            summary,
            true,
            allowed,
            allow_background,
            allow_async_tools,
        ) is Err,
{
}

/// A task is handed on as it was given; in the background only where both the tool and the run
/// allow it.
pub proof fn law_tasks_are_handed_on(
    tool: &TaskTool,
    args: &TaskArgs,
    allow_async_tools: bool,
    r: Result<String, FrameworkError>,
)
    requires
        call_ensures(TaskTool::plan, (tool, args, allow_async_tools), r),
    ensures
        !args.background || (tool.config.allow_background && allow_async_tools) ==> r is Ok
            && r->Ok_0@ == args.prompt@,
        args.background && !(tool.config.allow_background && allow_async_tools) ==> r is Err,
{
}

/// An agent may be summoned exactly where it is listed.
pub proof fn law_targets_are_listed(tool: &SummonTool, target: &str, r: bool)
    requires
        call_ensures(SummonTool::target_allowed, (tool, target), r),
    ensures
        r <==> exists|i: int|
            0 <= i < tool.config.allowed@.len() && (#[trigger] tool.config.allowed@[i])@ == target@,
{
    let listed = text::views(tool.config.allowed@);
    if r {
        let i = choose|i: int| 0 <= i < listed.len() && listed[i] == target@;
        assert(tool.config.allowed@[i]@ == target@);
    }
    if exists|i: int|
        0 <= i < tool.config.allowed@.len() && (#[trigger] tool.config.allowed@[i])@ == target@ {
        let i = choose|i: int|
            0 <= i < tool.config.allowed@.len() && (#[trigger] tool.config.allowed@[i])@ == target@;
        assert(listed[i] == target@);
    }
}

/// Background mode is allowed or not as it is set, and nothing else of a tool changes.
pub proof fn law_background_mode_is_set(
    summon: &mut SummonTool,
    task: &mut TaskTool,
    allow_background: bool,
)
    requires
        call_ensures(SummonTool::set_allow_background, (summon, allow_background), ()),
        call_ensures(TaskTool::set_allow_background, (task, allow_background), ()),
    ensures
        final(summon).config.allow_background == allow_background,
        final(summon).config.allowed == old(summon).config.allowed,
        final(task).config.allow_background == allow_background,
        final(task).config.worker_max_steps == old(task).config.worker_max_steps,
{
}

} // verus!
