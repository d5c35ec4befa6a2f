//! Putting the service together: which agents run, and with which providers.
use vstd::prelude::*;
use crate::error::{ErrorView, FrameworkError};
use crate::paths;
use crate::providers::registry::ProviderFactory;
use crate::providers::registry;
use crate::text;

verus! {

/// Where an agent's memory is kept: the directory, and the files for the short and the long term.
pub open spec fn memory_paths(workspace: Seq<char>) -> (Seq<char>, Seq<char>, Seq<char>) {
    let dir = paths::joined_path(paths::joined_path(workspace, ".simpleclaw"@), "memory"@);
    (
        dir,
        paths::joined_path(dir, "short_term_memory.db"@),
        paths::joined_path(dir, "long_term_memory.db"@),
    )
}

/// Where an agent's memory is kept: the directory, and the files for the short and the long term.
pub fn agent_workspace_memory_paths(workspace: &str) -> (r: (String, String, String))
    ensures
        (r.0@, r.1@, r.2@) == memory_paths(workspace@),
{
    let state_dir = paths::join(workspace, ".simpleclaw");
    let memory_dir = paths::join(state_dir.as_str(), "memory");
    let short_term = paths::join(memory_dir.as_str(), "short_term_memory.db");
    let long_term = paths::join(memory_dir.as_str(), "long_term_memory.db");
    (memory_dir, short_term, long_term)
}

/// An agent of the configuration, with what was loaded for it or why that failed.
#[derive(Debug, PartialEq, Eq)]
pub struct AgentLoad {
    pub id: String,
    pub workspace: String,
    pub provider: Option<String>,
    /// Whether there is a memory, or why not.
    pub memory: Result<(), String>,
    pub system_prompt: Result<String, String>,
    /// How many tools there are besides, or why that is not known.
    pub skill_tools: Result<usize, String>,
}

/// What the configuration says for all agents.
#[derive(Debug, PartialEq, Eq)]
pub struct SharedSettings {
    /// The key of the provider of agents that name none.
    pub default_provider: String,
    pub owner_ids: Vec<String>,
    pub app_base_dir: String,
    /// What a user is told where a turn fails.
    pub safe_error_reply: String,
}

/// An agent that runs.
#[derive(Debug, PartialEq, Eq)]
pub struct AgentRuntimeConfig {
    pub agent_id: String,
    pub provider_key: String,
    pub owner_ids: Vec<String>,
    pub workspace_root: String,
    pub app_base_dir: String,
    pub system_prompt: String,
    /// Where the agent stands in the configuration; its memory and its tools are those loaded there.
    pub place: usize,
}

/// An agent that runs, as it reads.
#[verifier::ext_equal]
pub struct AgentView {
    pub agent_id: Seq<char>,
    pub provider_key: Seq<char>,
    pub owner_ids: Seq<Seq<char>>,
    pub workspace_root: Seq<char>,
    pub app_base_dir: Seq<char>,
    pub system_prompt: Seq<char>,
    pub place: int,
}

impl View for AgentRuntimeConfig {
    type V = AgentView;

    open spec fn view(&self) -> AgentView {
        AgentView {
            agent_id: self.agent_id@,
            provider_key: self.provider_key@,
            owner_ids: text::views(self.owner_ids@),
            workspace_root: self.workspace_root@,
            app_base_dir: self.app_base_dir@,
            system_prompt: self.system_prompt@,
            place: self.place as int,
        }
    }
}

/// Agents that run, as they read.
pub open spec fn agent_views(agents: Seq<AgentRuntimeConfig>) -> Seq<AgentView> {
    Seq::new(agents.len(), |i: int| agents[i]@)
}

/// The key of an agent's provider: its own, or else the one for all.
pub open spec fn provider_key_of(provider: Option<Seq<char>>, default_provider: Seq<char>) -> Seq<
    char,
> {
    text::trim(
        match provider {
            Some(provider) => provider,
            None => default_provider,
        },
    )
}

/// The first memory that could not be had.
pub open spec fn memory_error(agents: Seq<AgentLoad>) -> Option<ErrorView>
    decreases agents.len(),
{
    if agents.len() == 0 {
        None
    } else {
        match memory_error(agents.drop_last()) {
            Some(error) => Some(error),
            None => match agents.last().memory {
                Ok(()) => None,
                Err(message) => Some(ErrorView::Config(message@)),
            },
        }
    }
}

/// An agent that runs; or why it does not.
pub open spec fn agent_runtime<P>(
    agent: AgentLoad,
    place: int,
    settings: SharedSettings,
    providers: ProviderFactory<P>,
) -> Result<AgentView, ErrorView> {
    let key = provider_key_of(text::opt_view(agent.provider), settings.default_provider@);
    if key.len() == 0 {
        Err(
            ErrorView::Config(
                "agent '"@ + agent.id@ + "' has an empty provider key in config.yaml"@,
            ),
        )
    } else if registry::entry_at(providers.entries_view(), key) is None {
        Err(ErrorView::Config("unknown provider key '"@ + key + "'"@))
    } else {
        match (agent.system_prompt, agent.skill_tools) {
            (Err(_), _) => Err(
                ErrorView::Config(
                    "failed to assemble layered system prompt for agent '"@ + agent.id@ + "'"@,
                ),
            ),
            (_, Err(_)) => Err(
                ErrorView::Config(
                    "failed to load skill tools for agent '"@ + agent.id@ + "'"@,
                ),
            ),
            (Ok(system_prompt), Ok(_)) => Ok(
                AgentView {
                    agent_id: agent.id@,
                    provider_key: key,
                    owner_ids: text::views(settings.owner_ids@),
                    workspace_root: agent.workspace@,
                    app_base_dir: settings.app_base_dir@,
                    system_prompt: system_prompt@,
                    place,
                },
            ),
        }
    }
}

/// What runs: the agents, and what a user is told where a turn fails.
#[derive(Debug, PartialEq, Eq)]
pub struct RuntimeState {
    pub runtimes: Vec<AgentRuntimeConfig>,
    pub safe_error_reply: String,
}

/// What runs, as it reads.
#[verifier::ext_equal]
pub struct StateView {
    pub runtimes: Seq<AgentView>,
    pub safe_error_reply: Seq<char>,
}

impl View for RuntimeState {
    type V = StateView;

    open spec fn view(&self) -> StateView {
        StateView {
            runtimes: agent_views(self.runtimes@),
            safe_error_reply: self.safe_error_reply@,
        }
    }
}

impl RuntimeState {
    /// The agent with a name, where one runs.
    pub fn config(&self, agent_id: &str) -> (r: Option<&AgentRuntimeConfig>)
        ensures
            match agent_at(self@.runtimes, agent_id@) {
                Some(i) => r is Some && r->0@ == self@.runtimes[i],
                None => r is None,
            },
    {
        let ghost all = self@.runtimes;
        let mut i: usize = self.runtimes.len();
        assert(all.take(i as int) =~= all);
        while i > 0
            invariant
                i <= self.runtimes@.len(),
                all == agent_views(self.runtimes@),
                agent_at(all.take(i as int), agent_id@) == agent_at(all, agent_id@),
            decreases i,
        {
            assert(all.take(i as int).drop_last() =~= all.take(i - 1));
            assert(all.take(i as int).last() == self.runtimes@[i - 1]@);
            if text::same_text(self.runtimes[i - 1].agent_id.as_str(), agent_id) {
                return Some(&self.runtimes[i - 1]);
            }
            i = i - 1;
        }
        None
    }
}

/// Where an agent that runs stands.
pub open spec fn agent_at(agents: Seq<AgentView>, id: Seq<char>) -> Option<int>
    decreases agents.len(),
{
    if agents.len() == 0 {
        None
    } else if agents.last().agent_id == id {
        Some(agents.len() - 1)
    } else {
        agent_at(agents.drop_last(), id)
    }
}

/// The agents with one more; one with the same name gives way to it.
pub open spec fn with_agent(agents: Seq<AgentView>, agent: AgentView) -> Seq<AgentView> {
    match agent_at(agents, agent.agent_id) {
        Some(i) => agents.update(i, agent),
        None => agents.push(agent),
    }
}

/// The agents that run; or why the service does not.
pub open spec fn agent_runtimes<P>(
    agents: Seq<AgentLoad>,
    settings: SharedSettings,
    providers: ProviderFactory<P>,
) -> Result<Seq<AgentView>, ErrorView>
    decreases agents.len(),
{
    if agents.len() == 0 {
        Ok(Seq::empty())
    } else {
        match agent_runtimes(agents.drop_last(), settings, providers) {
            Err(error) => Err(error),
            Ok(before) => match agent_runtime(
                agents.last(),
                agents.len() - 1,
                settings,
                providers,
            ) {
                Err(error) => Err(error),
                Ok(agent) => Ok(with_agent(before, agent)),
            },
        }
    }
}

/// The agents that run; or why the service does not: every memory is looked at before anything
/// else.
pub open spec fn assembled<P>(
    agents: Seq<AgentLoad>,
    settings: SharedSettings,
    providers: ProviderFactory<P>,
) -> Result<StateView, ErrorView> {
    match memory_error(agents) {
        Some(error) => Err(error),
        None => match agent_runtimes(agents, settings, providers) {
            Err(error) => Err(error),
            Ok(runtimes) => Ok(
                StateView { runtimes, safe_error_reply: settings.safe_error_reply@ },
            ),
        },
    }
}

/// An error stays the error, whatever follows.
proof fn lemma_error_stays<P>(
    agents: Seq<AgentLoad>,
    settings: SharedSettings,
    providers: ProviderFactory<P>,
    n: int,
)
    requires
        0 <= n <= agents.len(),
        agent_runtimes(agents.take(n), settings, providers) is Err,
    ensures
        agent_runtimes(agents, settings, providers) == agent_runtimes(
            agents.take(n),
            settings,
            providers,
        ),
    decreases agents.len(),
{
    if n == agents.len() {
        assert(agents.take(n) =~= agents);
    } else {
        assert(agents.drop_last().take(n) =~= agents.take(n));
        lemma_error_stays(agents.drop_last(), settings, providers, n);
    }
}

/// A memory that could not be had stays the first, whatever follows.
proof fn lemma_memory_error_stays(agents: Seq<AgentLoad>, n: int)
    requires
        0 <= n <= agents.len(),
        memory_error(agents.take(n)) is Some,
    ensures
        memory_error(agents) == memory_error(agents.take(n)),
    decreases agents.len(),
{
    if n == agents.len() {
        assert(agents.take(n) =~= agents);
    } else {
        assert(agents.drop_last().take(n) =~= agents.take(n));
        lemma_memory_error_stays(agents.drop_last(), n);
    }
}

/// An agent that runs; or why it does not.
fn assemble_agent<P>(
    agent: &AgentLoad,
    place: usize,
    settings: &SharedSettings,
    providers: &ProviderFactory<P>,
) -> (r: Result<AgentRuntimeConfig, FrameworkError>)
    ensures
        match r {
            Ok(agent) => Ok::<AgentView, ErrorView>(agent@),
            Err(error) => Err(error@),
        } == agent_runtime(*agent, place as int, *settings, *providers),
{
    let provider_key = match &agent.provider {
        Some(provider) => text::trimmed(provider.as_str()),
        None => text::trimmed(settings.default_provider.as_str()),
    };
    if provider_key.as_str().is_empty() {
        return Err(
            FrameworkError::Config(
                text::concat3(
                    "agent '",
                    agent.id.as_str(),
                    "' has an empty provider key in config.yaml",
                ),
            ),
        );
    }
    if let Err(error) = providers.get(provider_key.as_str()) {
        return Err(error);
    }
    let system_prompt = match &agent.system_prompt {
        Ok(system_prompt) => system_prompt.clone(),
        Err(_) => {
            return Err(
                FrameworkError::Config(
                    text::concat3(
                        "failed to assemble layered system prompt for agent '",
                        agent.id.as_str(),
                        "'",
                    ),
                ),
            );
        },
    };
    if agent.skill_tools.is_err() {
        return Err(
            FrameworkError::Config(
                text::concat3("failed to load skill tools for agent '", agent.id.as_str(), "'"),
            ),
        );
    }
    Ok(
        AgentRuntimeConfig {
            agent_id: agent.id.clone(),
            provider_key,
            owner_ids: text::copy_texts(&settings.owner_ids),
            workspace_root: agent.workspace.clone(),
            app_base_dir: settings.app_base_dir.clone(),
            system_prompt,
            place,
        },
    )
}

/// Adds an agent that runs.
fn insert_agent(runtimes: &mut Vec<AgentRuntimeConfig>, agent: AgentRuntimeConfig)
    ensures
        agent_views(final(runtimes)@) == with_agent(agent_views(old(runtimes)@), agent@),
{
    let ghost before = agent_views(runtimes@);
    let ghost added = agent@;
    let mut i: usize = runtimes.len();
    assert(before.take(i as int) =~= before);
    while i > 0
        invariant
            i <= runtimes@.len(),
            *runtimes == *old(runtimes),
            before == agent_views(runtimes@),
            added == agent@,
            agent_at(before.take(i as int), added.agent_id) == agent_at(before, added.agent_id),
        decreases i,
    {
        assert(before.take(i as int).drop_last() =~= before.take(i - 1));
        assert(before.take(i as int).last() == runtimes@[i - 1]@);
        if text::same_text(runtimes[i - 1].agent_id.as_str(), agent.agent_id.as_str()) {
            runtimes.set(i - 1, agent);
            assert(agent_views(runtimes@) =~= before.update(i - 1, added));
            return;
        }
        i = i - 1;
    }
    runtimes.push(agent);
    assert(agent_views(runtimes@) =~= before.push(added));
}

/// What runs, given what was loaded for each agent; or why the service does not.
pub fn assemble_runtime_state<P>(
    agents: &Vec<AgentLoad>,
    settings: &SharedSettings,
    providers: &ProviderFactory<P>,
) -> (r: Result<RuntimeState, FrameworkError>)
    ensures
        match r {
            Ok(state) => Ok::<StateView, ErrorView>(state@),
            Err(error) => Err(error@),
        } == assembled(agents@, *settings, *providers),
{
    let mut i: usize = 0;
    assert(agents@.take(0) =~= Seq::<AgentLoad>::empty());
    while i < agents.len()
        invariant
            i <= agents@.len(),
            memory_error(agents@.take(i as int)) is None,
        decreases agents@.len() - i,
    {
        proof {
            assert(agents@.take(i + 1).drop_last() =~= agents@.take(i as int));
            assert(agents@.take(i + 1).last() == agents@[i as int]);
        }
        if let Err(message) = &agents[i].memory {
            proof {
                lemma_memory_error_stays(agents@, i + 1);
            }
            return Err(FrameworkError::Config(message.clone()));
        }
        i = i + 1;
    }
    assert(agents@.take(agents@.len() as int) =~= agents@);
    let mut runtimes: Vec<AgentRuntimeConfig> = Vec::new();
    let mut k: usize = 0;
    assert(agent_views(runtimes@) =~= Seq::<AgentView>::empty());
    while k < agents.len()
        invariant
            k <= agents@.len(),
            memory_error(agents@) is None,
            agent_runtimes(agents@.take(k as int), *settings, *providers) == Ok::<
                Seq<AgentView>,
                ErrorView,
            >(agent_views(runtimes@)),
        decreases agents@.len() - k,
    {
        proof {
            assert(agents@.take(k + 1).drop_last() =~= agents@.take(k as int));
            assert(agents@.take(k + 1).last() == agents@[k as int]);
        }
        match assemble_agent(&agents[k], k, settings, providers) {
            Ok(agent) => {
                insert_agent(&mut runtimes, agent);
            },
            Err(error) => {
                proof {
                    lemma_error_stays(agents@, *settings, *providers, k + 1);
                }
                return Err(error);
            },
        }
        k = k + 1;
    }
    assert(agents@.take(agents@.len() as int) =~= agents@);
    Ok(RuntimeState { runtimes, safe_error_reply: settings.safe_error_reply.clone() })
}

/// A name leads to an agent of that name.
proof fn lemma_agent_at(agents: Seq<AgentView>, id: Seq<char>)
    ensures
        match agent_at(agents, id) {
            Some(i) => 0 <= i < agents.len() && agents[i].agent_id == id,
            None => forall|i: int| 0 <= i < agents.len() ==> (#[trigger] agents[i]).agent_id != id,
        },
    decreases agents.len(),
{
    if agents.len() > 0 && agents.last().agent_id != id {
        lemma_agent_at(agents.drop_last(), id);
        assert forall|i: int|
            0 <= i < agents.len() && agent_at(agents, id) is None implies (
        #[trigger] agents[i]).agent_id != id by {
            if i < agents.len() - 1 {
                assert(agents.drop_last()[i] == agents[i]);
            }
        }
    }
}

/// Whether no two agents share a name.
pub open spec fn names_distinct(agents: Seq<AgentView>) -> bool {
    forall|i: int, j: int|
        0 <= i < j < agents.len() ==> (#[trigger] agents[i]).agent_id != (
        #[trigger] agents[j]).agent_id
}

/// Whether an agent stands for the entry of the configuration at its place, and that entry is the
/// last one with its name.
pub open spec fn stands_for_its_entry<P>(
    running: AgentView,
    agents: Seq<AgentLoad>,
    settings: SharedSettings,
    providers: ProviderFactory<P>,
) -> bool {
    &&& 0 <= running.place < agents.len()
    &&& agent_runtime(agents[running.place], running.place, settings, providers) == Ok::<
        AgentView,
        ErrorView,
    >(running)
    &&& forall|k: int|
        running.place < k < agents.len() ==> (#[trigger] agents[k]).id@ != running.agent_id
}

/// Where the service runs, every agent of the configuration runs once, as its last entry says, and
/// nothing else runs.
pub proof fn law_every_agent_runs_once<P>(
    agents: Seq<AgentLoad>,
    settings: SharedSettings,
    providers: ProviderFactory<P>,
)
    requires
        assembled(agents, settings, providers) is Ok,
    ensures
        ({
            let runtimes = assembled(agents, settings, providers)->Ok_0.runtimes;
            &&& names_distinct(runtimes)
            &&& forall|k: int|
                0 <= k < agents.len() ==> agent_at(runtimes, (#[trigger] agents[k]).id@) is Some
            &&& forall|i: int|
                0 <= i < runtimes.len() ==> stands_for_its_entry(
                    #[trigger] runtimes[i],
                    agents,
                    settings,
                    providers,
                )
        }),
{
    lemma_every_agent_runs_once(agents, settings, providers);
}

proof fn lemma_every_agent_runs_once<P>(
    agents: Seq<AgentLoad>,
    settings: SharedSettings,
    providers: ProviderFactory<P>,
)
    requires
        agent_runtimes(agents, settings, providers) is Ok,
    ensures
        ({
            let runtimes = agent_runtimes(agents, settings, providers)->Ok_0;
            &&& names_distinct(runtimes)
            &&& forall|k: int|
                0 <= k < agents.len() ==> agent_at(runtimes, (#[trigger] agents[k]).id@) is Some
            &&& forall|i: int|
                0 <= i < runtimes.len() ==> stands_for_its_entry(
                    #[trigger] runtimes[i],
                    agents,
                    settings,
                    providers,
                )
        }),
    decreases agents.len(),
{
    if agents.len() > 0 {
        let earlier = agents.drop_last();
        lemma_every_agent_runs_once(earlier, settings, providers);
        let before = agent_runtimes(earlier, settings, providers)->Ok_0;
        let runtimes = agent_runtimes(agents, settings, providers)->Ok_0;
        let n = agents.len() - 1;
        let added = agent_runtime(agents.last(), n, settings, providers)->Ok_0;
        lemma_agent_at(before, added.agent_id);
        assert(runtimes == with_agent(before, added));
        assert forall|k: int| 0 <= k < agents.len() implies agent_at(
            runtimes,
            (#[trigger] agents[k]).id@,
        ) is Some by {
            lemma_agent_at(runtimes, agents[k].id@);
            if k < n {
                assert(earlier[k] == agents[k]);
                lemma_agent_at(before, agents[k].id@);
                let i = agent_at(before, agents[k].id@)->0;
                assert(runtimes[i].agent_id == agents[k].id@);
            } else {
                match agent_at(before, added.agent_id) {
                    Some(i) => {
                        assert(runtimes[i] == added);
                    },
                    None => {
                        assert(runtimes[before.len() as int] == added);
                    },
                }
            }
        }
        assert forall|i: int| 0 <= i < runtimes.len() implies stands_for_its_entry(
            #[trigger] runtimes[i],
            agents,
            settings,
            providers,
        ) by {
            let running = runtimes[i];
            if running.place != n || i < before.len() && running == before[i] {
                if i < before.len() && running == before[i] {
                    assert(stands_for_its_entry(before[i], earlier, settings, providers));
                    assert(earlier[running.place] == agents[running.place]);
                    assert(running.agent_id != added.agent_id);
                    assert forall|k: int| running.place < k < agents.len() implies (
                    #[trigger] agents[k]).id@ != running.agent_id by {
                        if k < n {
                            assert(earlier[k] == agents[k]);
                        }
                    }
                }
            } else {
                assert(running == added);
            }
        }
    }
}

/// Every agent that runs has a provider.
pub proof fn law_running_agents_have_providers<P>(
    agent: AgentLoad,
    place: int,
    settings: SharedSettings,
    providers: ProviderFactory<P>,
)
    ensures
        match agent_runtime(agent, place, settings, providers) {
            Ok(running) => running.provider_key.len() > 0 && registry::entry_at(
                providers.entries_view(),
                running.provider_key,
            ) is Some,
            Err(_) => true,
        },
{
}

/// An agent runs as it was set up: under its id, in its workspace, with its prompt, with the
/// provider that it names or else the default one, and with the owners and directory of all.
pub proof fn law_agents_run_as_set_up<P>(
    agent: AgentLoad,
    place: int,
    settings: SharedSettings,
    providers: ProviderFactory<P>,
)
    ensures
        ({
            let key = text::trim(
                match agent.provider {
                    Some(provider) => provider@,
                    None => settings.default_provider@,
                },
            );
            let r = agent_runtime(agent, place, settings, providers);
            &&& r is Ok <==> key.len() > 0 && registry::entry_at(providers.entries_view(), key)
                is Some && agent.system_prompt is Ok && agent.skill_tools is Ok
            &&& r is Ok ==> {
                &&& r->Ok_0.agent_id == agent.id@
                &&& r->Ok_0.provider_key == key
                &&& r->Ok_0.workspace_root == agent.workspace@
                &&& r->Ok_0.system_prompt == agent.system_prompt->Ok_0@
                &&& r->Ok_0.owner_ids == text::views(settings.owner_ids@)
                &&& r->Ok_0.app_base_dir == settings.app_base_dir@
                &&& r->Ok_0.place == place
            }
        }),
{
}

/// A service is put together only where the memory of every agent could be opened; the first that
/// could not names the error.
pub proof fn law_every_memory_must_open(agents: Seq<AgentLoad>)
    ensures
        match memory_error(agents) {
            None => forall|i: int| 0 <= i < agents.len() ==> (#[trigger] agents[i]).memory is Ok,
            Some(error) => exists|i: int|
                0 <= i < agents.len() && (#[trigger] agents[i]).memory is Err && error
                    == ErrorView::Config(agents[i].memory->Err_0@),
        },
    decreases agents.len(),
{
    if agents.len() > 0 {
        let before = agents.drop_last();
        law_every_memory_must_open(before);
        assert forall|i: int| 0 <= i < before.len() implies before[i] == #[trigger] agents[i] by {}
        assert(agents[agents.len() - 1] == agents.last());
        if memory_error(before) is Some {
            let i = choose|i: int|
                0 <= i < before.len() && (#[trigger] before[i]).memory is Err && memory_error(
                    before,
                )->Some_0 == ErrorView::Config(before[i].memory->Err_0@);
            assert(agents[i].memory is Err);
        }
    }
}

/// The reply to failures is the one that was set.
pub proof fn law_the_set_reply_is_used<P>(
    agents: Seq<AgentLoad>,
    settings: SharedSettings,
    providers: ProviderFactory<P>,
)
    ensures
        assembled(agents, settings, providers) matches Ok(state) ==> state.safe_error_reply
            == settings.safe_error_reply@,
        assembled(agents, settings, providers) is Ok ==> memory_error(agents) is None,
{
}

/// The memories of an agent lie in its workspace, apart from each other.
pub proof fn law_memories_lie_in_the_workspace(workspace: Seq<char>)
    requires
        workspace.len() > 0,
        workspace.last() != '/',
    ensures
        ({
            let (dir, short, long) = memory_paths(workspace);
            &&& dir == workspace + "/.simpleclaw/memory"@
            &&& short == workspace + "/.simpleclaw/memory/short_term_memory.db"@
            &&& long == workspace + "/.simpleclaw/memory/long_term_memory.db"@
            &&& short != long
        }),
{
    reveal_strlit("/");
    reveal_strlit(".simpleclaw");
    reveal_strlit("memory");
    reveal_strlit("short_term_memory.db");
    reveal_strlit("long_term_memory.db");
    reveal_strlit("/.simpleclaw/memory");
    reveal_strlit("/.simpleclaw/memory/short_term_memory.db");
    reveal_strlit("/.simpleclaw/memory/long_term_memory.db");
    let (dir, short, long) = memory_paths(workspace);
    let first = paths::joined_path(workspace, ".simpleclaw"@);
    assert(first =~= workspace + "/"@ + ".simpleclaw"@);
    assert(first.last() == 'w');
    assert(dir =~= workspace + "/.simpleclaw/memory"@);
    assert(dir.last() == 'y');
    assert(short =~= workspace + "/.simpleclaw/memory/short_term_memory.db"@);
    assert(long =~= workspace + "/.simpleclaw/memory/long_term_memory.db"@);
    assert(short.len() != long.len());
}

/// An agent that is added runs as it was set up, and takes the place of one with its id; all others
/// stay.
pub proof fn law_added_agents_run(agents: Seq<AgentView>, agent: AgentView, other: AgentView)
    ensures
        with_agent(agents, agent).contains(agent),
        agents.contains(other) && other.agent_id != agent.agent_id ==> with_agent(
            agents,
            agent,
        ).contains(other),
        with_agent(agents, agent).len() == agents.len() + (if agent_at(agents, agent.agent_id)
            is Some {
            0nat
        } else {
            1nat
        }),
{
    lemma_agent_place(agents, agent.agent_id);
    let all = with_agent(agents, agent);
    match agent_at(agents, agent.agent_id) {
        Some(i) => {
            assert(all[i] == agent);
        },
        None => {
            assert(all[agents.len() as int] == agent);
        },
    }
    if agents.contains(other) && other.agent_id != agent.agent_id {
        let k = choose|k: int| 0 <= k < agents.len() && agents[k] == other;
        assert(all[k] == other);
    }
}

/// The place of an agent is one where it stands.
proof fn lemma_agent_place(agents: Seq<AgentView>, id: Seq<char>)
    ensures
        agent_at(agents, id) matches Some(i) ==> 0 <= i < agents.len() && agents[i].agent_id == id,
    decreases agents.len(),
{
    if agents.len() > 0 && agents.last().agent_id != id {
        lemma_agent_place(agents.drop_last(), id);
    }
}

/// An agent asks the model that was set up for it, and the usual one where none was.
pub proof fn law_agents_ask_their_model(provider: Option<Seq<char>>, default_provider: Seq<char>)
    ensures
        provider is Some ==> provider_key_of(provider, default_provider) == text::trim(provider->0),
        provider is None ==> provider_key_of(provider, default_provider) == text::trim(
            default_provider,
        ),
{
}

} // verus!
