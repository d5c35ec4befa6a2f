//! The tools for what is remembered: memory, memorize and forget.
use vstd::prelude::*;
use crate::error::{ErrorView, FrameworkError};
use crate::error;
use crate::json::{Json, JsonView};
use crate::json;
use crate::text;

verus! {

/// How many hits are asked for where nothing is said.
pub const DEFAULT_TOP_K: usize = 5;

/// The settings of the memory tool.
#[derive(Debug, PartialEq, Eq)]
pub struct MemoryToolConfig {
    pub default_top_k: Option<u32>,
    pub max_top_k: Option<u32>,
}

impl Default for MemoryToolConfig {
    fn default() -> (r: Self)
        ensures
            r.default_top_k is None && r.max_top_k is None,
    {
        MemoryToolConfig { default_top_k: None, max_top_k: None }
    }
}

/// The memory tool, with its settings.
#[derive(Debug, PartialEq, Eq)]
pub struct MemoryTool {
    pub config: MemoryToolConfig,
}

impl MemoryTool {
    /// What the tool is called.
    pub fn name(&self) -> (r: &'static str)
        ensures
            r@ == "memory"@,
    {
        "memory"
    }

    /// What the tool is for.
    pub fn description(&self) -> (r: &'static str)
        ensures
            r@ == "Semantic query long-term memory using JSON: {action?, query, top_k?, kind?, limit?}; kind one of: general|profile|preferences|project|task|constraint"@,
    {
        "Semantic query long-term memory using JSON: {action?, query, top_k?, kind?, limit?}; kind one of: general|profile|preferences|project|task|constraint"
    }

    /// What arguments the tool takes.
    pub fn input_schema_json(&self) -> (r: &'static str)
        ensures
            r@ == "{\"type\":\"object\",\"properties\":{\"action\":{\"type\":\"string\",\"enum\":[\"query\",\"list\"]},\"query\":{\"type\":\"string\"},\"top_k\":{\"type\":\"integer\"},\"kind\":{\"type\":\"string\",\"enum\":[\"general\",\"profile\",\"preferences\",\"project\",\"task\",\"constraint\"]},\"limit\":{\"type\":\"integer\"}},\"required\":[]}"@,
    {
        "{\"type\":\"object\",\"properties\":{\"action\":{\"type\":\"string\",\"enum\":[\"query\",\"list\"]},\"query\":{\"type\":\"string\"},\"top_k\":{\"type\":\"integer\"},\"kind\":{\"type\":\"string\",\"enum\":[\"general\",\"profile\",\"preferences\",\"project\",\"task\",\"constraint\"]},\"limit\":{\"type\":\"integer\"}},\"required\":[]}"
    }

    /// How many hits are asked for: as many as wanted, no more than allowed, and at least one.
    pub fn resolve_top_k(&self, requested: Option<usize>) -> (r: Result<usize, FrameworkError>)
        ensures
            match r {
                Ok(top_k) => Ok::<usize, ErrorView>(top_k),
                Err(error) => Err(error@),
            } == top_k_of(self.config, requested),
    {
        let wanted: usize = match requested {
            Some(requested) => requested,
            None => match self.config.default_top_k {
                Some(top_k) => top_k as usize,
                None => DEFAULT_TOP_K,
            },
        };
        let effective: usize = match self.config.max_top_k {
            Some(max_top_k) if (max_top_k as usize) < wanted => max_top_k as usize,
            _ => wanted,
        };
        if effective == 0 {
            return Err(
                error::tool_error(
                    "memory top_k resolved to 0; configure tools.memory.default_top_k/max_top_k to positive values",
                ),
            );
        }
        Ok(effective)
    }
}

/// How many hits are wanted.
pub open spec fn wanted_top_k(config: MemoryToolConfig, requested: Option<usize>) -> usize {
    match requested {
        Some(requested) => requested,
        None => match config.default_top_k {
            Some(top_k) => top_k as usize,
            None => DEFAULT_TOP_K,
        },
    }
}

/// How many hits are asked for: as many as wanted, no more than allowed, and at least one.
pub open spec fn top_k_of(config: MemoryToolConfig, requested: Option<usize>) -> Result<
    usize,
    ErrorView,
> {
    let wanted = wanted_top_k(config, requested);
    let effective = match config.max_top_k {
        Some(max_top_k) if (max_top_k as usize) < wanted => max_top_k as usize,
        _ => wanted,
    };
    if effective == 0 {
        Err(
            ErrorView::Tool(
                "memory top_k resolved to 0; configure tools.memory.default_top_k/max_top_k to positive values"@,
            ),
        )
    } else {
        Ok(effective)
    }
}

/// However many hits are wanted, no more are asked for than allowed.
pub proof fn law_top_k_is_bounded(config: MemoryToolConfig, requested: Option<usize>)
    ensures
        match (config.max_top_k, top_k_of(config, requested)) {
            (Some(max_top_k), Ok(top_k)) => 1 <= top_k <= max_top_k as usize,
            _ => true,
        },
{
}

/// Hits with their numbers.
pub open spec fn numbered(hits: Seq<Seq<char>>) -> Seq<Seq<char>> {
    Seq::new(hits.len(), |i: int| text::decimal((i + 1) as nat) + ". "@ + hits[i])
}

/// How hits are shown.
pub open spec fn shown_hits(hits: Seq<Seq<char>>) -> Seq<char> {
    if hits.len() == 0 {
        "no memory hits"@
    } else {
        text::join(numbered(hits), "\n"@)
    }
}

/// How hits are shown.
pub fn render_hits(hits: &Vec<String>) -> (r: String)
    ensures
        r@ == shown_hits(text::views(hits@)),
{
    if hits.len() == 0 {
        return "no memory hits".to_owned();
    }
    let ghost wanted = numbered(text::views(hits@));
    let mut lines: Vec<String> = Vec::new();
    let mut i: usize = 0;
    while i < hits.len()
        invariant
            i <= hits@.len(),
            wanted == numbered(text::views(hits@)),
            text::views(lines@) =~= wanted.take(i as int),
        decreases hits@.len() - i,
    {
        let ghost before = text::views(lines@);
        let line = text::concat3(
            text::decimal_of((i + 1) as u64).as_str(),
            ". ",
            hits[i].as_str(),
        );
        assert(line@ == wanted[i as int]);
        lines.push(line);
        assert(text::views(lines@) =~= before.push(wanted[i as int]));
        i = i + 1;
    }
    assert(wanted.take(wanted.len() as int) =~= wanted);
    text::joined(&lines, "\n")
}

/// Something that is remembered.
#[derive(Debug, PartialEq, Eq)]
pub struct LongTermFact {
    pub id: i64,
    pub kind: String,
    pub importance: i64,
    pub created_at: String,
    pub content: String,
}

/// How a fact is shown.
pub open spec fn fact_line(fact: LongTermFact) -> Seq<char> {
    "[id="@ + text::decimal_int(fact.id as int) + " kind="@ + fact.kind@ + " importance="@
        + text::decimal_int(fact.importance as int) + " at="@ + fact.created_at@ + "] "@
        + fact.content@
}

/// How facts are shown.
pub open spec fn shown_facts(facts: Seq<LongTermFact>) -> Seq<char> {
    if facts.len() == 0 {
        "no long-term memories stored"@
    } else {
        text::decimal(facts.len()) + " memories:\n"@ + text::join(
            Seq::new(facts.len(), |i: int| fact_line(facts[i])),
            "\n"@,
        )
    }
}

/// How a fact is shown.
fn render_fact(fact: &LongTermFact) -> (r: String)
    ensures
        r@ == fact_line(*fact),
{
    let id = text::concat2("[id=", text::decimal_of_i64(fact.id).as_str());
    let kind = text::concat3(id.as_str(), " kind=", fact.kind.as_str());
    let importance = text::concat3(
        kind.as_str(),
        " importance=",
        text::decimal_of_i64(fact.importance).as_str(),
    );
    let at = text::concat3(importance.as_str(), " at=", fact.created_at.as_str());
    text::concat3(at.as_str(), "] ", fact.content.as_str())
}

/// How facts are shown.
pub fn render_facts(facts: &Vec<LongTermFact>) -> (r: String)
    ensures
        r@ == shown_facts(facts@),
{
    if facts.len() == 0 {
        return "no long-term memories stored".to_owned();
    }
    let ghost wanted = Seq::new(facts@.len(), |i: int| fact_line(facts@[i]));
    let mut lines: Vec<String> = Vec::new();
    let mut i: usize = 0;
    while i < facts.len()
        invariant
            i <= facts@.len(),
            wanted == Seq::new(facts@.len(), |i: int| fact_line(facts@[i])),
            text::views(lines@) =~= wanted.take(i as int),
        decreases facts@.len() - i,
    {
        let ghost before = text::views(lines@);
        let line = render_fact(&facts[i]);
        assert(line@ == wanted[i as int]);
        lines.push(line);
        assert(text::views(lines@) =~= before.push(wanted[i as int]));
        i = i + 1;
    }
    assert(wanted.take(wanted.len() as int) =~= wanted);
    let count = text::decimal_of(facts.len() as u64);
    text::concat3(count.as_str(), " memories:\n", text::joined(&lines, "\n").as_str())
}

/// The memorize tool.
#[derive(Debug, Clone, Copy, PartialEq, Eq, Structural)]
pub enum MemorizeTool {
    LongTermStore,
}

impl MemorizeTool {
    /// What the tool is called.
    pub fn name(&self) -> (r: &'static str)
        ensures
            r@ == "memorize"@,
    {
        "memorize"
    }

    /// What the tool is for.
    pub fn description(&self) -> (r: &'static str)
        ensures
            r@ == "Store a durable long-term fact that persists across sessions. Use this to remember user preferences, project context, or learned constraints. Semantically similar existing facts are updated in place rather than duplicated."@,
    {
        "Store a durable long-term fact that persists across sessions. Use this to remember user preferences, project context, or learned constraints. Semantically similar existing facts are updated in place rather than duplicated."
    }

    /// What arguments the tool takes.
    pub fn input_schema_json(&self) -> (r: &'static str)
        ensures
            r@ == "{\"type\":\"object\",\"properties\":{\"fact\":{\"type\":\"string\",\"description\":\"The fact to store, as a complete sentence.\"},\"kind\":{\"type\":\"string\",\"enum\":[\"general\",\"profile\",\"preferences\",\"project\",\"task\",\"constraint\"],\"description\":\"Category. Defaults to general.\"},\"importance\":{\"type\":\"integer\",\"minimum\":1,\"maximum\":5,\"description\":\"Priority from 1 (low) to 5 (critical). Defaults to 3.\"}},\"required\":[\"fact\"]}"@,
    {
        "{\"type\":\"object\",\"properties\":{\"fact\":{\"type\":\"string\",\"description\":\"The fact to store, as a complete sentence.\"},\"kind\":{\"type\":\"string\",\"enum\":[\"general\",\"profile\",\"preferences\",\"project\",\"task\",\"constraint\"],\"description\":\"Category. Defaults to general.\"},\"importance\":{\"type\":\"integer\",\"minimum\":1,\"maximum\":5,\"description\":\"Priority from 1 (low) to 5 (critical). Defaults to 3.\"}},\"required\":[\"fact\"]}"
    }

    /// What the tool answers.
    pub fn answer(&self, kind: &str, importance: u8, result: MemorizeResult) -> (r: String)
        requires
            result matches MemorizeResult::Updated { superseded_content } ==> can_preview(
                superseded_content@,
            ),
        ensures
            r@ == memorize_answer(kind@, importance, result),
    {
        let clamped: u8 = if importance < 1 {
            1
        } else if importance > 5 {
            5
        } else {
            importance
        };
        let head = text::concat3("(kind=", kind, ", importance=");
        let about = text::concat3(head.as_str(), text::decimal_of(clamped as u64).as_str(), ")");
        match result {
            MemorizeResult::Duplicate => text::concat2(
                "already memorized long-term fact ",
                about.as_str(),
            ),
            MemorizeResult::Updated { superseded_content } => {
                let said = text::concat3(
                    "updated existing long-term fact ",
                    about.as_str(),
                    "; superseded: \"",
                );
                let preview = preview_of(superseded_content.as_str());
                text::concat3(said.as_str(), preview.as_str(), "\"")
            },
            MemorizeResult::Inserted => text::concat2("memorized long-term fact ", about.as_str()),
        }
    }
}

/// What became of a fact that was to be remembered.
#[derive(Debug, PartialEq, Eq)]
pub enum MemorizeResult {
    Duplicate,
    Updated { superseded_content: String },
    Inserted,
}

/// How many bytes a character takes in UTF-8.
pub open spec fn char_bytes(c: char) -> int {
    if (c as u32) < 0x80 {
        1
    } else if (c as u32) < 0x800 {
        2
    } else if (c as u32) < 0x1_0000 {
        3
    } else {
        4
    }
}

/// How many bytes a text takes in UTF-8.
pub open spec fn byte_len(s: Seq<char>) -> int
    decreases s.len(),
{
    if s.len() == 0 {
        0
    } else {
        byte_len(s.drop_last()) + char_bytes(s.last())
    }
}

/// The characters that lie within the first bytes of a text.
pub open spec fn within_bytes(s: Seq<char>, bytes: int) -> Seq<char>
    decreases s.len(),
{
    if s.len() == 0 || byte_len(s) <= bytes {
        s
    } else {
        within_bytes(s.drop_last(), bytes)
    }
}

/// Whether a text can be cut to be shown: no character lies across the end of the first eighty
/// bytes.
pub open spec fn can_preview(s: Seq<char>) -> bool {
    byte_len(s) <= 80 || byte_len(within_bytes(s, 80)) == 80
}

/// The start of a text: its first eighty bytes.
pub open spec fn preview(s: Seq<char>) -> Seq<char> {
    if byte_len(s) > 80 {
        within_bytes(s, 80) + "…"@
    } else {
        s
    }
}

/// A text takes no more bytes than a longer one.
proof fn lemma_bytes_grow(s: Seq<char>, n: int)
    requires
        0 <= n <= s.len(),
    ensures
        byte_len(s.take(n)) <= byte_len(s),
        n < s.len() ==> byte_len(s.take(n)) < byte_len(s),
    decreases s.len(),
{
    if n == s.len() {
        assert(s.take(n) =~= s);
    } else {
        assert(s.drop_last().take(n) =~= s.take(n));
        lemma_bytes_grow(s.drop_last(), n);
    }
}

/// What lies within some bytes is the longest start that takes no more.
proof fn lemma_within_bytes(s: Seq<char>, n: int, bytes: int)
    requires
        0 <= n < s.len(),
        byte_len(s.take(n)) <= bytes,
        byte_len(s.take(n + 1)) > bytes,
    ensures
        within_bytes(s, bytes) == s.take(n),
    decreases s.len(),
{
    lemma_bytes_grow(s, n + 1);
    if n == s.len() - 1 {
        assert(s.drop_last() =~= s.take(n));
        reveal_with_fuel(within_bytes, 2);
    } else {
        assert(s.drop_last().take(n) =~= s.take(n));
        assert(s.drop_last().take(n + 1) =~= s.take(n + 1));
        lemma_within_bytes(s.drop_last(), n, bytes);
    }
}

/// The start of a text: its first eighty bytes.
pub fn preview_of(content: &str) -> (r: String)
    requires
        can_preview(content@),
    ensures
        r@ == preview(content@),
{
    let chars = text::chars_of(content);
    let mut used: u32 = 0;
    let mut i: usize = 0;
    assert(chars@.take(0) =~= Seq::<char>::empty());
    while i < chars.len()
        invariant
            i <= chars@.len(),
            chars@ == content@,
            used == byte_len(chars@.take(i as int)),
            used <= 80,
        decreases chars@.len() - i,
    {
        let c = chars[i];
        let width: u32 = if (c as u32) < 0x80 {
            1
        } else if (c as u32) < 0x800 {
            2
        } else if (c as u32) < 0x1_0000 {
            3
        } else {
            4
        };
        proof {
            assert(chars@.take(i + 1).drop_last() =~= chars@.take(i as int));
            assert(chars@.take(i + 1).last() == c);
        }
        if used + width > 80 {
            proof {
                lemma_within_bytes(chars@, i as int, 80);
                lemma_bytes_grow(chars@, i + 1);
                assert(chars@.subrange(0, i as int) =~= chars@.take(i as int));
            }
            let start = text::string_of_range(&chars, 0, i);
            return text::concat2(start.as_str(), "…");
        }
        used = used + width;
        i = i + 1;
    }
    assert(chars@.take(chars@.len() as int) =~= chars@);
    content.to_owned()
}

/// An importance between one and five.
pub open spec fn clamped(importance: u8) -> u8 {
    if importance < 1 {
        1
    } else if importance > 5 {
        5
    } else {
        importance
    }
}

/// What the memorize tool answers.
pub open spec fn memorize_answer(kind: Seq<char>, importance: u8, result: MemorizeResult) -> Seq<
    char,
> {
    let about = "(kind="@ + kind + ", importance="@ + text::decimal(clamped(importance) as nat)
        + ")"@;
    match result {
        MemorizeResult::Duplicate => "already memorized long-term fact "@ + about,
        MemorizeResult::Updated { superseded_content } => "updated existing long-term fact "@
            + about + "; superseded: \""@ + preview(superseded_content@) + "\""@,
        MemorizeResult::Inserted => "memorized long-term fact "@ + about,
    }
}

/// The forget tool.
#[derive(Debug, Clone, Copy, PartialEq, Eq, Structural)]
pub enum ForgetTool {
    LongTermSemanticPrune,
}

/// A fact that matches what is to be forgotten.
#[derive(Debug)]
pub struct ForgetMatch {
    pub id: i64,
    pub kind: String,
    pub importance: i64,
    pub similarity: Json,
    pub content: String,
}

/// What was found to forget, and what was forgotten.
#[derive(Debug)]
pub struct ForgetResult {
    pub similarity_threshold: Json,
    pub max_matches: usize,
    pub kind_filter: Option<String>,
    pub deleted_count: usize,
    pub matches: Vec<ForgetMatch>,
}

/// A text cut where it is too long, with a note.
pub open spec fn short(value: Seq<char>, max_chars: int) -> Seq<char> {
    text::clip_marked(value, max_chars, "...[truncated]"@)
}

/// A text cut where it is too long, with a note.
pub fn truncate_preview(value: &str, max_chars: usize) -> (r: String)
    ensures
        r@ == short(value@, max_chars as int),
{
    text::clipped_marked(value, max_chars, "...[truncated]")
}

/// A match as a document.
pub open spec fn match_json(found: ForgetMatch) -> JsonView {
    JsonView::Object(
        map![
            "id"@ => JsonView::Number(json::integer_number(found.id as int)),
            "kind"@ => JsonView::Str(found.kind@),
            "importance"@ => JsonView::Number(json::integer_number(found.importance as int)),
            "similarity"@ => found.similarity@,
            "content_preview"@ => JsonView::Str(short(found.content@, 180)),
        ],
    )
}

/// Matches as documents.
pub open spec fn matches_json(matches: Seq<ForgetMatch>) -> Seq<JsonView> {
    Seq::new(matches.len(), |i: int| match_json(matches[i]))
}

/// Whether the numbers in a result are documents.
pub open spec fn result_wf(result: ForgetResult) -> bool {
    &&& result.similarity_threshold.wf()
    &&& forall|i: int|
        0 <= i < result.matches@.len() ==> (#[trigger] result.matches@[i]).similarity.wf()
}

/// What the forget tool answers.
pub open spec fn forget_answer(commit: bool, query: Seq<char>, result: ForgetResult) -> JsonView {
    JsonView::Object(
        map![
            "status"@ => JsonView::Str(
                if commit {
                    "deleted"@
                } else {
                    "preview"@
                },
            ),
            "query"@ => JsonView::Str(query),
            "similarity_threshold"@ => result.similarity_threshold@,
            "max_matches"@ => JsonView::Number(json::integer_number(result.max_matches as int)),
            "kind"@ => json::opt_text_json(text::opt_view(result.kind_filter)),
            "match_count"@ => JsonView::Number(
                json::integer_number(result.matches@.len() as int),
            ),
            "deleted_count"@ => JsonView::Number(json::integer_number(result.deleted_count as int)),
            "matches"@ => JsonView::Array(matches_json(result.matches@)),
        ],
    )
}

impl ForgetTool {
    /// What the tool is called.
    pub fn name(&self) -> (r: &'static str)
        ensures
            r@ == "forget"@,
    {
        "forget"
    }

    /// What the tool is for.
    pub fn description(&self) -> (r: &'static str)
        ensures
            r@ == "Remove long-term facts by semantic similarity. Call with commit=false (default) to preview matches without deleting. Call with commit=true to permanently delete."@,
    {
        "Remove long-term facts by semantic similarity. Call with commit=false (default) to preview matches without deleting. Call with commit=true to permanently delete."
    }

    /// What arguments the tool takes.
    pub fn input_schema_json(&self) -> (r: &'static str)
        ensures
            r@ == "{\"type\":\"object\",\"properties\":{\"query\":{\"type\":\"string\",\"description\":\"Natural-language query used to find matching long-term facts.\"},\"commit\":{\"type\":\"boolean\",\"description\":\"Set true to permanently delete matches. Defaults to false for preview mode.\"},\"similarity_threshold\":{\"type\":\"number\",\"minimum\":0,\"maximum\":1,\"description\":\"Minimum semantic similarity required to match a fact.\"},\"max_matches\":{\"type\":\"integer\",\"minimum\":1,\"maximum\":50,\"description\":\"Maximum number of matching facts to return or delete.\"},\"kind\":{\"type\":\"string\",\"enum\":[\"general\",\"profile\",\"preferences\",\"project\",\"task\",\"constraint\"],\"description\":\"Restrict matching to a specific fact category.\"}},\"required\":[\"query\"]}"@,
    {
        "{\"type\":\"object\",\"properties\":{\"query\":{\"type\":\"string\",\"description\":\"Natural-language query used to find matching long-term facts.\"},\"commit\":{\"type\":\"boolean\",\"description\":\"Set true to permanently delete matches. Defaults to false for preview mode.\"},\"similarity_threshold\":{\"type\":\"number\",\"minimum\":0,\"maximum\":1,\"description\":\"Minimum semantic similarity required to match a fact.\"},\"max_matches\":{\"type\":\"integer\",\"minimum\":1,\"maximum\":50,\"description\":\"Maximum number of matching facts to return or delete.\"},\"kind\":{\"type\":\"string\",\"enum\":[\"general\",\"profile\",\"preferences\",\"project\",\"task\",\"constraint\"],\"description\":\"Restrict matching to a specific fact category.\"}},\"required\":[\"query\"]}"
    }

    /// What the tool answers.
    #[verifier::rlimit(60)]
    pub fn answer(&self, commit: bool, query: &str, result: &ForgetResult) -> (r: Json)
        requires
            result_wf(*result),
        ensures
            r.wf(),
            r@ == forget_answer(commit, query@, *result),
    {
        let ghost wanted = matches_json(result.matches@);
        let mut matches: Vec<Json> = Vec::new();
        let mut i: usize = 0;
        assert(json::items_view(matches@) =~= wanted.take(0));
        while i < result.matches.len()
            invariant
                i <= result.matches@.len(),
                result_wf(*result),
                wanted == matches_json(result.matches@),
                json::all_wf(matches@),
                json::items_view(matches@) == wanted.take(i as int),
            decreases result.matches@.len() - i,
        {
            json::push_item(&mut matches, shown_match(&result.matches[i]));
            assert(wanted.take(i + 1) =~= wanted.take(i as int).push(wanted[i as int]));
            i = i + 1;
        }
        assert(wanted.take(wanted.len() as int) =~= wanted);
        let status = if commit {
            "deleted"
        } else {
            "preview"
        };
        Json::object().with("status", Json::text(status)).with("query", Json::text(query)).with(
            "similarity_threshold",
            result.similarity_threshold.clone(),
        ).with("max_matches", Json::unsigned(result.max_matches as u64)).with(
            "kind",
            Json::text_or_null(&result.kind_filter),
        ).with("match_count", Json::unsigned(result.matches.len() as u64)).with(
            "deleted_count",
            Json::unsigned(result.deleted_count as u64),
        ).with("matches", Json::array(matches))
    }
}

/// A match as a document.
#[verifier::rlimit(60)]
fn shown_match(found: &ForgetMatch) -> (r: Json)
    requires
        found.similarity.wf(),
    ensures
        r.wf(),
        r@ == match_json(*found),
{
    Json::object().with("id", Json::signed(found.id)).with(
        "kind",
        Json::text(found.kind.as_str()),
    ).with("importance", Json::signed(found.importance)).with(
        "similarity",
        found.similarity.clone(),
    ).with("content_preview", Json::text(truncate_preview(found.content.as_str(), 180).as_str()))
}

/// As many memories are recalled as are asked for, but no more than allowed; asking for none is
/// refused.
pub proof fn law_as_many_are_recalled_as_asked(config: MemoryToolConfig, asked: usize)
    ensures
        asked > 0 && (config.max_top_k is None || asked <= config.max_top_k->0) ==> top_k_of(
            config,
            Some(asked),
        ) == Ok::<usize, ErrorView>(asked),
        config.max_top_k is Some && 0 < config.max_top_k->0 < asked ==> top_k_of(config, Some(asked))
            == Ok::<usize, ErrorView>(config.max_top_k->0 as usize),
        asked == 0 ==> top_k_of(config, Some(asked)) is Err,
        config.default_top_k is Some ==> top_k_of(config, None) == top_k_of(
            config,
            Some(config.default_top_k->0 as usize),
        ),
        config.default_top_k is None ==> top_k_of(config, None) == top_k_of(config, Some(5usize)),
{
}

/// Every memory is shown, numbered from one, in its order.
pub proof fn law_every_memory_is_shown(hits: Seq<Seq<char>>, i: int)
    requires
        0 <= i < hits.len(),
    ensures
        shown_hits(hits) == text::join(numbered(hits), "\n"@),
        numbered(hits).len() == hits.len(),
        numbered(hits)[i] == text::decimal((i + 1) as nat) + ". "@ + hits[i],
{
}

/// Every fact is shown with all that is known of it, behind how many there are.
pub proof fn law_every_fact_is_shown(facts: Seq<LongTermFact>, i: int)
    requires
        0 <= i < facts.len(),
    ensures
        exists|lines: Seq<Seq<char>>|
            {
                &&& #[trigger] text::join(lines, "\n"@) == text::join(lines, "\n"@)
                &&& shown_facts(facts) == text::decimal(facts.len()) + " memories:\n"@
                    + text::join(lines, "\n"@)
                &&& lines.len() == facts.len()
                &&& lines[i] == "[id="@ + text::decimal_int(facts[i].id as int) + " kind="@
                    + facts[i].kind@ + " importance="@ + text::decimal_int(
                    facts[i].importance as int,
                ) + " at="@ + facts[i].created_at@ + "] "@ + facts[i].content@
            },
{
    let lines = Seq::new(facts.len(), |k: int| fact_line(facts[k]));
    assert(shown_facts(facts) == text::decimal(facts.len()) + " memories:\n"@ + text::join(
        lines,
        "\n"@,
    ));
}

/// The importance lies between one and five, and stays as it is where it does.
pub proof fn law_importance_lies_between_one_and_five(importance: u8)
    ensures
        1 <= clamped(importance) <= 5,
        1 <= importance <= 5 ==> clamped(importance) == importance,
        importance > 5 ==> clamped(importance) == 5,
        importance < 1 ==> clamped(importance) == 1,
{
}

/// A preview is the start of the text, as much of it as eighty bytes hold, and a text that short is
/// its own preview.
pub proof fn law_previews_are_the_start(s: Seq<char>)
    ensures
        byte_len(s) <= 80 ==> preview(s) == s,
        byte_len(s) > 80 ==> preview(s) == within_bytes(s, 80) + "…"@,
        within_bytes(s, 80).is_prefix_of(s),
        byte_len(within_bytes(s, 80)) <= 80,
{
    lemma_within(s, 80);
}

/// The start of a text that a number of bytes holds.
proof fn lemma_within(s: Seq<char>, bytes: int)
    requires
        0 <= bytes,
    ensures
        within_bytes(s, bytes).is_prefix_of(s),
        byte_len(within_bytes(s, bytes)) <= bytes,
    decreases s.len(),
{
    if s.len() > 0 && byte_len(s) > bytes {
        lemma_within(s.drop_last(), bytes);
    }
}

/// The answer names what became of the fact, its kind and its importance.
pub proof fn law_answers_tell_what_became_of_the_fact(kind: Seq<char>, importance: u8, old: String)
    requires
        1 <= importance <= 5,
    ensures
        ({
            let about = "(kind="@ + kind + ", importance="@ + text::decimal(importance as nat)
                + ")"@;
            &&& memorize_answer(kind, importance, MemorizeResult::Inserted)
                == "memorized long-term fact "@ + about
            &&& memorize_answer(kind, importance, MemorizeResult::Duplicate)
                == "already memorized long-term fact "@ + about
            &&& byte_len(old@) <= 80 ==> memorize_answer(
                kind,
                importance,
                MemorizeResult::Updated { superseded_content: old },
            ) == "updated existing long-term fact "@ + about + "; superseded: \""@ + old@ + "\""@
        }),
{
}

/// The answer to forgetting tells whether the facts are gone, and each of them.
#[verifier::rlimit(60)]
pub proof fn law_forgotten_facts_are_told(
    commit: bool,
    query: Seq<char>,
    result: ForgetResult,
    i: int,
)
    requires
        0 <= i < result.matches@.len(),
    ensures
        ({
            let answer = forget_answer(commit, query, result);
            &&& answer.text_at("status"@) == Some(
                if commit {
                    "deleted"@
                } else {
                    "preview"@
                },
            )
            &&& answer.text_at("query"@) == Some(query)
            &&& answer.array_at("matches"@) is Some
            &&& answer.array_at("matches"@)->0.len() == result.matches@.len()
            &&& answer.array_at("matches"@)->0[i].text_at("kind"@) == Some(
                result.matches@[i].kind@,
            )
            &&& result.matches@[i].content@.len() <= 180 ==> answer.array_at(
                "matches"@,
            )->0[i].text_at("content_preview"@) == Some(result.matches@[i].content@)
        }),
{
    reveal_strlit("status");
    reveal_strlit("query");
    reveal_strlit("similarity_threshold");
    reveal_strlit("max_matches");
    reveal_strlit("kind");
    reveal_strlit("match_count");
    reveal_strlit("deleted_count");
    reveal_strlit("matches");
    reveal_strlit("id");
    reveal_strlit("importance");
    reveal_strlit("similarity");
    reveal_strlit("content_preview");
    assert("status"@.len() == 6);
    assert("query"@.len() == 5);
    assert("similarity_threshold"@.len() == 20);
    assert("max_matches"@.len() == 11 && "max_matches"@[3] == '_');
    assert("kind"@.len() == 4);
    assert("match_count"@.len() == 11 && "match_count"@[3] == 'c');
    assert("deleted_count"@.len() == 13);
    assert("matches"@.len() == 7);
    assert("id"@.len() == 2);
    assert("importance"@.len() == 10 && "importance"@[0] == 'i');
    assert("similarity"@.len() == 10 && "similarity"@[0] == 's');
    assert("content_preview"@.len() == 15);
}

/// A character takes as many bytes as its encoding.
pub proof fn law_characters_take_the_bytes_of_their_encoding(c: char, s: Seq<char>)
    ensures
        char_bytes(c) == vstd::utf8::encode_scalar(c as u32).len(),
        byte_len(s.push(c)) == byte_len(s) + vstd::utf8::encode_scalar(c as u32).len(),
        byte_len(Seq::empty()) == 0,
{
    vstd::utf8::char_is_scalar(c);
    assert(s.push(c).drop_last() =~= s);
}

} // verus!
