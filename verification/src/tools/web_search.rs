//! The web search tool: what a search service answers.
use vstd::prelude::*;
use crate::error::{ErrorView, FrameworkError};
use crate::error;
use crate::json::{Json, JsonView};
use crate::json;
use crate::text;
use crate::tools::common::parse_simple_text_arg;
use crate::tools::common;

verus! {

/// How many results a search returns at most.
pub const MAX_RESULTS: usize = 5;

/// Where the Brave service is asked.
pub const BRAVE_SEARCH_URL: &'static str = "https://api.search.brave.com/res/v1/web/search";

/// Where the DuckDuckGo service is asked.
pub const DUCKDUCKGO_SEARCH_URL: &'static str = "https://api.duckduckgo.com/";

/// The services that can be asked.
#[derive(Debug, Clone, Copy, PartialEq, Eq, Structural)]
pub enum WebSearchProvider {
    Brave,
    Duckduckgo,
}

/// A service that is asked, with the key for it where it wants one.
#[derive(Debug, PartialEq, Eq)]
pub enum SearchService {
    Brave { api_key: String },
    Duckduckgo,
}

/// The settings of the tool.
#[derive(Debug, PartialEq, Eq)]
pub struct WebSearchToolRuntimeConfig {
    pub provider: WebSearchProvider,
    pub api_key: Option<String>,
    pub timeout_seconds: Option<u64>,
}

/// The web search tool, with its settings.
#[derive(Debug, PartialEq, Eq)]
pub struct WebSearchTool {
    pub config: WebSearchToolRuntimeConfig,
}

impl WebSearchTool {
    /// What the tool is called.
    pub fn name(&self) -> (r: &'static str)
        ensures
            r@ == "web_search"@,
    {
        "web_search"
    }

    /// What the tool is for.
    pub fn description(&self) -> (r: &'static str)
        ensures
            r@ == "Web search using configured provider and JSON: {query}"@,
    {
        "Web search using configured provider and JSON: {query}"
    }

    /// What arguments the tool takes.
    pub fn input_schema_json(&self) -> (r: &'static str)
        ensures
            r@ == "{\"type\":\"object\",\"properties\":{\"query\":{\"type\":\"string\"}},\"required\":[\"query\"]}"@,
    {
        "{\"type\":\"object\",\"properties\":{\"query\":{\"type\":\"string\"}},\"required\":[\"query\"]}"
    }

    /// The words that are searched for.
    pub fn query(&self, args_json: &str) -> (r: Result<String, FrameworkError>)
        ensures
            error::text_result(r) == asked(
                common::simple_text(common::document_of(args_json@), args_json@),
            ),
    {
        let given = parse_simple_text_arg(args_json);
        checked_query(given.as_str())
    }

    /// How many seconds a search may take.
    pub fn timeout_seconds(&self) -> (r: u64)
        ensures
            r == match self.config.timeout_seconds {
                Some(seconds) => seconds,
                None => 20,
            },
    {
        match self.config.timeout_seconds {
            Some(seconds) => seconds,
            None => 20,
        }
    }

    /// The service that is asked, with the key for it where it wants one.
    pub fn service(&self) -> (r: Result<SearchService, FrameworkError>)
        ensures
            match r {
                Ok(SearchService::Brave { api_key }) => Ok::<Option<Seq<char>>, ErrorView>(
                    Some(api_key@),
                ),
                Ok(SearchService::Duckduckgo) => Ok(None),
                Err(error) => Err(error@),
            } == service_of(self.config.provider, text::opt_view(self.config.api_key)),
    {
        match self.config.provider {
            WebSearchProvider::Duckduckgo => Ok(SearchService::Duckduckgo),
            WebSearchProvider::Brave => {
                if let Some(api_key) = &self.config.api_key {
                    let api_key = text::trimmed(api_key.as_str());
                    if !api_key.as_str().is_empty() {
                        return Ok(SearchService::Brave { api_key });
                    }
                }
                Err(
                    error::tool_error(
                        "search is misconfigured: api_key is required for provider=brave",
                    ),
                )
            },
        }
    }
}

/// The words that are searched for: there must be some.
pub open spec fn asked(given: Seq<char>) -> Result<Seq<char>, ErrorView> {
    if text::trim(given).len() == 0 {
        Err(ErrorView::Tool("search requires a non-empty query"@))
    } else {
        Ok(text::trim(given))
    }
}

/// The words that are searched for: there must be some.
pub fn checked_query(given: &str) -> (r: Result<String, FrameworkError>)
    ensures
        error::text_result(r) == asked(given@),
{
    let query = text::trimmed(given);
    if query.as_str().is_empty() {
        return Err(error::tool_error("search requires a non-empty query"));
    }
    Ok(query)
}

/// The key for the service that is asked, where it wants one.
pub open spec fn service_of(provider: WebSearchProvider, api_key: Option<Seq<char>>) -> Result<
    Option<Seq<char>>,
    ErrorView,
> {
    match provider {
        WebSearchProvider::Duckduckgo => Ok(None),
        WebSearchProvider::Brave => match api_key {
            Some(api_key) if text::trim(api_key).len() > 0 => Ok(Some(text::trim(api_key))),
            _ => Err(
                ErrorView::Tool(
                    "search is misconfigured: api_key is required for provider=brave"@,
                ),
            ),
        },
    }
}

/// Something that was found.
#[derive(Debug, PartialEq, Eq)]
pub struct WebSearchResult {
    pub title: String,
    pub url: String,
    pub description: String,
    pub age: Option<String>,
}

/// Something that was found, as it reads.
#[verifier::ext_equal]
pub struct HitView {
    pub title: Seq<char>,
    pub url: Seq<char>,
    pub description: Seq<char>,
    pub age: Option<Seq<char>>,
}

impl View for WebSearchResult {
    type V = HitView;

    open spec fn view(&self) -> HitView {
        HitView {
            title: self.title@,
            url: self.url@,
            description: self.description@,
            age: text::opt_view(self.age),
        }
    }
}

/// Things that were found, as they read.
pub open spec fn hits(results: Seq<WebSearchResult>) -> Seq<HitView> {
    Seq::new(results.len(), |i: int| results[i]@)
}

/// What a search answers.
#[derive(Debug, PartialEq, Eq)]
pub struct WebSearchOutput {
    pub provider: String,
    pub query: String,
    pub total_results_returned: usize,
    pub results: Vec<WebSearchResult>,
}

impl WebSearchOutput {
    /// Whether the answer comes from a service, to some words, with some results.
    pub open spec fn tells(self, provider: Seq<char>, query: Seq<char>, found: Seq<HitView>) -> bool {
        &&& self.provider@ == provider
        &&& self.query@ == query
        &&& self.total_results_returned == found.len()
        &&& hits(self.results@) == found
    }
}

/// A result as a document; its age is left out where there is none.
pub open spec fn hit_document(hit: HitView) -> JsonView {
    let known = JsonView::Object(
        map![
            "title"@ => JsonView::Str(hit.title),
            "url"@ => JsonView::Str(hit.url),
            "description"@ => JsonView::Str(hit.description),
        ],
    );
    match hit.age {
        Some(age) => json::set_member(known, "age"@, JsonView::Str(age)),
        None => known,
    }
}

/// What a search answers, as a document.
pub open spec fn search_document(
    provider: Seq<char>,
    query: Seq<char>,
    total: int,
    found: Seq<HitView>,
) -> JsonView {
    JsonView::Object(
        map![
            "provider"@ => JsonView::Str(provider),
            "query"@ => JsonView::Str(query),
            "total_results_returned"@ => JsonView::Number(json::integer_number(total)),
            "results"@ => JsonView::Array(
                Seq::new(found.len(), |i: int| hit_document(found[i])),
            ),
        ],
    )
}

/// A member of an object in a text, with the text before it.
pub open spec fn text_member(before: Seq<char>, value: Seq<char>) -> Seq<char> {
    before + json::rendered_json(JsonView::Str(value))
}

/// A result as a text: its members in the order that they have.
pub open spec fn hit_text(hit: HitView) -> Seq<char> {
    let known = text_member("{\"title\":"@, hit.title) + text_member(",\"url\":"@, hit.url)
        + text_member(",\"description\":"@, hit.description);
    (match hit.age {
        Some(age) => known + text_member(",\"age\":"@, age),
        None => known,
    }) + "}"@
}

/// What a search answers, as a text: the members in the order that they have.
pub open spec fn search_text(
    provider: Seq<char>,
    query: Seq<char>,
    total: nat,
    found: Seq<HitView>,
) -> Seq<char> {
    text_member("{\"provider\":"@, provider) + text_member(",\"query\":"@, query)
        + ",\"total_results_returned\":"@ + text::decimal(total) + ",\"results\":["@
        + text::join(Seq::new(found.len(), |i: int| hit_text(found[i])), ","@) + "]}"@
}

/// A member of an object in a text.
fn member_text(before: &str, value: &str) -> (r: String)
    ensures
        r@ == text_member(before@, value@),
{
    text::concat2(before, Json::text(value).render().as_str())
}

impl WebSearchResult {
    /// The result as a document.
    pub fn document(&self) -> (r: Json)
        ensures
            r@ == hit_document(self@),
            r.wf(),
    {
        let known = Json::object().with("title", Json::text(self.title.as_str())).with(
            "url",
            Json::text(self.url.as_str()),
        ).with("description", Json::text(self.description.as_str()));
        assert(known@->Object_0 =~= map![
            "title"@ => JsonView::Str(self.title@),
            "url"@ => JsonView::Str(self.url@),
            "description"@ => JsonView::Str(self.description@),
        ]);
        match &self.age {
            Some(age) => known.with("age", Json::text(age.as_str())),
            None => known,
        }
    }

    /// The result as a text.
    pub fn render(&self) -> (r: String)
        ensures
            r@ == hit_text(self@),
    {
        let title = member_text("{\"title\":", self.title.as_str());
        let url = member_text(",\"url\":", self.url.as_str());
        let description = member_text(",\"description\":", self.description.as_str());
        let known = text::concat3(title.as_str(), url.as_str(), description.as_str());
        match &self.age {
            Some(age) => {
                let told = member_text(",\"age\":", age.as_str());
                text::concat3(known.as_str(), told.as_str(), "}")
            },
            None => text::concat2(known.as_str(), "}"),
        }
    }
}

impl WebSearchOutput {
    /// What the search answers, as a document.
    pub fn document(&self) -> (r: Json)
        ensures
            r@ == search_document(
                self.provider@,
                self.query@,
                self.total_results_returned as int,
                hits(self.results@),
            ),
            r.wf(),
    {
        let ghost found = hits(self.results@);
        let ghost wanted = Seq::new(found.len(), |i: int| hit_document(found[i]));
        let mut items: Vec<Json> = Vec::new();
        let mut i: usize = 0;
        assert(json::items_view(items@) =~= wanted.take(0));
        while i < self.results.len()
            invariant
                i <= self.results@.len(),
                found == hits(self.results@),
                wanted == Seq::new(found.len(), |k: int| hit_document(found[k])),
                json::items_view(items@) == wanted.take(i as int),
                json::all_wf(items@),
            decreases self.results@.len() - i,
        {
            let item = self.results[i].document();
            json::push_item(&mut items, item);
            i = i + 1;
            assert(wanted.take(i as int) =~= wanted.take(i - 1).push(wanted[i - 1]));
        }
        assert(wanted.take(i as int) =~= wanted);
        let r = Json::object().with("provider", Json::text(self.provider.as_str())).with(
            "query",
            Json::text(self.query.as_str()),
        ).with(
            "total_results_returned",
            Json::unsigned(self.total_results_returned as u64),
        ).with("results", Json::array(items));
        assert(r@->Object_0 =~= search_document(
            self.provider@,
            self.query@,
            self.total_results_returned as int,
            found,
        )->Object_0);
        r
    }

    /// What the search answers, as a text.
    pub fn render(&self) -> (r: String)
        ensures
            r@ == search_text(
                self.provider@,
                self.query@,
                self.total_results_returned as nat,
                hits(self.results@),
            ),
    {
        let ghost found = hits(self.results@);
        let ghost wanted = Seq::new(found.len(), |i: int| hit_text(found[i]));
        let mut items: Vec<String> = Vec::new();
        let mut i: usize = 0;
        assert(text::views(items@) =~= wanted.take(0));
        while i < self.results.len()
            invariant
                i <= self.results@.len(),
                found == hits(self.results@),
                wanted == Seq::new(found.len(), |k: int| hit_text(found[k])),
                text::views(items@) == wanted.take(i as int),
            decreases self.results@.len() - i,
        {
            let ghost before = text::views(items@);
            items.push(self.results[i].render());
            i = i + 1;
            assert(text::views(items@) =~= before.push(wanted[i - 1]));
            assert(wanted.take(i as int) =~= wanted.take(i - 1).push(wanted[i - 1]));
        }
        assert(wanted.take(i as int) =~= wanted);
        let provider = member_text("{\"provider\":", self.provider.as_str());
        let query = member_text(",\"query\":", self.query.as_str());
        let total = text::decimal_of(self.total_results_returned as u64);
        let head = text::concat3(
            provider.as_str(),
            query.as_str(),
            ",\"total_results_returned\":",
        );
        let counted = text::concat3(head.as_str(), total.as_str(), ",\"results\":[");
        text::concat3(counted.as_str(), text::joined(&items, ",").as_str(), "]}")
    }
}

/// A result as the Brave service gives it.
#[derive(Debug, PartialEq, Eq)]
pub struct BraveWebResult {
    pub title: String,
    pub url: String,
    pub description: String,
    pub age: Option<String>,
    pub page_age: Option<String>,
}

/// A text that says something, without the space around it.
pub open spec fn filled(value: Option<Seq<char>>) -> Option<Seq<char>> {
    match value {
        Some(value) if text::trim(value).len() > 0 => Some(text::trim(value)),
        _ => None,
    }
}

/// A text that says something, without the space around it.
fn filled_text(value: &Option<String>) -> (r: Option<String>)
    ensures
        text::opt_view(r) == filled(text::opt_view(*value)),
{
    match value {
        Some(value) => {
            let value = text::trimmed(value.as_str());
            if value.as_str().is_empty() {
                None
            } else {
                Some(value)
            }
        },
        None => None,
    }
}

/// The first results that lead somewhere: five at most.
pub open spec fn brave_hits(results: Seq<BraveWebResult>) -> Seq<HitView>
    decreases results.len(),
{
    if results.len() == 0 {
        Seq::empty()
    } else {
        let before = brave_hits(results.drop_last());
        let result = results.last();
        if before.len() >= MAX_RESULTS || text::trim(result.url@).len() == 0 {
            before
        } else {
            before.push(
                HitView {
                    title: text::trim(result.title@),
                    url: text::trim(result.url@),
                    description: text::trim(result.description@),
                    age: filled(
                        common::first_of(
                            text::opt_view(result.age),
                            text::opt_view(result.page_age),
                        ),
                    ),
                },
            )
        }
    }
}

/// What a search with the Brave service answers.
pub fn map_brave_results(query: &str, results: &Vec<BraveWebResult>) -> (r: WebSearchOutput)
    ensures
        r.tells("brave"@, query@, brave_hits(results@)),
{
    let mut mapped: Vec<WebSearchResult> = Vec::new();
    let mut i: usize = 0;
    assert(results@.take(0) =~= Seq::<BraveWebResult>::empty());
    assert(hits(mapped@) =~= Seq::<HitView>::empty());
    while i < results.len()
        invariant
            i <= results@.len(),
            hits(mapped@) == brave_hits(results@.take(i as int)),
        decreases results@.len() - i,
    {
        let ghost before = hits(mapped@);
        proof {
            assert(results@.take(i + 1).drop_last() =~= results@.take(i as int));
            assert(results@.take(i + 1).last() == results@[i as int]);
        }
        let url = text::trimmed(results[i].url.as_str());
        if mapped.len() < MAX_RESULTS && !url.as_str().is_empty() {
            let age = if results[i].age.is_some() {
                filled_text(&results[i].age)
            } else {
                filled_text(&results[i].page_age)
            };
            let found = WebSearchResult {
                title: text::trimmed(results[i].title.as_str()),
                url,
                description: text::trimmed(results[i].description.as_str()),
                age,
            };
            let ghost added = found@;
            mapped.push(found);
            assert(hits(mapped@) =~= before.push(added));
        }
        i = i + 1;
    }
    assert(results@.take(results@.len() as int) =~= results@);
    WebSearchOutput {
        provider: "brave".to_owned(),
        query: query.to_owned(),
        total_results_returned: mapped.len(),
        results: mapped,
    }
}

/// Whether a result is known already: one with the same address or the same description is.
pub open spec fn known(results: Seq<HitView>, url: Seq<char>, description: Seq<char>) -> bool {
    exists|i: int|
        0 <= i < results.len() && ((url.len() > 0 && (#[trigger] results[i]).url == url) || (
        description.len() > 0 && results[i].description == description))
}

/// The results with one more, where it is new and there are fewer than five.
pub open spec fn pushed(results: Seq<HitView>, candidate: HitView) -> Seq<HitView> {
    let url = text::trim(candidate.url);
    let description = text::trim(candidate.description);
    if results.len() >= MAX_RESULTS || known(results, url, description) {
        results
    } else {
        results.push(
            HitView {
                title: text::trim(candidate.title),
                url,
                description,
                age: filled(candidate.age),
            },
        )
    }
}

/// Adds a result, where it is new and there are fewer than five.
pub fn push_result(results: &mut Vec<WebSearchResult>, candidate: WebSearchResult)
    ensures
        hits(final(results)@) == pushed(hits(old(results)@), candidate@),
{
    let ghost before = hits(results@);
    if results.len() >= MAX_RESULTS {
        return;
    }
    let url = text::trimmed(candidate.url.as_str());
    let description = text::trimmed(candidate.description.as_str());
    let mut i: usize = 0;
    while i < results.len()
        invariant
            i <= results@.len(),
            *results == *old(results),
            before == hits(old(results)@),
            before.len() < MAX_RESULTS,
            url@ == text::trim(candidate.url@),
            description@ == text::trim(candidate.description@),
            forall|k: int|
                0 <= k < i ==> !((url@.len() > 0 && (#[trigger] before[k]).url == url@) || (
                description@.len() > 0 && before[k].description == description@)),
        decreases results@.len() - i,
    {
        assert(before[i as int] == results@[i as int]@);
        if !url.as_str().is_empty() && text::same_text(results[i].url.as_str(), url.as_str()) {
            return;
        }
        if !description.as_str().is_empty() && text::same_text(
            results[i].description.as_str(),
            description.as_str(),
        ) {
            return;
        }
        i = i + 1;
    }
    let found = WebSearchResult {
        title: text::trimmed(candidate.title.as_str()),
        url,
        description,
        age: filled_text(&candidate.age),
    };
    let ghost added = found@;
    results.push(found);
    assert(hits(results@) =~= before.push(added));
}

/// A title and a description: what stands before and behind a dash, or else the whole text twice.
pub open spec fn titled(given: Seq<char>) -> (Seq<char>, Seq<char>) {
    let trimmed = text::trim(given);
    match text::find_from(trimmed, " - "@, 0) {
        Some(at) => (text::trim(trimmed.take(at)), text::trim(trimmed.skip(at + " - "@.len()))),
        None => (trimmed, trimmed),
    }
}

/// A title and a description: what stands before and behind a dash, or else the whole text twice.
pub fn parse_duckduckgo_text(given: &str) -> (r: (String, String))
    ensures
        (r.0@, r.1@) == titled(given@),
{
    let trimmed = text::trimmed(given);
    let chars = text::chars_of(trimmed.as_str());
    let dash = text::chars_of(" - ");
    proof {
        text::lemma_find(chars@, dash@, 0);
    }
    match text::position(&chars, &dash, 0) {
        Some(at) => {
            let title = text::string_of_range(&chars, 0, at);
            let description = text::string_of_range(&chars, at + dash.len(), chars.len());
            proof {
                assert(chars@.subrange(0, at as int) =~= chars@.take(at as int));
                assert(chars@.subrange(at + dash@.len(), chars@.len() as int) =~= chars@.skip(
                    at + dash@.len(),
                ));
            }
            (text::trimmed(title.as_str()), text::trimmed(description.as_str()))
        },
        None => (trimmed.clone(), trimmed),
    }
}

/// A text under a name, or nothing.
pub open spec fn text_or_none(value: JsonView, key: Seq<char>) -> Seq<char> {
    match value.text_at(key) {
        Some(found) => found,
        None => Seq::empty(),
    }
}

/// A text under a name, or nothing.
fn text_or_empty<'a>(value: &'a Json, key: &str) -> (r: &'a str)
    requires
        value.wf(),
    ensures
        r@ == text_or_none(value@, key@),
{
    match value.text_at(key) {
        Some(found) => found,
        None => {
            proof {
                reveal_strlit("");
                assert(""@ =~= Seq::<char>::empty());
            }
            ""
        },
    }
}

/// The results with the one that an item tells of.
pub open spec fn with_item(results: Seq<HitView>, item: JsonView) -> Seq<HitView> {
    match item.text_at("Text"@) {
        Some(told) => pushed(
            results,
            HitView {
                title: titled(told).0,
                url: text_or_none(item, "FirstURL"@),
                description: titled(told).1,
                age: None,
            },
        ),
        None => results,
    }
}

/// The results with those that items tell of.
pub open spec fn with_items(results: Seq<HitView>, items: Seq<JsonView>) -> Seq<HitView>
    decreases items.len(),
{
    if items.len() == 0 {
        results
    } else {
        with_item(with_items(results, items.drop_last()), items.last())
    }
}

/// The results with those that a topic tells of, itself or through the topics in it.
pub open spec fn with_topic(results: Seq<HitView>, topic: JsonView) -> Seq<HitView> {
    if topic.text_at("Text"@) is Some {
        with_item(results, topic)
    } else {
        match topic.array_at("Topics"@) {
            Some(topics) => with_items(results, topics),
            None => results,
        }
    }
}

/// The results with those that topics tell of.
pub open spec fn with_topics(results: Seq<HitView>, topics: Seq<JsonView>) -> Seq<HitView>
    decreases topics.len(),
{
    if topics.len() == 0 {
        results
    } else {
        with_topic(with_topics(results, topics.drop_last()), topics.last())
    }
}

/// The result that a summary makes.
pub open spec fn summary_hits(query: Seq<char>, value: JsonView) -> Seq<HitView> {
    let told = text::trim(text_or_none(value, "AbstractText"@));
    let heading = text::trim(text_or_none(value, "Heading"@));
    if told.len() == 0 {
        Seq::empty()
    } else {
        pushed(
            Seq::empty(),
            HitView {
                title: if heading.len() == 0 {
                    query
                } else {
                    heading
                },
                url: text::trim(text_or_none(value, "AbstractURL"@)),
                description: told,
                age: None,
            },
        )
    }
}

/// The results of a search with the DuckDuckGo service: the summary, then the results, then the
/// topics.
pub open spec fn duckduckgo_hits(query: Seq<char>, value: JsonView) -> Seq<HitView> {
    let first = summary_hits(query, value);
    let second = match value.array_at("Results"@) {
        Some(items) => with_items(first, items),
        None => first,
    };
    match value.array_at("RelatedTopics"@) {
        Some(topics) => with_topics(second, topics),
        None => second,
    }
}

/// Adds the result that an item tells of.
fn push_item_result(results: &mut Vec<WebSearchResult>, item: &Json)
    requires
        item.wf(),
    ensures
        hits(final(results)@) == with_item(hits(old(results)@), item@),
{
    if let Some(told) = item.text_at("Text") {
        let (title, description) = parse_duckduckgo_text(told);
        let url = text_or_empty(item, "FirstURL").to_owned();
        push_result(results, WebSearchResult { title, url, description, age: None });
    }
}

/// Adds the results that items tell of.
fn push_item_results(results: &mut Vec<WebSearchResult>, items: &Vec<Json>)
    requires
        json::all_wf(items@),
    ensures
        hits(final(results)@) == with_items(hits(old(results)@), json::items_view(items@)),
{
    let ghost before = hits(results@);
    let ghost all = json::items_view(items@);
    let mut i: usize = 0;
    proof {
        json::lemma_items(items@);
    }
    assert(all.take(0) =~= Seq::<JsonView>::empty());
    while i < items.len()
        invariant
            i <= items@.len(),
            json::all_wf(items@),
            all.len() == items@.len(),
            forall|k: int| 0 <= k < items@.len() ==> #[trigger] all[k] == items@[k]@,
            hits(results@) == with_items(before, all.take(i as int)),
        decreases items@.len() - i,
    {
        proof {
            assert(all.take(i + 1).drop_last() =~= all.take(i as int));
            assert(all.take(i + 1).last() == items@[i as int]@);
        }
        push_item_result(results, &items[i]);
        i = i + 1;
    }
    assert(all.take(all.len() as int) =~= all);
}

/// Adds the results that topics tell of, themselves or through the topics in them.
pub fn collect_duckduckgo_related_topics(value: &Json, results: &mut Vec<WebSearchResult>)
    requires
        value.wf(),
    ensures
        hits(final(results)@) == match value@.array_at("RelatedTopics"@) {
            Some(topics) => with_topics(hits(old(results)@), topics),
            None => hits(old(results)@),
        },
{
    let ghost before = hits(results@);
    let topics = match value.array_at("RelatedTopics") {
        Some(topics) => topics,
        None => {
            return;
        },
    };
    let ghost all = json::items_view(topics@);
    let mut i: usize = 0;
    proof {
        json::lemma_items(topics@);
    }
    assert(all.take(0) =~= Seq::<JsonView>::empty());
    while i < topics.len()
        invariant
            i <= topics@.len(),
            json::all_wf(topics@),
            all.len() == topics@.len(),
            forall|k: int| 0 <= k < topics@.len() ==> #[trigger] all[k] == topics@[k]@,
            hits(results@) == with_topics(before, all.take(i as int)),
        decreases topics@.len() - i,
    {
        proof {
            assert(all.take(i + 1).drop_last() =~= all.take(i as int));
            assert(all.take(i + 1).last() == topics@[i as int]@);
        }
        let topic = &topics[i];
        if topic.text_at("Text").is_some() {
            push_item_result(results, topic);
        } else if let Some(inner) = topic.array_at("Topics") {
            push_item_results(results, inner);
        }
        i = i + 1;
    }
    assert(all.take(all.len() as int) =~= all);
}

/// What a search with the DuckDuckGo service answers.
pub fn map_duckduckgo_results(query: &str, value: &Json) -> (r: WebSearchOutput)
    requires
        value.wf(),
    ensures
        r.tells("duckduckgo"@, query@, duckduckgo_hits(query@, value@)),
{
    let mut results: Vec<WebSearchResult> = Vec::new();
    assert(hits(results@) =~= Seq::<HitView>::empty());
    let told = text::trimmed(text_or_empty(value, "AbstractText"));
    let heading = text::trimmed(text_or_empty(value, "Heading"));
    let url = text::trimmed(text_or_empty(value, "AbstractURL"));
    if !told.as_str().is_empty() {
        let title = if heading.as_str().is_empty() {
            query.to_owned()
        } else {
            heading
        };
        push_result(&mut results, WebSearchResult { title, url, description: told, age: None });
    }
    if let Some(items) = value.array_at("Results") {
        push_item_results(&mut results, items);
    }
    collect_duckduckgo_related_topics(value, &mut results);
    WebSearchOutput {
        provider: "duckduckgo".to_owned(),
        query: query.to_owned(),
        total_results_returned: results.len(),
        results,
    }
}

/// No more than five results are kept.
proof fn lemma_pushed_bounded(results: Seq<HitView>, candidate: HitView)
    requires
        results.len() <= MAX_RESULTS,
    ensures
        pushed(results, candidate).len() <= MAX_RESULTS,
{
}

/// No more than five results are kept.
proof fn lemma_items_bounded(results: Seq<HitView>, items: Seq<JsonView>)
    requires
        results.len() <= MAX_RESULTS,
    ensures
        with_items(results, items).len() <= MAX_RESULTS,
    decreases items.len(),
{
    if items.len() > 0 {
        lemma_items_bounded(results, items.drop_last());
    }
}

/// No more than five results are kept.
proof fn lemma_topics_bounded(results: Seq<HitView>, topics: Seq<JsonView>)
    requires
        results.len() <= MAX_RESULTS,
    ensures
        with_topics(results, topics).len() <= MAX_RESULTS,
    decreases topics.len(),
{
    if topics.len() > 0 {
        lemma_topics_bounded(results, topics.drop_last());
        let before = with_topics(results, topics.drop_last());
        match topics.last().array_at("Topics"@) {
            Some(inner) => lemma_items_bounded(before, inner),
            None => {},
        }
    }
}

/// A search returns no more than five results, whichever service is asked.
pub proof fn law_searches_are_bounded(
    query: Seq<char>,
    value: JsonView,
    results: Seq<BraveWebResult>,
)
    ensures
        duckduckgo_hits(query, value).len() <= MAX_RESULTS,
        brave_hits(results).len() <= MAX_RESULTS,
    decreases results.len(),
{
    let first = summary_hits(query, value);
    lemma_pushed_bounded(Seq::empty(), first[0]);
    let second = match value.array_at("Results"@) {
        Some(items) => {
            lemma_items_bounded(first, items);
            with_items(first, items)
        },
        None => first,
    };
    match value.array_at("RelatedTopics"@) {
        Some(topics) => lemma_topics_bounded(second, topics),
        None => {},
    }
    if results.len() > 0 {
        law_searches_are_bounded(query, value, results.drop_last());
    }
}

/// Whether no two results have one address or one description.
pub open spec fn all_new(results: Seq<HitView>) -> bool {
    forall|i: int, j: int|
        0 <= i < j < results.len() ==> {
            &&& (#[trigger] results[j]).url.len() > 0 ==> (#[trigger] results[i]).url
                != results[j].url
            &&& results[j].description.len() > 0 ==> results[i].description
                != results[j].description
        }
}

/// What is added to results of which no two are alike keeps them so.
pub proof fn law_results_are_not_repeated(results: Seq<HitView>, candidate: HitView)
    requires
        all_new(results),
    ensures
        all_new(pushed(results, candidate)),
{
}

/// What a search answers that cannot be sent.
pub fn request_failed(message: &str) -> (r: FrameworkError)
    ensures
        r@ == ErrorView::Tool("search request failed: "@ + message@),
{
    FrameworkError::Tool(text::concat2("search request failed: ", message))
}

/// What a search answers that takes too long.
pub fn timed_out(timeout_seconds: u64) -> (r: FrameworkError)
    ensures
        r@ == ErrorView::Tool(
            "search timed out after "@ + text::decimal(timeout_seconds as nat) + "s"@,
        ),
{
    FrameworkError::Tool(
        text::concat3("search timed out after ", text::decimal_of(timeout_seconds).as_str(), "s"),
    )
}

/// What a search answers whose response cannot be read.
pub fn decode_failed(message: &str) -> (r: FrameworkError)
    ensures
        r@ == ErrorView::Tool("search decode failed: "@ + message@),
{
    FrameworkError::Tool(text::concat2("search decode failed: ", message))
}

/// What a search with the Brave service answers to a status: an error where the status is not one
/// of success.
pub fn brave_status(status: u16) -> (r: Result<(), FrameworkError>)
    ensures
        error::unit_result(r) == if 200 <= status < 300 {
            Ok::<(), ErrorView>(())
        } else if status == 401 || status == 403 {
            Err(
                ErrorView::Tool(
                    "search authentication failed: provider=brave status="@ + text::decimal(
                        status as nat,
                    ),
                ),
            )
        } else {
            Err(
                ErrorView::Tool(
                    "search response error: provider=brave status="@ + text::decimal(
                        status as nat,
                    ),
                ),
            )
        },
{
    if status >= 200 && status < 300 {
        return Ok(());
    }
    let shown = text::decimal_of(status as u64);
    Err(
        FrameworkError::Tool(
            if status == 401 || status == 403 {
                text::concat2(
                    "search authentication failed: provider=brave status=",
                    shown.as_str(),
                )
            } else {
                text::concat2("search response error: provider=brave status=", shown.as_str())
            },
        ),
    )
}

/// Of what the service answers, the first five that have an address are told, in their order, each
/// as it is but for the white space around its texts.
pub proof fn law_found_pages_are_told(results: Seq<BraveWebResult>, next: BraveWebResult)
    ensures
        brave_hits(Seq::empty()).len() == 0,
        text::is_blank(next.url@) ==> brave_hits(results.push(next)) == brave_hits(results),
        brave_hits(results).len() >= 5 ==> brave_hits(results.push(next)) == brave_hits(results),
        !text::is_blank(next.url@) && brave_hits(results).len() < 5 ==> {
            let all = brave_hits(results.push(next));
            let told = all.last();
            &&& all == brave_hits(results).push(told)
            &&& told.title == text::trim(next.title@)
            &&& told.url == text::trim(next.url@)
            &&& told.description == text::trim(next.description@)
            &&& match (next.age, next.page_age) {
                (Some(age), _) => told.age == if text::is_blank(age@) {
                    None::<Seq<char>>
                } else {
                    Some(text::trim(age@))
                },
                (None, Some(age)) => told.age == if text::is_blank(age@) {
                    None::<Seq<char>>
                } else {
                    Some(text::trim(age@))
                },
                (None, None) => told.age is None,
            }
        },
{
    assert(results.push(next).drop_last() =~= results);
}

/// A result is told unless there are five already or its address or its description is told; then
/// nothing changes.
pub proof fn law_new_results_are_told(results: Seq<HitView>, candidate: HitView)
    ensures
        results.len() >= 5 ==> pushed(results, candidate) == results,
        (exists|i: int|
            0 <= i < results.len() && (((#[trigger] results[i]).url == text::trim(candidate.url)
                && !text::is_blank(candidate.url)) || (results[i].description == text::trim(
                candidate.description,
            ) && !text::is_blank(candidate.description)))) ==> pushed(results, candidate) == results,
        results.len() < 5 && !(exists|i: int|
            0 <= i < results.len() && (((#[trigger] results[i]).url == text::trim(candidate.url)
                && !text::is_blank(candidate.url)) || (results[i].description == text::trim(
                candidate.description,
            ) && !text::is_blank(candidate.description)))) ==> {
            let all = pushed(results, candidate);
            &&& all.len() == results.len() + 1
            &&& all.drop_last() == results
            &&& all.last().title == text::trim(candidate.title)
            &&& all.last().url == text::trim(candidate.url)
            &&& all.last().description == text::trim(candidate.description)
            &&& candidate.age is None ==> all.last().age is None
            &&& candidate.age is Some && !text::is_blank(candidate.age->0) ==> all.last().age
                == Some(text::trim(candidate.age->0))
        },
{
    let url = text::trim(candidate.url);
    let description = text::trim(candidate.description);
    if exists|i: int|
        0 <= i < results.len() && (((#[trigger] results[i]).url == url && !text::is_blank(
            candidate.url,
        )) || (results[i].description == description && !text::is_blank(candidate.description))) {
        let i = choose|i: int|
            0 <= i < results.len() && (((#[trigger] results[i]).url == url && !text::is_blank(
                candidate.url,
            )) || (results[i].description == description && !text::is_blank(
                candidate.description,
            )));
        assert(results[i].url == url || results[i].description == description);
        assert(known(results, url, description));
    }
    if results.len() < 5 && !known(results, url, description) {
        assert(pushed(results, candidate).drop_last() =~= results);
    }
}

/// The part before the first dash is the title and what follows it the description; a text without
/// a dash is both.
pub proof fn law_titles_end_at_the_dash(title: Seq<char>, told: Seq<char>)
    requires
        text::trim(title + " - "@ + told) == title + " - "@ + told,
        forall|j: int|
            0 <= j < title.len() ==> !text::occurs_at(title + " - "@ + told, " - "@, j),
    ensures
        titled(title + " - "@ + told) == (text::trim(title), text::trim(told)),
{
    reveal_strlit(" - ");
    let whole = title + " - "@ + told;
    let n = title.len() as int;
    assert(text::occurs_at(whole, " - "@, n)) by {
        assert(whole.subrange(n, n + 3) =~= " - "@);
    }
    text::lemma_find(whole, " - "@, 0);
    assert(text::find_from(whole, " - "@, 0) == Some(n));
    assert(whole.take(n) =~= title);
    assert(whole.skip(n + 3) =~= told);
}

/// A text without a dash is both title and description.
pub proof fn law_plain_texts_are_title_and_description(given: Seq<char>)
    requires
        !text::contains(text::trim(given), " - "@),
    ensures
        titled(given) == (text::trim(given), text::trim(given)),
{
    let trimmed = text::trim(given);
    text::lemma_find(trimmed, " - "@, 0);
    if text::find_from(trimmed, " - "@, 0) is Some {
        assert(text::occurs_at(trimmed, " - "@, text::find_from(trimmed, " - "@, 0)->0));
    }
}

/// Items and topics are looked at one after another; a topic without a text is the topics in it.
pub proof fn law_topics_are_looked_at_in_turn(
    results: Seq<HitView>,
    items: Seq<JsonView>,
    next: JsonView,
)
    ensures
        with_items(results, Seq::empty()) == results,
        with_topics(results, Seq::empty()) == results,
        with_items(results, items.push(next)) == match next.text_at("Text"@) {
            None => with_items(results, items),
            Some(told) => pushed(
                with_items(results, items),
                HitView {
                    title: titled(told).0,
                    url: match next.text_at("FirstURL"@) {
                        Some(url) => url,
                        None => Seq::empty(),
                    },
                    description: titled(told).1,
                    age: None,
                },
            ),
        },
        with_topics(results, items.push(next)) == match next.text_at("Text"@) {
            Some(_) => with_items(with_topics(results, items), seq![next]),
            None => match next.array_at("Topics"@) {
                Some(inner) => with_items(with_topics(results, items), inner),
                None => with_topics(results, items),
            },
        },
{
    assert(items.push(next).drop_last() =~= items);
    let before = with_topics(results, items);
    assert(seq![next].drop_last() =~= Seq::<JsonView>::empty());
    assert(with_items(before, Seq::empty()) == before);
    assert(with_items(before, seq![next]) == with_item(before, next));
}

/// The summary comes first, then the results, and then the related topics.
pub proof fn law_summaries_come_first(query: Seq<char>, value: JsonView)
    ensures
        value.array_at("Results"@) is None && value.array_at("RelatedTopics"@) is None
            ==> duckduckgo_hits(query, value) == summary_hits(query, value),
        value.array_at("RelatedTopics"@) is None && value.array_at("Results"@) is Some
            ==> duckduckgo_hits(query, value) == with_items(
            summary_hits(query, value),
            value.array_at("Results"@)->0,
        ),
        value.array_at("Results"@) is None && value.array_at("RelatedTopics"@) is Some
            ==> duckduckgo_hits(query, value) == with_topics(
            summary_hits(query, value),
            value.array_at("RelatedTopics"@)->0,
        ),
        value.array_at("Results"@) is Some && value.array_at("RelatedTopics"@) is Some
            ==> duckduckgo_hits(query, value) == with_topics(
            with_items(summary_hits(query, value), value.array_at("Results"@)->0),
            value.array_at("RelatedTopics"@)->0,
        ),
        value.text_at("AbstractText"@) is None ==> summary_hits(query, value).len() == 0,
        value.text_at("AbstractText"@) matches Some(told) ==> {
            let found = summary_hits(query, value);
            &&& text::is_blank(told) ==> found.len() == 0
            &&& !text::is_blank(told) ==> found.len() == 1 && found[0].description == text::trim(
                text::trim(told),
            )
            &&& !text::is_blank(told) && value.text_at("Heading"@) is Some && !text::is_blank(
                value.text_at("Heading"@)->0,
            ) ==> found[0].title == text::trim(text::trim(value.text_at("Heading"@)->0))
            &&& !text::is_blank(told) && value.text_at("Heading"@) is None ==> found[0].title
                == text::trim(query)
            &&& !text::is_blank(told) && value.text_at("AbstractURL"@) is Some ==> found[0].url
                == text::trim(text::trim(value.text_at("AbstractURL"@)->0))
        },
{
    assert(!known(Seq::empty(), Seq::empty(), Seq::empty()));
    assert(text::trim(Seq::<char>::empty()).len() == 0) by {
        let (from, to) = text::law_trimming_takes_the_ends(
            Seq::empty(),
            text::CharClass::White,
        );
    }
}

/// Any question that says something is asked, without the white space around it.
pub proof fn law_questions_are_asked_as_given(given: Seq<char>)
    ensures
        text::is_blank(given) ==> asked(given) is Err,
        !text::is_blank(given) ==> asked(given) == Ok::<Seq<char>, ErrorView>(text::trim(given)),
{
}

/// The service that was set up is asked; the one that needs a key is asked with it, and not at all
/// without one.
pub proof fn law_services_are_asked_with_their_key(api_key: Option<Seq<char>>)
    ensures
        service_of(WebSearchProvider::Duckduckgo, api_key) == Ok::<Option<Seq<char>>, ErrorView>(
            None,
        ),
        api_key is None || text::is_blank(api_key->0) ==> service_of(
            WebSearchProvider::Brave,
            api_key,
        ) is Err,
        api_key is Some && !text::is_blank(api_key->0) ==> service_of(
            WebSearchProvider::Brave,
            api_key,
        ) == Ok::<Option<Seq<char>>, ErrorView>(Some(text::trim(api_key->0))),
{
}

/// What is told names the service, the question and the number of results, and holds each result
/// with all that is known of it.
pub proof fn law_documents_hold_the_results(
    provider: Seq<char>,
    query: Seq<char>,
    total: int,
    found: Seq<HitView>,
    i: int,
)
    requires
        0 <= i < found.len(),
    ensures
        search_document(provider, query, total, found).text_at("provider"@) == Some(provider),
        search_document(provider, query, total, found).text_at("query"@) == Some(query),
        search_document(provider, query, total, found).array_at("results"@) matches Some(results)
            ==> {
            &&& results.len() == found.len()
            &&& results[i].text_at("title"@) == Some(found[i].title)
            &&& results[i].text_at("url"@) == Some(found[i].url)
            &&& results[i].text_at("description"@) == Some(found[i].description)
            &&& results[i].text_at("age"@) == found[i].age
        },
        search_document(provider, query, total, found).array_at("results"@) is Some,
{
    reveal_strlit("provider");
    reveal_strlit("query");
    reveal_strlit("total_results_returned");
    reveal_strlit("results");
    reveal_strlit("title");
    reveal_strlit("url");
    reveal_strlit("description");
    reveal_strlit("age");
    assert("provider"@.len() == 8);
    assert("query"@.len() == 5);
    assert("total_results_returned"@.len() == 22);
    assert("results"@.len() == 7);
    assert("title"@.len() == 5);
    assert("url"@.len() == 3 && "url"@[0] == 'u');
    assert("description"@.len() == 11);
    assert("age"@.len() == 3 && "age"@[0] == 'a');
}

/// What is told is written with all that it holds, in this order, and nothing else.
pub proof fn law_results_are_written_whole(hit: HitView)
    ensures
        hit.age is None ==> hit_text(hit) == "{\"title\":"@ + json::rendered_json(
            JsonView::Str(hit.title),
        ) + (",\"url\":"@ + json::rendered_json(JsonView::Str(hit.url))) + (",\"description\":"@
            + json::rendered_json(JsonView::Str(hit.description))) + "}"@,
        hit.age is Some ==> hit_text(hit) == "{\"title\":"@ + json::rendered_json(
            JsonView::Str(hit.title),
        ) + (",\"url\":"@ + json::rendered_json(JsonView::Str(hit.url))) + (",\"description\":"@
            + json::rendered_json(JsonView::Str(hit.description))) + (",\"age\":"@
            + json::rendered_json(JsonView::Str(hit.age->0))) + "}"@,
{
}

/// What is told names the service and the question, and holds as many results as it says.
pub proof fn law_outputs_tell_the_results(
    query: &str,
    results: &Vec<BraveWebResult>,
    r: WebSearchOutput,
    i: int,
)
    requires
        call_ensures(map_brave_results, (query, results), r),
    ensures
        r.query@ == query@,
        r.provider@ == "brave"@,
        r.total_results_returned == r.results@.len(),
        r.results@.len() == brave_hits(results@).len(),
        0 <= i < r.results@.len() ==> r.results@[i]@ == brave_hits(results@)[i],
{
    assert(hits(r.results@).len() == r.results@.len());
    if 0 <= i < r.results@.len() {
        assert(hits(r.results@)[i] == r.results@[i]@);
    }
}

/// An answer is good where its status says so, and a key that is refused is told apart.
pub proof fn law_statuses_are_told(status: u16, r: Result<(), FrameworkError>)
    requires
        call_ensures(brave_status, (status,), r),
    ensures
        r is Ok <==> 200 <= status < 300,
        status == 401 || status == 403 ==> r is Err && r->Err_0@ == ErrorView::Tool(
            "search authentication failed: provider=brave status="@ + text::decimal(status as nat),
        ),
{
}

} // verus!
