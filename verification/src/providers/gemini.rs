//! The Gemini provider: requests, answers and streamed answers.
use vstd::prelude::*;
use crate::config::{GeminiProviderConfig, ProviderEntryConfig};
use crate::error::{ErrorView, FrameworkError};
use crate::error;
use crate::json::{Json, JsonView};
use crate::json;
use crate::providers::stream;
use crate::providers::types::{
    CallView,
    DefinitionView,
    EventView,
    Message,
    MessageView,
    ProviderResponse,
    ResponseView,
    ResultView,
    Role,
    StreamEvent,
    ToolCall,
    ToolDefinition,
    ToolResult,
};
use crate::providers::types;
use crate::text::CharClass;
use crate::text;

verus! {

/// A Gemini provider.
pub struct GeminiProvider {
    config: GeminiProviderConfig,
}

/// How much of an error body is shown.
pub const ERROR_BODY_PREVIEW_CHARS: usize = 1_000;

/// The address of a method of the model.
pub open spec fn method_url(api_base: Seq<char>, model: Seq<char>, method: Seq<char>) -> Seq<char> {
    text::trim_end_of(api_base, CharClass::Only('/')) + "/models/"@ + model + ":"@ + method
}

impl GeminiProvider {
    /// The settings of the provider.
    pub closed spec fn settings(&self) -> GeminiProviderConfig {
        self.config
    }

    /// A provider with the given settings.
    pub fn from_config(config: GeminiProviderConfig) -> (r: Self)
        ensures
            r.settings() == config,
    {
        Self { config }
    }

    /// A provider for an entry of the configuration.
    pub fn from_entry(entry: &ProviderEntryConfig) -> (r: Result<Self, FrameworkError>)
        ensures
            match (r, *entry) {
                (Ok(provider), ProviderEntryConfig::Gemini(config)) => provider.settings() == config,
                (Err(error), ProviderEntryConfig::Gemini(_)) => false,
                (Ok(_), _) => false,
                (Err(error), _) => error@ == ErrorView::Config(
                    "gemini provider received wrong provider config variant"@,
                ),
            },
    {
        match entry {
            ProviderEntryConfig::Gemini(config) => Ok(Self::from_config(config.clone())),
            _ => Err(
                error::config_error("gemini provider received wrong provider config variant"),
            ),
        }
    }

    /// The resolved key, where it is set and not blank.
    pub open spec fn key(&self) -> Option<Seq<char>> {
        match self.settings().api_key {
            Some(secret) => match secret.value() {
                Some(value) => if text::is_blank(value@) {
                    None
                } else {
                    Some(value@)
                },
                None => None,
            },
            None => None,
        }
    }

    /// The resolved key.
    pub fn api_key(&self) -> (r: Result<String, FrameworkError>)
        ensures
            error::text_result(r) == match self.key() {
                Some(key) => Ok::<Seq<char>, ErrorView>(key),
                None => Err::<Seq<char>, ErrorView>(
                    ErrorView::Config(
                        "missing provider API key: set providers.entries.<key>.api_key to a ${secret:<name>} reference"@,
                    ),
                ),
            },
    {
        if let Some(secret) = &self.config.api_key {
            if let Some(value) = secret.exposed() {
                if !text::blank(value) {
                    return Ok(value.to_owned());
                }
            }
        }
        Err(
            error::config_error(
                "missing provider API key: set providers.entries.<key>.api_key to a ${secret:<name>} reference",
            ),
        )
    }

    /// The address of a method of the model.
    fn method_endpoint(&self, method: &str) -> (r: String)
        ensures
            r@ == method_url(self.settings().api_base@, self.settings().model@, method@),
    {
        let base = text::trim_end_class(self.config.api_base.as_str(), CharClass::Only('/'));
        let mut out = text::concat3(base.as_str(), "/models/", self.config.model.as_str());
        out.append(":");
        out.append(method);
        out
    }

    /// Where an answer is asked for at once.
    pub fn endpoint(&self) -> (r: String)
        ensures
            r@ == method_url(
                self.settings().api_base@,
                self.settings().model@,
                "generateContent"@,
            ),
    {
        self.method_endpoint("generateContent")
    }

    /// Where an answer is asked for bit by bit.
    pub fn stream_endpoint(&self) -> (r: String)
        ensures
            r@ == method_url(
                self.settings().api_base@,
                self.settings().model@,
                "streamGenerateContent"@,
            ),
    {
        self.method_endpoint("streamGenerateContent")
    }
}

/// A parsed document, or another one where the text is none.
pub open spec fn parsed_or(input: Seq<char>, otherwise: JsonView) -> JsonView {
    match json::parsed_json(input) {
        Ok(document) => document,
        Err(_) => otherwise,
    }
}

/// A parsed document, or another one where the text is none.
pub(crate) fn parse_or(input: &str, otherwise: Json) -> (r: Json)
    requires
        otherwise.wf(),
    ensures
        r@ == parsed_or(input@, otherwise@),
        r.wf(),
{
    match Json::parse(input) {
        Ok(document) => document,
        Err(_) => otherwise,
    }
}

/// The object with an id, where there is one.
pub open spec fn with_id(object: JsonView, id: Option<Seq<char>>) -> JsonView {
    match id {
        Some(id) => json::set_member(object, "id"@, JsonView::Str(id)),
        None => object,
    }
}

/// The part that tells of a call with the given arguments.
pub open spec fn call_part(call: CallView, args: JsonView) -> JsonView {
    JsonView::Object(
        map!["functionCall"@ => with_id(
            JsonView::Object(map!["name"@ => JsonView::Str(call.name), "args"@ => args]),
            call.id,
        )],
    )
}

/// The part that tells of a result.
pub open spec fn result_part(result: ResultView) -> JsonView {
    JsonView::Object(
        map!["functionResponse"@ => with_id(
            JsonView::Object(
                map!["name"@ => JsonView::Str(result.name), "response"@ => result.response],
            ),
            result.call_id,
        )],
    )
}

/// The parts of a message: its calls, or else its results, or else its text.
pub open spec fn message_parts(message: MessageView) -> Seq<JsonView> {
    if message.tool_calls.len() > 0 {
        Seq::new(
            message.tool_calls.len(),
            |i: int|
                call_part(
                    message.tool_calls[i],
                    parsed_or(message.tool_calls[i].args_json, json::empty_object()),
                ),
        )
    } else if message.tool_results.len() > 0 {
        Seq::new(message.tool_results.len(), |i: int| result_part(message.tool_results[i]))
    } else if text::is_blank(message.content) {
        Seq::empty()
    } else {
        seq![JsonView::Object(map!["text"@ => JsonView::Str(message.content)])]
    }
}

/// The content that stands for a message with the given parts.
pub open spec fn content_of(role: Role, parts: Seq<JsonView>) -> JsonView {
    JsonView::Object(
        map!["role"@ => JsonView::Str(
            match role {
                Role::Assistant => "model"@,
                _ => "user"@,
            },
        ), "parts"@ => JsonView::Array(parts)],
    )
}

/// The contents that stand for a conversation; a message without parts is left out.
pub open spec fn contents_of(history: Seq<MessageView>) -> Seq<JsonView>
    decreases history.len(),
{
    if history.len() == 0 {
        Seq::empty()
    } else {
        let before = contents_of(history.drop_last());
        let parts = message_parts(history.last());
        if parts.len() == 0 {
            before
        } else {
            before.push(content_of(history.last().role, parts))
        }
    }
}

/// The object with an id, where there is one.
fn add_id(object: Json, id: &Option<String>) -> (r: Json)
    requires
        object.wf(),
    ensures
        r@ == with_id(object@, text::opt_view(*id)),
        r.wf(),
{
    match id {
        Some(id) => object.with("id", Json::text(id.as_str())),
        None => object,
    }
}

/// The part that tells of a call with the given arguments.
pub fn function_call_part(call: &ToolCall, args: Json) -> (r: Json)
    requires
        args.wf(),
    ensures
        r@ == call_part(call@, args@),
        r.wf(),
{
    let inner = Json::object().with("name", Json::text(call.name.as_str())).with("args", args);
    Json::object().with("functionCall", add_id(inner, &call.id))
}

/// The part that tells of a result.
pub fn function_response_part(result: &ToolResult) -> (r: Json)
    requires
        result.response.wf(),
    ensures
        r@ == result_part(result@),
        r.wf(),
{
    let inner = Json::object().with("name", Json::text(result.name.as_str())).with(
        "response",
        result.response.clone(),
    );
    Json::object().with("functionResponse", add_id(inner, &result.call_id))
}

/// The parts of a message.
fn parts_of(message: &Message) -> (r: Vec<Json>)
    requires
        types::message_wf(*message),
    ensures
        json::items_view(r@) == message_parts(message@),
        json::all_wf(r@),
{
    let mut parts: Vec<Json> = Vec::new();
    let ghost whole = message_parts(message@);
    if message.tool_calls.len() > 0 {
        let mut i: usize = 0;
        assert(whole.take(0) =~= Seq::<JsonView>::empty());
        while i < message.tool_calls.len()
            invariant
                i <= message.tool_calls@.len(),
                message.tool_calls@.len() > 0,
                whole == message_parts(message@),
                json::items_view(parts@) == whole.take(i as int),
                json::all_wf(parts@),
            decreases message.tool_calls@.len() - i,
        {
            let call = &message.tool_calls[i];
            assert(message@.tool_calls[i as int] == call@);
            let args = parse_or(call.args_json.as_str(), Json::object());
            json::push_item(&mut parts, function_call_part(call, args));
            i = i + 1;
            assert(whole.take(i as int) =~= whole.take(i - 1).push(whole[i - 1]));
        }
        assert(whole.take(i as int) =~= whole);
    } else if message.tool_results.len() > 0 {
        let mut i: usize = 0;
        assert(whole.take(0) =~= Seq::<JsonView>::empty());
        while i < message.tool_results.len()
            invariant
                i <= message.tool_results@.len(),
                message.tool_calls@.len() == 0,
                message.tool_results@.len() > 0,
                types::message_wf(*message),
                whole == message_parts(message@),
                json::items_view(parts@) == whole.take(i as int),
                json::all_wf(parts@),
            decreases message.tool_results@.len() - i,
        {
            let result = &message.tool_results[i];
            assert(message.tool_results@[i as int].response.wf());
            assert(message@.tool_results[i as int] == result@);
            json::push_item(&mut parts, function_response_part(result));
            i = i + 1;
            assert(whole.take(i as int) =~= whole.take(i - 1).push(whole[i - 1]));
        }
        assert(whole.take(i as int) =~= whole);
    } else if !text::blank(message.content.as_str()) {
        json::push_item(
            &mut parts,
            Json::object().with("text", Json::text(message.content.as_str())),
        );
        assert(json::items_view(parts@) =~= whole);
    }
    parts
}

/// The contents that stand for a conversation.
pub fn build_gemini_contents(history: &[Message]) -> (r: Vec<Json>)
    requires
        types::history_wf(history@),
    ensures
        json::items_view(r@) == contents_of(types::message_views(history@)),
        json::all_wf(r@),
{
    let ghost whole = types::message_views(history@);
    let mut contents: Vec<Json> = Vec::new();
    let mut i: usize = 0;
    while i < history.len()
        invariant
            i <= history@.len(),
            types::history_wf(history@),
            whole == types::message_views(history@),
            json::items_view(contents@) == contents_of(whole.take(i as int)),
            json::all_wf(contents@),
        decreases history@.len() - i,
    {
        let message = &history[i];
        assert(types::message_wf(history@[i as int]));
        assert(whole.take(i + 1).drop_last() =~= whole.take(i as int));
        assert(whole.take(i + 1).last() == message@);
        let parts = parts_of(message);
        proof {
            json::lemma_items(parts@);
        }
        if parts.len() > 0 {
            let role = match message.role {
                Role::Assistant => "model",
                _ => "user",
            };
            let content = Json::object().with("role", Json::text(role)).with(
                "parts",
                Json::array(parts),
            );
            json::push_item(&mut contents, content);
        }
        i = i + 1;
    }
    assert(whole.take(i as int) =~= whole);
    contents
}

/// The start of a text.
pub fn preview_text(value: &str, max_chars: usize) -> (r: String)
    ensures
        r@ == text::clip(value@, max_chars as int),
{
    text::clipped(value, max_chars)
}

/// What an error object tells: its status and its message, where they are given.
pub open spec fn error_summary(document: JsonView) -> Option<Seq<char>> {
    match document.get("error"@) {
        Some(error) => if error is Object {
            let status = match error.text_at("status"@) {
                Some(status) => status,
                None => Seq::empty(),
            };
            let message = match error.text_at("message"@) {
                Some(message) => message,
                None => Seq::empty(),
            };
            if status.len() > 0 && message.len() > 0 {
                Some(status + ": "@ + message)
            } else if status.len() > 0 {
                Some(status)
            } else if message.len() > 0 {
                Some(message)
            } else {
                None
            }
        } else {
            None
        },
        None => None,
    }
}

/// What an error body tells.
pub open spec fn error_body_summary(body: Seq<char>) -> Seq<char> {
    let trimmed = text::trim(body);
    if trimmed.len() == 0 {
        "empty response body"@
    } else {
        match json::parsed_json(trimmed) {
            Ok(document) => match error_summary(document) {
                Some(summary) => summary,
                None => text::clip(trimmed, ERROR_BODY_PREVIEW_CHARS as int),
            },
            Err(_) => text::clip(trimmed, ERROR_BODY_PREVIEW_CHARS as int),
        }
    }
}

/// What an error object tells.
pub fn summarize_error_document(document: &Json) -> (r: Option<String>)
    requires
        document.wf(),
    ensures
        text::opt_view(r) == error_summary(document@),
{
    if let Some(error) = document.get("error") {
        if error.is_object() {
            let status = match error.text_at("status") {
                Some(status) => status.to_owned(),
                None => String::new(),
            };
            let message = match error.text_at("message") {
                Some(message) => message.to_owned(),
                None => String::new(),
            };
            if !status.as_str().is_empty() && !message.as_str().is_empty() {
                return Some(text::concat3(status.as_str(), ": ", message.as_str()));
            }
            if !status.as_str().is_empty() {
                return Some(status);
            }
            if !message.as_str().is_empty() {
                return Some(message);
            }
        }
    }
    None
}

/// What an error body tells.
pub fn summarize_gemini_error_body(body: &str) -> (r: String)
    ensures
        r@ == error_body_summary(body@),
{
    let trimmed = text::trimmed(body);
    if trimmed.as_str().is_empty() {
        return "empty response body".to_owned();
    }
    if let Ok(document) = Json::parse(trimmed.as_str()) {
        if let Some(summary) = summarize_error_document(&document) {
            return summary;
        }
    }
    preview_text(trimmed.as_str(), ERROR_BODY_PREVIEW_CHARS)
}

/// The declaration of a tool with the given schema.
pub open spec fn declaration(tool: DefinitionView, schema: JsonView) -> JsonView {
    JsonView::Object(
        map!["name"@ => JsonView::Str(tool.name), "description"@ => JsonView::Str(
            tool.description,
        ), "parameters"@ => schema],
    )
}

/// The schema that stands in for one that is no document.
pub open spec fn plain_object_schema() -> JsonView {
    JsonView::Object(map!["type"@ => JsonView::Str("object"@)])
}

/// The body of a request.
pub open spec fn request_body(
    system_prompt: Seq<char>,
    contents: Seq<JsonView>,
    declarations: Seq<JsonView>,
) -> JsonView {
    JsonView::Object(
        map!["system_instruction"@ => JsonView::Object(
            map!["parts"@ => JsonView::Array(
                seq![JsonView::Object(map!["text"@ => JsonView::Str(system_prompt)])],
            )],
        ), "contents"@ => JsonView::Array(contents), "tools"@ => JsonView::Array(
            seq![JsonView::Object(map!["functionDeclarations"@ => JsonView::Array(declarations)])],
        )],
    )
}

/// The declarations of the tools.
pub open spec fn declarations(tools: Seq<DefinitionView>) -> Seq<JsonView> {
    Seq::new(
        tools.len(),
        |i: int|
            declaration(tools[i], parsed_or(tools[i].input_schema_json, plain_object_schema())),
    )
}

/// The declaration of a tool with the given schema.
pub fn function_declaration(tool: &ToolDefinition, schema: Json) -> (r: Json)
    requires
        schema.wf(),
    ensures
        r@ == declaration(tool@, schema@),
        r.wf(),
{
    Json::object().with("name", Json::text(tool.name.as_str())).with(
        "description",
        Json::text(tool.description.as_str()),
    ).with("parameters", schema)
}

/// A list of one document.
pub(crate) fn single(item: Json) -> (r: Json)
    requires
        item.wf(),
    ensures
        r@ == JsonView::Array(seq![item@]),
        r.wf(),
{
    let mut items: Vec<Json> = Vec::new();
    json::push_item(&mut items, item);
    assert(json::items_view(items@) =~= seq![item@]);
    Json::array(items)
}

/// The body of a request.
pub fn build_request_body(
    system_prompt: &str,
    history: &[Message],
    tools: &[ToolDefinition],
) -> (r: Json)
    requires
        types::history_wf(history@),
    ensures
        r@ == request_body(
            system_prompt@,
            contents_of(types::message_views(history@)),
            declarations(types::definition_views(tools@)),
        ),
        r.wf(),
{
    let ghost whole = declarations(types::definition_views(tools@));
    let mut function_declarations: Vec<Json> = Vec::new();
    let mut i: usize = 0;
    assert(whole.take(0) =~= Seq::<JsonView>::empty());
    while i < tools.len()
        invariant
            i <= tools@.len(),
            whole == declarations(types::definition_views(tools@)),
            json::items_view(function_declarations@) == whole.take(i as int),
            json::all_wf(function_declarations@),
        decreases tools@.len() - i,
    {
        let tool = &tools[i];
        let plain = Json::object().with("type", Json::text("object"));
        let schema = parse_or(tool.input_schema_json.as_str(), plain);
        json::push_item(&mut function_declarations, function_declaration(tool, schema));
        i = i + 1;
        assert(whole.take(i as int) =~= whole.take(i - 1).push(whole[i - 1]));
    }
    assert(whole.take(i as int) =~= whole);
    let contents = build_gemini_contents(history);
    let instruction = Json::object().with(
        "parts",
        single(Json::object().with("text", Json::text(system_prompt))),
    );
    let tool_list = single(
        Json::object().with("functionDeclarations", Json::array(function_declarations)),
    );
    Json::object().with("system_instruction", instruction).with(
        "contents",
        Json::array(contents),
    ).with("tools", tool_list)
}

/// What a text is, or the empty text.
pub open spec fn or_empty(value: Option<Seq<char>>) -> Seq<char> {
    match value {
        Some(value) => value,
        None => Seq::empty(),
    }
}

/// The tool call that a part asks for.
pub open spec fn call_of(part: JsonView) -> Option<CallView> {
    match part.get("functionCall"@) {
        Some(call) => {
            let name = or_empty(call.text_at("name"@));
            if name.len() == 0 {
                None
            } else {
                Some(
                    CallView {
                        id: match call.get("id"@) {
                            Some(id) => id.as_str(),
                            None => call.text_at("callId"@),
                        },
                        name,
                        args_json: json::rendered_json(
                            match call.get("args"@) {
                                Some(args) => args,
                                None => json::empty_object(),
                            },
                        ),
                    },
                )
            }
        },
        None => None,
    }
}

/// What an optional tool call says.
pub open spec fn opt_call(r: Option<ToolCall>) -> Option<CallView> {
    match r {
        Some(call) => Some(call@),
        None => None,
    }
}

/// A text of its own, where there is one.
pub(crate) fn owned(value: Option<&str>) -> (r: Option<String>)
    ensures
        text::opt_view(r) == json::opt_str(value),
{
    match value {
        Some(value) => Some(value.to_owned()),
        None => None,
    }
}

/// The tool call that a part asks for.
pub fn parse_tool_call_part(part: &Json) -> (r: Option<ToolCall>)
    requires
        part.wf(),
    ensures
        opt_call(r) == call_of(part@),
{
    let call = match part.get("functionCall") {
        Some(call) => call,
        None => {
            return None;
        },
    };
    let name = match call.text_at("name") {
        Some(name) => name.to_owned(),
        None => String::new(),
    };
    if name.as_str().is_empty() {
        return None;
    }
    let id = match call.get("id") {
        Some(id) => owned(id.as_str()),
        None => owned(call.text_at("callId")),
    };
    let args_json = match call.get("args") {
        Some(args) => args.render(),
        None => Json::object().render(),
    };
    Some(ToolCall { id, name, args_json })
}

/// The parts of the first candidate of an answer.
pub open spec fn candidate_parts(document: JsonView) -> Option<Seq<JsonView>> {
    match document.array_at("candidates"@) {
        Some(candidates) => if candidates.len() > 0 {
            match candidates[0].get("content"@) {
                Some(content) => content.array_at("parts"@),
                None => None,
            }
        } else {
            None
        },
        None => None,
    }
}

/// The parts of the first candidate of an answer.
fn first_candidate_parts(document: &Json) -> (r: Option<&Vec<Json>>)
    requires
        document.wf(),
    ensures
        match r {
            Some(parts) => candidate_parts(document@) == Some(json::items_view(parts@))
                && json::all_wf(parts@),
            None => candidate_parts(document@) is None,
        },
{
    match document.array_at("candidates") {
        Some(candidates) => {
            proof {
                json::lemma_items(candidates@);
            }
            if candidates.len() > 0 {
                match candidates[0].get("content") {
                    Some(content) => content.array_at("parts"),
                    None => None,
                }
            } else {
                None
            }
        },
        None => None,
    }
}

/// The text so far with one more text: on a line of its own behind a text that is not empty.
pub open spec fn add_text(so_far: Option<Seq<char>>, more: Seq<char>) -> Option<Seq<char>> {
    match so_far {
        Some(before) => if before.len() > 0 {
            Some(before + "\n"@ + more)
        } else {
            Some(more)
        },
        None => Some(more),
    }
}

/// What the parts of an answer say: their texts line by line, and their tool calls.
pub open spec fn parts_response(parts: Seq<JsonView>) -> ResponseView
    decreases parts.len(),
{
    if parts.len() == 0 {
        ResponseView { output_text: None, tool_calls: Seq::empty() }
    } else {
        let before = parts_response(parts.drop_last());
        ResponseView {
            output_text: match parts.last().text_at("text"@) {
                Some(more) => add_text(before.output_text, more),
                None => before.output_text,
            },
            tool_calls: match call_of(parts.last()) {
                Some(call) => before.tool_calls.push(call),
                None => before.tool_calls,
            },
        }
    }
}

/// What an answer says.
pub open spec fn response_of(document: JsonView) -> ResponseView {
    match candidate_parts(document) {
        Some(parts) => parts_response(parts),
        None => ResponseView { output_text: None, tool_calls: Seq::empty() },
    }
}

/// What an answer says.
pub fn parse_provider_response(response_value: &Json) -> (r: ProviderResponse)
    requires
        response_value.wf(),
    ensures
        r@ == response_of(response_value@),
{
    let mut output_text: Option<String> = None;
    let mut tool_calls: Vec<ToolCall> = Vec::new();
    if let Some(parts) = first_candidate_parts(response_value) {
        let ghost whole = json::items_view(parts@);
        let mut i: usize = 0;
        proof {
            json::lemma_items(parts@);
        }
        assert(types::call_views(tool_calls@) =~= Seq::<CallView>::empty());
        assert(whole.take(0) =~= Seq::<JsonView>::empty());
        while i < parts.len()
            invariant
                i <= parts@.len(),
                json::all_wf(parts@),
                whole == json::items_view(parts@),
                whole.len() == parts@.len(),
                text::opt_view(output_text) == parts_response(whole.take(i as int)).output_text,
                types::call_views(tool_calls@) == parts_response(whole.take(i as int)).tool_calls,
            decreases parts@.len() - i,
        {
            let part = &parts[i];
            proof {
                json::lemma_items(parts@);
                assert(whole.take(i + 1).drop_last() =~= whole.take(i as int));
                assert(whole.take(i + 1).last() == part@);
            }
            if let Some(more) = part.text_at("text") {
                output_text = match output_text {
                    Some(before) => {
                        if before.as_str().is_empty() {
                            Some(more.to_owned())
                        } else {
                            Some(text::concat3(before.as_str(), "\n", more))
                        }
                    },
                    None => Some(more.to_owned()),
                };
            }
            if let Some(call) = parse_tool_call_part(part) {
                let ghost before = types::call_views(tool_calls@);
                tool_calls.push(call);
                assert(types::call_views(tool_calls@) =~= before.push(call@));
            }
            i = i + 1;
        }
        proof {
            assert(whole.take(i as int) =~= whole);
        }
    } else {
        assert(types::call_views(tool_calls@) =~= Seq::<CallView>::empty());
    }
    ProviderResponse { output_text, tool_calls }
}

/// What a stream reader has read so far.
#[verifier::ext_equal]
pub struct ReaderView {
    /// The start of a line whose end has not come.
    pub line: Seq<char>,
    /// The data lines of an event whose end has not come.
    pub data: Seq<Seq<char>>,
    /// The tool calls so far.
    pub calls: Seq<CallView>,
}

/// What reading leads to: the reader's state, the events told, and the error that stopped it.
#[verifier::ext_equal]
pub struct Reading {
    pub reader: ReaderView,
    pub events: Seq<EventView>,
    pub error: Option<ErrorView>,
}

/// Reading of one part of an event.
pub open spec fn read_part(reading: Reading, part: JsonView) -> Reading {
    let told = match part.text_at("text"@) {
        Some(delta) => if delta.len() > 0 {
            reading.events.push(EventView::TextDelta(delta))
        } else {
            reading.events
        },
        None => reading.events,
    };
    match call_of(part) {
        Some(call) => Reading {
            reader: ReaderView {
                calls: stream::record(reading.reader.calls, call),
                ..reading.reader
            },
            events: told + stream::record_events(reading.reader.calls, call),
            ..reading
        },
        None => Reading { events: told, ..reading },
    }
}

/// Reading of the parts of an event, one after another.
pub open spec fn read_parts(reading: Reading, parts: Seq<JsonView>) -> Reading
    decreases parts.len(),
{
    if parts.len() == 0 {
        reading
    } else {
        read_part(read_parts(reading, parts.drop_last()), parts.last())
    }
}

/// Reading of the document of an event.
pub open spec fn read_document(reading: Reading, document: JsonView) -> Reading {
    match candidate_parts(document) {
        Some(parts) => read_parts(reading, parts),
        None => reading,
    }
}

/// Reading of the end of an event: its data lines together are a document, or `[DONE]`.
pub open spec fn read_event_end(reading: Reading) -> Reading {
    if reading.reader.data.len() == 0 {
        reading
    } else {
        let payload = text::join(reading.reader.data, "\n"@);
        let cleared = Reading {
            reader: ReaderView { data: Seq::empty(), ..reading.reader },
            ..reading
        };
        if text::trim(payload) == "[DONE]"@ {
            cleared
        } else {
            match json::parsed_json(payload) {
                Ok(document) => read_document(cleared, document),
                Err(message) => Reading {
                    error: Some(
                        ErrorView::Provider("invalid gemini stream event: "@ + message),
                    ),
                    ..cleared
                },
            }
        }
    }
}

/// Reading of a line: an empty one ends an event, one with data adds to it.
pub open spec fn read_line(reading: Reading, line: Seq<char>) -> Reading {
    if line.len() == 0 {
        read_event_end(reading)
    } else if text::starts_with(line, "data:"@) {
        Reading {
            reader: ReaderView {
                data: reading.reader.data.push(
                    text::trim_start_of(line.skip("data:"@.len() as int), CharClass::White),
                ),
                ..reading.reader
            },
            ..reading
        }
    } else {
        reading
    }
}

/// Reading of a character: a line feed ends a line.  Behind an error nothing more is read.
pub open spec fn read_char(reading: Reading, c: char) -> Reading {
    if reading.error is None && c == '\n' {
        read_line(
            Reading { reader: ReaderView { line: Seq::empty(), ..reading.reader }, ..reading },
            text::strip_cr(reading.reader.line),
        )
    } else {
        Reading {
            reader: ReaderView { line: reading.reader.line.push(c), ..reading.reader },
            ..reading
        }
    }
}

/// Reading of a text, character by character.
pub open spec fn read_text(reading: Reading, chunk: Seq<char>) -> Reading
    decreases chunk.len(),
{
    if chunk.len() == 0 {
        reading
    } else {
        read_char(read_text(reading, chunk.drop_last()), chunk.last())
    }
}

/// Reading of the end of the stream: the last line and the last event end, then the tool calls
/// are told.
pub open spec fn read_end(reading: Reading) -> Reading {
    let last = if reading.reader.line.len() > 0 {
        read_line(
            Reading { reader: ReaderView { line: Seq::empty(), ..reading.reader }, ..reading },
            text::strip_cr(reading.reader.line),
        )
    } else {
        reading
    };
    let flushed = if last.error is None {
        read_event_end(last)
    } else {
        last
    };
    if flushed.error is None {
        Reading {
            events: flushed.events + types::complete_events(flushed.reader.calls) + seq![
                EventView::Done,
            ],
            ..flushed
        }
    } else {
        flushed
    }
}

/// It does not matter how a stream is cut into chunks.
pub proof fn law_chunks_do_not_matter(reading: Reading, first: Seq<char>, second: Seq<char>)
    ensures
        read_text(reading, first + second) == read_text(read_text(reading, first), second),
    decreases second.len(),
{
    if second.len() == 0 {
        assert(first + second =~= first);
    } else {
        law_chunks_do_not_matter(reading, first, second.drop_last());
        assert((first + second).drop_last() =~= first + second.drop_last());
    }
}

/// Recording parts keeps ids distinct.
proof fn lemma_parts_keep_ids(reading: Reading, parts: Seq<JsonView>)
    requires
        stream::ids_distinct(reading.reader.calls),
    ensures
        stream::ids_distinct(read_parts(reading, parts).reader.calls),
    decreases parts.len(),
{
    if parts.len() > 0 {
        lemma_parts_keep_ids(reading, parts.drop_last());
        let before = read_parts(reading, parts.drop_last());
        if let Some(call) = call_of(parts.last()) {
            stream::law_record_keeps_ids_distinct(before.reader.calls, call);
        }
    }
}

/// However much is read, no two tool calls have one id.
pub proof fn law_reading_keeps_ids_distinct(reading: Reading, chunk: Seq<char>)
    requires
        stream::ids_distinct(reading.reader.calls),
    ensures
        stream::ids_distinct(read_text(reading, chunk).reader.calls),
    decreases chunk.len(),
{
    if chunk.len() > 0 {
        law_reading_keeps_ids_distinct(reading, chunk.drop_last());
        let before = read_text(reading, chunk.drop_last());
        if before.error is None && chunk.last() == '\n' {
            let payload = text::join(before.reader.data, "\n"@);
            if let Ok(document) = json::parsed_json(payload) {
                if let Some(parts) = candidate_parts(document) {
                    lemma_parts_keep_ids(
                        Reading {
                            reader: ReaderView {
                                line: Seq::empty(),
                                data: Seq::empty(),
                                ..before.reader
                            },
                            ..before
                        },
                        parts,
                    );
                }
            }
        }
    }
}

/// A reader of a streamed answer.
pub struct GeminiStreamAccumulator {
    line_buffer: String,
    event_data_lines: Vec<String>,
    tool_calls: Vec<ToolCall>,
}

impl View for GeminiStreamAccumulator {
    type V = ReaderView;

    closed spec fn view(&self) -> ReaderView {
        ReaderView {
            line: self.line_buffer@,
            data: text::views(self.event_data_lines@),
            calls: types::call_views(self.tool_calls@),
        }
    }
}

/// Where a reader starts.
pub open spec fn fresh_reader() -> ReaderView {
    ReaderView { line: Seq::empty(), data: Seq::empty(), calls: Seq::empty() }
}

/// Where reading goes on from: the reader's state and the events told before.
pub open spec fn reading_from(reader: ReaderView, events: Seq<EventView>) -> Reading {
    Reading { reader, events, error: None }
}

/// The error of a result.
pub open spec fn error_of(r: Result<(), FrameworkError>) -> Option<ErrorView> {
    match r {
        Ok(_) => None,
        Err(error) => Some(error@),
    }
}

impl Default for GeminiStreamAccumulator {
    fn default() -> (r: Self)
        ensures
            r@ == fresh_reader(),
    {
        let r = GeminiStreamAccumulator {
            line_buffer: String::new(),
            event_data_lines: Vec::new(),
            tool_calls: Vec::new(),
        };
        assert(r@ =~= fresh_reader());
        r
    }
}

impl GeminiStreamAccumulator {
    /// Reads the document of an event.
    pub fn process_document(&mut self, document: &Json, events: &mut Vec<StreamEvent>)
        requires
            document.wf(),
        ensures
            reading_from(final(self)@, types::event_views(final(events)@)) == read_document(
                reading_from(old(self)@, types::event_views(old(events)@)),
                document@,
            ),
    {
        let ghost start = reading_from(self@, types::event_views(events@));
        if let Some(parts) = first_candidate_parts(document) {
            let ghost whole = json::items_view(parts@);
            let mut i: usize = 0;
            assert(whole.take(0) =~= Seq::<JsonView>::empty());
            while i < parts.len()
                invariant
                    i <= parts@.len(),
                    json::all_wf(parts@),
                    whole == json::items_view(parts@),
                    reading_from(self@, types::event_views(events@)) == read_parts(
                        start,
                        whole.take(i as int),
                    ),
                decreases parts@.len() - i,
            {
                let part = &parts[i];
                let ghost before = types::event_views(events@);
                proof {
                    json::lemma_items(parts@);
                    assert(whole.take(i + 1).drop_last() =~= whole.take(i as int));
                    assert(whole.take(i + 1).last() == part@);
                }
                if let Some(delta) = part.text_at("text") {
                    if !delta.is_empty() {
                        events.push(StreamEvent::TextDelta(delta.to_owned()));
                        assert(types::event_views(events@) =~= before.push(
                            EventView::TextDelta(delta@),
                        ));
                    }
                }
                if let Some(tool_call) = parse_tool_call_part(part) {
                    stream::record_tool_call(&mut self.tool_calls, tool_call, events);
                }
                i = i + 1;
            }
            proof {
                json::lemma_items(parts@);
                assert(whole.take(i as int) =~= whole);
            }
        }
    }

    /// Reads the end of an event.
    pub fn flush_event(&mut self, events: &mut Vec<StreamEvent>) -> (r: Result<
        (),
        FrameworkError,
    >)
        ensures
            (Reading {
                reader: final(self)@,
                events: types::event_views(final(events)@),
                error: error_of(r),
            }) == read_event_end(reading_from(old(self)@, types::event_views(old(events)@))),
    {
        if self.event_data_lines.len() == 0 {
            return Ok(());
        }
        let payload = text::joined(&self.event_data_lines, "\n");
        self.event_data_lines = Vec::new();
        assert(self@.data =~= Seq::<Seq<char>>::empty());
        if text::same_text(text::trimmed(payload.as_str()).as_str(), "[DONE]") {
            return Ok(());
        }
        match Json::parse(payload.as_str()) {
            Ok(document) => {
                self.process_document(&document, events);
                Ok(())
            },
            Err(message) => Err(
                FrameworkError::Provider(
                    text::concat2("invalid gemini stream event: ", message.as_str()),
                ),
            ),
        }
    }

    /// Reads a line.
    pub fn process_line(&mut self, line: &str, events: &mut Vec<StreamEvent>) -> (r: Result<
        (),
        FrameworkError,
    >)
        ensures
            (Reading {
                reader: final(self)@,
                events: types::event_views(final(events)@),
                error: error_of(r),
            }) == read_line(reading_from(old(self)@, types::event_views(old(events)@)), line@),
    {
        if line.is_empty() {
            return self.flush_event(events);
        }
        if text::begins_with(line, "data:") {
            let ghost before = text::views(self.event_data_lines@);
            proof {
                reveal_strlit("data:");
            }
            let chars = text::chars_of(line);
            let data = text::string_of_range(&chars, 5, chars.len());
            assert(data@ =~= line@.skip(5));
            let kept = text::trim_start_class(data.as_str(), CharClass::White);
            self.event_data_lines.push(kept);
            assert(text::views(self.event_data_lines@) =~= before.push(kept@));
        }
        Ok(())
    }

    /// Reads a chunk of text.
    pub fn push_text(&mut self, chunk: &str, events: &mut Vec<StreamEvent>) -> (r: Result<
        (),
        FrameworkError,
    >)
        ensures
            (Reading {
                reader: final(self)@,
                events: types::event_views(final(events)@),
                error: error_of(r),
            }) == read_text(reading_from(old(self)@, types::event_views(old(events)@)), chunk@),
    {
        let ghost start = reading_from(self@, types::event_views(events@));
        let chars = text::chars_of(chunk);
        let mut failed: Option<FrameworkError> = None;
        let mut i: usize = 0;
        assert(chunk@.take(0) =~= Seq::<char>::empty());
        while i < chars.len()
            invariant
                i <= chars@.len(),
                chars@ == chunk@,
                (Reading {
                    reader: self@,
                    events: types::event_views(events@),
                    error: match failed {
                        Some(error) => Some(error@),
                        None => None,
                    },
                }) == read_text(start, chunk@.take(i as int)),
            decreases chars@.len() - i,
        {
            let c = chars[i];
            proof {
                assert(chunk@.take(i + 1).drop_last() =~= chunk@.take(i as int));
                assert(chunk@.take(i + 1).last() == c);
            }
            if c == '\n' && failed.is_none() {
                let buffered = text::chars_of(self.line_buffer.as_str());
                let line = text::without_cr(&buffered, 0, buffered.len());
                assert(buffered@.subrange(0, buffered@.len() as int) =~= buffered@);
                self.line_buffer = String::new();
                if let Err(error) = self.process_line(line.as_str(), events) {
                    failed = Some(error);
                }
            } else {
                self.line_buffer.push(c);
            }
            i = i + 1;
        }
        assert(chunk@.take(i as int) =~= chunk@);
        match failed {
            Some(error) => Err(error),
            None => Ok(()),
        }
    }

    /// Reads a chunk of bytes, which have to be UTF-8.
    pub fn push_bytes(&mut self, bytes: &[u8], events: &mut Vec<StreamEvent>) -> (r: Result<
        (),
        FrameworkError,
    >)
        ensures
            (Reading {
                reader: final(self)@,
                events: types::event_views(final(events)@),
                error: error_of(r),
            }) == (if vstd::utf8::valid_utf8(bytes@) {
                read_text(
                    reading_from(old(self)@, types::event_views(old(events)@)),
                    vstd::utf8::decode_utf8(bytes@),
                )
            } else {
                Reading {
                    error: Some(
                        ErrorView::Provider(
                            "invalid gemini stream bytes: "@ + stream::utf8_error(bytes@),
                        ),
                    ),
                    ..reading_from(old(self)@, types::event_views(old(events)@))
                }
            }),
    {
        match stream::text_of_bytes(bytes) {
            Ok(chunk) => self.push_text(chunk.as_str(), events),
            Err(message) => Err(
                FrameworkError::Provider(
                    text::concat2("invalid gemini stream bytes: ", message.as_str()),
                ),
            ),
        }
    }

    /// Reads the end of the stream.
    pub fn finish(self, events: &mut Vec<StreamEvent>) -> (r: Result<(), FrameworkError>)
        ensures
            ({
                let end = read_end(reading_from(self@, types::event_views(old(events)@)));
                types::event_views(final(events)@) == end.events && error_of(r) == end.error
            }),
    {
        let mut reader = self;
        if !reader.line_buffer.as_str().is_empty() {
            let buffered = text::chars_of(reader.line_buffer.as_str());
            let line = text::without_cr(&buffered, 0, buffered.len());
            assert(buffered@.subrange(0, buffered@.len() as int) =~= buffered@);
            reader.line_buffer = String::new();
            if let Err(error) = reader.process_line(line.as_str(), events) {
                return Err(error);
            }
        }
        if let Err(error) = reader.flush_event(events) {
            return Err(error);
        }
        types::push_complete_events(reader.tool_calls, events);
        let ghost before = types::event_views(events@);
        events.push(StreamEvent::Done);
        assert(types::event_views(events@) =~= before + seq![EventView::Done]);
        Ok(())
    }
}

/// What the body of an answer says; a body that is no document is an error.
pub open spec fn body_response(body: Seq<char>) -> Result<ResponseView, ErrorView> {
    match json::parsed_json(body) {
        Ok(document) => Ok(response_of(document)),
        Err(message) => Err(ErrorView::Provider("invalid gemini response: "@ + message)),
    }
}

impl GeminiProvider {
    /// What the body of an answer says.
    pub fn response_of_body(&self, body: &str) -> (r: Result<ProviderResponse, FrameworkError>)
        ensures
            stream::response_result(r) == body_response(body@),
    {
        match Json::parse(body) {
            Ok(document) => Ok(parse_provider_response(&document)),
            Err(message) => Err(
                FrameworkError::Provider(
                    text::concat2("invalid gemini response: ", message.as_str()),
                ),
            ),
        }
    }
}

/// The texts of parts, put end to end.
pub open spec fn spoken(parts: Seq<JsonView>) -> Seq<char>
    decreases parts.len(),
{
    if parts.len() == 0 {
        Seq::empty()
    } else {
        match parts.last().text_at("text"@) {
            Some(said) => spoken(parts.drop_last()) + said,
            None => spoken(parts.drop_last()),
        }
    }
}

/// The tool calls in parts, one after another.
pub open spec fn called(parts: Seq<JsonView>) -> Seq<CallView>
    decreases parts.len(),
{
    if parts.len() == 0 {
        Seq::empty()
    } else {
        match call_of(parts.last()) {
            Some(call) => called(parts.drop_last()).push(call),
            None => called(parts.drop_last()),
        }
    }
}

/// The text of a document that is streamed is told as it came, character for character: what its
/// parts say is put end to end behind what was told before.
pub proof fn law_streamed_text_is_told_as_it_came(reading: Reading, parts: Seq<JsonView>)
    ensures
        stream::told_text(read_parts(reading, parts).events) == stream::told_text(reading.events)
            + spoken(parts),
        read_parts(reading, parts).error == reading.error,
    decreases parts.len(),
{
    if parts.len() == 0 {
        assert(stream::told_text(reading.events) + spoken(parts) =~= stream::told_text(
            reading.events,
        ));
    } else {
        let before = read_parts(reading, parts.drop_last());
        law_streamed_text_is_told_as_it_came(reading, parts.drop_last());
        let part = parts.last();
        let told = match part.text_at("text"@) {
            Some(delta) => if delta.len() > 0 {
                before.events.push(EventView::TextDelta(delta))
            } else {
                before.events
            },
            None => before.events,
        };
        if let Some(delta) = part.text_at("text"@) {
            if delta.len() > 0 {
                assert(told.drop_last() =~= before.events);
            } else {
                assert(stream::told_text(before.events) + delta =~= stream::told_text(
                    before.events,
                ));
            }
            assert(stream::told_text(told) == stream::told_text(before.events) + delta);
            assert(stream::told_text(reading.events) + spoken(parts.drop_last()) + delta
                =~= stream::told_text(reading.events) + spoken(parts));
        }
        if let Some(call) = call_of(part) {
            let more = stream::record_events(before.reader.calls, call);
            stream::lemma_told_text(told, more);
            reveal_with_fuel(stream::told_text, 2);
            assert(stream::told_text(more) =~= Seq::<char>::empty());
            assert(stream::told_text(told) + stream::told_text(more) =~= stream::told_text(told));
        }
    }
}

/// The texts of an answer stand below each other, and its calls follow their order: with texts in
/// all parts the answer is their lines, and every part that asks for a call is one.
pub proof fn law_answers_say_what_their_parts_say(parts: Seq<JsonView>, texts: Seq<Seq<char>>)
    requires
        parts.len() > 0,
        texts.len() == parts.len(),
        forall|i: int|
            0 <= i < parts.len() ==> (#[trigger] parts[i]).text_at("text"@) == Some(texts[i])
                && texts[i].len() > 0,
    ensures
        parts_response(parts).output_text == Some(text::join(texts, "\n"@)),
        text::join(texts, "\n"@).len() > 0,
    decreases parts.len(),
{
    assert(parts[parts.len() - 1].text_at("text"@) == Some(texts[parts.len() - 1]));
    if parts.len() == 1 {
        assert(parts.drop_last().len() == 0);
        reveal_with_fuel(parts_response, 2);
        reveal_with_fuel(text::join, 2);
        assert(text::join(texts, "\n"@) =~= texts[0]);
    } else {
        let before = parts.drop_last();
        let earlier = texts.drop_last();
        assert forall|i: int| 0 <= i < before.len() implies (#[trigger] before[i]).text_at("text"@)
            == Some(earlier[i]) && earlier[i].len() > 0 by {
            assert(parts[i].text_at("text"@) == Some(texts[i]));
        }
        law_answers_say_what_their_parts_say(before, earlier);
    }
}

/// The calls of an answer are those that its parts ask for, in their order.
pub proof fn law_answers_call_what_their_parts_call(parts: Seq<JsonView>)
    ensures
        parts_response(parts).tool_calls == called(parts),
    decreases parts.len(),
{
    if parts.len() > 0 {
        law_answers_call_what_their_parts_call(parts.drop_last());
    }
}

/// The answer of a document is that of its first candidate.
pub proof fn law_the_first_candidate_answers(
    document: JsonView,
    candidates: Seq<JsonView>,
    content: JsonView,
    parts: Seq<JsonView>,
)
    requires
        document.get("candidates"@) == Some(JsonView::Array(candidates)),
        candidates.len() > 0,
        candidates[0].get("content"@) == Some(content),
        content.get("parts"@) == Some(JsonView::Array(parts)),
    ensures
        response_of(document) == parts_response(parts),
        forall|reading: Reading|
            #![trigger read_document(reading, document)]
            read_document(reading, document) == read_parts(reading, parts),
{
}

/// A call that is told to the model is read back as it is: its id, its name, and its arguments as a
/// document.
pub proof fn law_told_calls_are_read_back(call: CallView, args: JsonView)
    requires
        call.name.len() > 0,
    ensures
        call_of(call_part(call, args)) == Some(
            CallView { id: call.id, name: call.name, args_json: json::rendered_json(args) },
        ),
{
    reveal_strlit("id");
    reveal_strlit("name");
    reveal_strlit("args");
    reveal_strlit("callId");
    reveal_strlit("functionCall");
    assert("id"@.len() == 2 && "name"@.len() == 4 && "args"@.len() == 4 && "callId"@.len() == 6);
    assert("name"@[0] == 'n' && "args"@[0] == 'a');
    let told = call_part(call, args).get("functionCall"@);
    assert(told is Some);
    assert(told->Some_0.get("name"@) == Some(JsonView::Str(call.name)));
    assert(told->Some_0.get("args"@) == Some(args));
}

/// Every message with something to say is sent, in its order: one of the model's under the role
/// `model`, any other under `user`, with its text as it is.
pub proof fn law_conversations_are_sent_whole(history: Seq<MessageView>)
    requires
        forall|i: int|
            0 <= i < history.len() ==> (#[trigger] history[i]).tool_calls.len() == 0
                && history[i].tool_results.len() == 0 && !text::is_blank(history[i].content),
    ensures
        contents_of(history).len() == history.len(),
        forall|i: int|
            0 <= i < history.len() ==> {
                let sent = #[trigger] contents_of(history)[i];
                &&& sent.get("role"@) == Some(
                    JsonView::Str(
                        if history[i].role == Role::Assistant {
                            "model"@
                        } else {
                            "user"@
                        },
                    ),
                )
                &&& sent.array_at("parts"@) is Some
                &&& sent.array_at("parts"@)->Some_0.len() == 1
                &&& sent.array_at("parts"@)->Some_0[0].get("text"@) == Some(
                    JsonView::Str(history[i].content),
                )
            },
    decreases history.len(),
{
    reveal_strlit("role");
    reveal_strlit("parts");
    assert("role"@.len() == 4 && "parts"@.len() == 5);
    if history.len() > 0 {
        let before = history.drop_last();
        assert forall|i: int| 0 <= i < before.len() implies (#[trigger] before[i]).tool_calls.len()
            == 0 && before[i].tool_results.len() == 0 && !text::is_blank(before[i].content) by {
            assert(before[i] == history[i]);
        }
        law_conversations_are_sent_whole(before);
        assert(history[history.len() - 1] == history.last());
        assert forall|i: int| 0 <= i < history.len() implies ({
            let sent = #[trigger] contents_of(history)[i];
            &&& sent.get("role"@) == Some(
                JsonView::Str(
                    if history[i].role == Role::Assistant {
                        "model"@
                    } else {
                        "user"@
                    },
                ),
            )
            &&& sent.array_at("parts"@) is Some
            &&& sent.array_at("parts"@)->Some_0.len() == 1
            &&& sent.array_at("parts"@)->Some_0[0].get("text"@) == Some(
                JsonView::Str(history[i].content),
            )
        }) by {
            if i < before.len() {
                assert(contents_of(history)[i] == contents_of(before)[i]);
                assert(before[i] == history[i]);
            }
        }
    }
}

/// Every call and every result of a message is sent, in its order, with its id.
pub proof fn law_calls_and_results_are_sent_whole(message: MessageView, i: int)
    ensures
        message.tool_calls.len() > 0 ==> message_parts(message).len() == message.tool_calls.len(),
        0 <= i < message.tool_calls.len() ==> message_parts(message)[i] == call_part(
            message.tool_calls[i],
            match json::parsed_json(message.tool_calls[i].args_json) {
                Ok(args) => args,
                Err(_) => JsonView::Object(Map::empty()),
            },
        ),
        message.tool_calls.len() == 0 && message.tool_results.len() > 0 ==> message_parts(
            message,
        ).len() == message.tool_results.len(),
        message.tool_calls.len() == 0 && 0 <= i < message.tool_results.len() ==> {
            let result = message.tool_results[i];
            let told = message_parts(message)[i].get("functionResponse"@);
            &&& told is Some
            &&& told->Some_0.get("name"@) == Some(JsonView::Str(result.name))
            &&& told->Some_0.get("response"@) == Some(result.response)
            &&& result.call_id is Some ==> told->Some_0.get("id"@) == Some(
                JsonView::Str(result.call_id->Some_0),
            )
        },
{
    reveal_strlit("id");
    reveal_strlit("name");
    reveal_strlit("response");
    assert("id"@.len() == 2 && "name"@.len() == 4 && "response"@.len() == 8);
}

/// A request holds the prompt, the conversation and the tools as they are.
pub proof fn law_requests_hold_all(
    system_prompt: Seq<char>,
    contents: Seq<JsonView>,
    tools: Seq<DefinitionView>,
    i: int,
)
    ensures
        ({
            let body = request_body(system_prompt, contents, declarations(tools));
            let prompt = body.get("system_instruction"@);
            let offered = body.array_at("tools"@);
            &&& prompt is Some
            &&& prompt->Some_0.array_at("parts"@) is Some
            &&& prompt->Some_0.array_at("parts"@)->Some_0[0].get("text"@) == Some(
                JsonView::Str(system_prompt),
            )
            &&& body.array_at("contents"@) == Some(contents)
            &&& offered is Some
            &&& offered->Some_0.len() == 1
            &&& offered->Some_0[0].array_at("functionDeclarations"@) == Some(declarations(tools))
        }),
        declarations(tools).len() == tools.len(),
        0 <= i < tools.len() ==> {
            let tool = declarations(tools)[i];
            &&& tool.get("name"@) == Some(JsonView::Str(tools[i].name))
            &&& tool.get("description"@) == Some(JsonView::Str(tools[i].description))
            &&& json::parsed_json(tools[i].input_schema_json) is Ok ==> tool.get("parameters"@)
                == Some(json::parsed_json(tools[i].input_schema_json)->Ok_0)
        },
{
    reveal_strlit("system_instruction");
    reveal_strlit("contents");
    reveal_strlit("tools");
    reveal_strlit("name");
    reveal_strlit("description");
    reveal_strlit("parameters");
    assert("system_instruction"@.len() == 18 && "contents"@.len() == 8 && "tools"@.len() == 5);
    assert("name"@.len() == 4 && "description"@.len() == 11 && "parameters"@.len() == 10);
}

/// The data line of an event, read from the start of a line, is the document that it holds; the
/// line that ends a stream holds none.
pub proof fn law_data_lines_hold_documents(reading: Reading, payload: Seq<char>)
    requires
        reading.error is None,
        reading.reader.line.len() == 0,
        reading.reader.data.len() == 0,
        payload.len() > 0,
        !text::is_white(payload[0]),
        payload.last() != '\r',
        forall|i: int| 0 <= i < payload.len() ==> #[trigger] payload[i] != '\n',
    ensures
        ({
            let read = read_text(reading, "data: "@ + payload + seq!['\n', '\n']);
            &&& text::trim(payload) == "[DONE]"@ ==> read == reading
            &&& text::trim(payload) != "[DONE]"@ ==> match json::parsed_json(payload) {
                Ok(document) => read == read_document(reading, document),
                Err(_) => read.error is Some && read.events == reading.events,
            }
        }),
{
    reveal_strlit("data: ");
    reveal_strlit("data:");
    let line = "data: "@ + payload;
    let whole = line + seq!['\n', '\n'];
    assert(line.len() == payload.len() + 6);
    assert forall|i: int| 0 <= i < line.len() implies #[trigger] line[i] != '\n' by {
        if i >= 6 {
            assert(line[i] == payload[i - 6]);
        }
    }
    lemma_read_plain(reading, line);
    let at = read_text(reading, line);
    assert(at.reader.line =~= line);
    assert(text::strip_cr(line) == line) by {
        assert(line.last() == payload.last());
    }
    let first = line.push('\n');
    assert(first.drop_last() =~= line);
    assert(whole.drop_last() =~= first);
    assert(line.subrange(0, 5) =~= "data:"@);
    assert(line.skip(5) =~= seq![' '] + payload);
    assert((seq![' '] + payload).skip(1) =~= payload);
    reveal_with_fuel(text::trim_start_of, 3);
    assert(text::trim_start_of(seq![' '] + payload, CharClass::White) == payload);
    let one = read_text(reading, first);
    assert(one.reader.data =~= seq![payload]);
    reveal_with_fuel(text::join, 2);
    assert(text::join(seq![payload], "\n"@) =~= payload);
    assert(one.reader.line =~= Seq::<char>::empty());
    let cleared = Reading {
        reader: ReaderView { line: Seq::empty(), data: Seq::empty(), ..one.reader },
        ..one
    };
    assert(reading.reader.line =~= Seq::<char>::empty());
    assert(reading.reader.data =~= Seq::<Seq<char>>::empty());
    assert(cleared =~= reading);
    assert(text::strip_cr(Seq::<char>::empty()) =~= Seq::<char>::empty());
}

/// Text without the end of a line is kept until it comes.
proof fn lemma_read_plain(reading: Reading, line: Seq<char>)
    requires
        reading.error is None,
        forall|i: int| 0 <= i < line.len() ==> #[trigger] line[i] != '\n',
    ensures
        read_text(reading, line) == (Reading {
            reader: ReaderView { line: reading.reader.line + line, ..reading.reader },
            ..reading
        }),
    decreases line.len(),
{
    if line.len() == 0 {
        assert(reading.reader.line + line =~= reading.reader.line);
    } else {
        let before = line.drop_last();
        assert forall|i: int| 0 <= i < before.len() implies #[trigger] before[i] != '\n' by {
            assert(before[i] == line[i]);
        }
        lemma_read_plain(reading, before);
        assert(line[line.len() - 1] != '\n');
        assert((reading.reader.line + before).push(line.last()) =~= reading.reader.line + line);
    }
}

/// A stream that ends tells all its tool calls as complete, and its end last.
pub proof fn law_streams_end_with_their_calls(reading: Reading)
    requires
        reading.error is None,
        reading.reader.line.len() == 0,
        reading.reader.data.len() == 0,
    ensures
        read_end(reading).error is None,
        read_end(reading).events.last() == EventView::Done,
        stream::told_calls(read_end(reading).events) == stream::told_calls(reading.events)
            + reading.reader.calls,
        stream::told_text(read_end(reading).events) == stream::told_text(reading.events),
{
    let told = reading.events + types::complete_events(reading.reader.calls);
    let all = told + seq![EventView::Done];
    stream::lemma_told_text(reading.events, types::complete_events(reading.reader.calls));
    stream::lemma_told_complete(reading.reader.calls);
    assert(all.drop_last() =~= told);
    assert(stream::told_text(reading.events) + Seq::<char>::empty() =~= stream::told_text(
        reading.events,
    ));
}

/// The refusal of a request is summed up by its status and its message.
pub proof fn law_refusals_name_status_and_message(
    document: JsonView,
    error: JsonView,
    status: Seq<char>,
    message: Seq<char>,
)
    requires
        document.get("error"@) == Some(error),
        error is Object,
        error.text_at("status"@) == Some(status),
        error.text_at("message"@) == Some(message),
        message.len() > 0,
    ensures
        error_summary(document) == Some(
            if status.len() > 0 {
                status + ": "@ + message
            } else {
                message
            },
        ),
{
}

/// A body is read as the document that it writes, and is an error where it writes none.
pub proof fn law_answers_are_read_from_their_body(body: Seq<char>)
    ensures
        json::parsed_json(body) is Ok ==> body_response(body) == Ok::<ResponseView, ErrorView>(
            response_of(json::parsed_json(body)->Ok_0),
        ),
        json::parsed_json(body) is Err ==> body_response(body) is Err,
{
}

/// A model is asked under its own name, at the address that was set up, with or without a slash at
/// its end.
pub proof fn law_models_are_asked_by_name(base: Seq<char>, model: Seq<char>, method: Seq<char>)
    requires
        base.len() > 0,
        base.last() != '/',
    ensures
        method_url(base, model, method) == base + "/models/"@ + model + ":"@ + method,
        method_url(base.push('/'), model, method) == base + "/models/"@ + model + ":"@ + method,
{
    assert(base.push('/').drop_last() =~= base);
    assert(text::trim_end_of(base, CharClass::Only('/')) == base);
    assert(text::trim_end_of(base.push('/'), CharClass::Only('/')) == base);
}

/// What a refusal holds is told: its status and its message, else the start of what came, and that
/// nothing came where it is so.
pub proof fn law_refusals_are_told(body: Seq<char>)
    ensures
        text::is_blank(body) ==> error_body_summary(body) == "empty response body"@,
        !text::is_blank(body) && json::parsed_json(text::trim(body)) is Ok ==> (error_summary(
            json::parsed_json(text::trim(body))->Ok_0,
        ) matches Some(summary) ==> error_body_summary(body) == summary),
        !text::is_blank(body) && json::parsed_json(text::trim(body)) is Err && text::trim(body).len()
            <= ERROR_BODY_PREVIEW_CHARS ==> error_body_summary(body) == text::trim(body),
{
}

/// A tool is offered under its name, with what it is for and what it takes; an answer of a tool is
/// sent with its name and its id.
pub proof fn law_tools_are_offered_as_they_are(
    tool: DefinitionView,
    schema: JsonView,
    result: ResultView,
)
    ensures
        declaration(tool, schema).get("name"@) == Some(JsonView::Str(tool.name)),
        declaration(tool, schema).get("description"@) == Some(JsonView::Str(tool.description)),
        declaration(tool, schema).get("parameters"@) == Some(schema),
        result_part(result).get("functionResponse"@) is Some,
        result_part(result).get("functionResponse"@)->0.get("name"@) == Some(
            JsonView::Str(result.name),
        ),
        result_part(result).get("functionResponse"@)->0.get("response"@) == Some(result.response),
        result.call_id is Some ==> result_part(result).get("functionResponse"@)->0.get("id"@)
            == Some(JsonView::Str(result.call_id->0)),
        result.call_id is None ==> result_part(result).get("functionResponse"@)->0.get("id"@)
            is None,
{
    reveal_strlit("name");
    reveal_strlit("description");
    reveal_strlit("parameters");
    reveal_strlit("response");
    reveal_strlit("id");
    assert("name"@.len() == 4);
    assert("description"@.len() == 11);
    assert("parameters"@.len() == 10);
    assert("response"@.len() == 8);
    assert("id"@.len() == 2);
}

/// A text that comes in chunks is read as if it came at once.
pub proof fn law_chunks_are_read_as_one_text(
    accumulator: &mut GeminiStreamAccumulator,
    chunk: &str,
    events: &mut Vec<StreamEvent>,
    r: Result<(), FrameworkError>,
    rest: Seq<char>,
)
    requires
        call_ensures(GeminiStreamAccumulator::push_text, (accumulator, chunk, events), r),
        r is Ok,
    ensures
        read_text(
            reading_from(old(accumulator)@, types::event_views(old(events)@)),
            chunk@ + rest,
        ) == read_text(
            reading_from(final(accumulator)@, types::event_views(final(events)@)),
            rest,
        ),
{
    law_chunks_do_not_matter(
        reading_from(old(accumulator)@, types::event_views(old(events)@)),
        chunk@,
        rest,
    );
}

} // verus!
