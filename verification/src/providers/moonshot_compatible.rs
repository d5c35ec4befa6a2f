//! The Moonshot provider: requests and answers.
use vstd::prelude::*;
use crate::config::{MoonshotProviderConfig, ProviderAuthMode};
use crate::error::{ErrorView, FrameworkError};
use crate::error;
use crate::json::{Json, JsonView};
use crate::json;
use crate::providers::gemini;
use crate::providers::stream;
use crate::providers::types::{
    CallView,
    DefinitionView,
    Message,
    MessageView,
    ProviderResponse,
    ResponseView,
    ResultView,
    Role,
    ToolCall,
    ToolDefinition,
    ToolResult,
};
use crate::providers::types;
use crate::text::CharClass;
use crate::text;

verus! {

/// A provider that speaks the chat completion protocol.
pub struct MoonshotCompatibleProvider {
    model: String,
    api_base: String,
    api_key: String,
    provider_name: &'static str,
}

/// The settings that a provider has from its configuration.
pub struct SettingsView {
    pub model: Seq<char>,
    pub api_base: Seq<char>,
    pub api_key: Seq<char>,
    pub provider_name: Seq<char>,
}

impl View for MoonshotCompatibleProvider {
    type V = SettingsView;

    closed spec fn view(&self) -> SettingsView {
        SettingsView {
            model: self.model@,
            api_base: self.api_base@,
            api_key: self.api_key@,
            provider_name: self.provider_name@,
        }
    }
}

/// The provider that a configuration describes: it needs a key that is not blank.
pub open spec fn configured(config: MoonshotProviderConfig) -> Result<SettingsView, ErrorView> {
    if config.mode == ProviderAuthMode::Oauth {
        Err(ErrorView::Config("moonshot mode oauth is not supported"@))
    } else if config.api_key is None || text::is_blank(config.api_key->0@) {
        Err(
            ErrorView::Config(
                "missing provider API key: set providers.entries.<key>.api_key to a ${secret:<name>} reference"@,
            ),
        )
    } else {
        Ok(
            SettingsView {
                model: config.model@,
                api_base: config.api_base@,
                api_key: config.api_key->0@,
                provider_name: "moonshot"@,
            },
        )
    }
}

/// What a result with a provider says.
pub open spec fn provider_result(r: Result<MoonshotCompatibleProvider, FrameworkError>) -> Result<
    SettingsView,
    ErrorView,
> {
    match r {
        Ok(provider) => Ok(provider@),
        Err(error) => Err(error@),
    }
}

impl MoonshotCompatibleProvider {
    /// The provider that a configuration describes.
    pub fn from_moonshot_config(_provider_key: &str, config: MoonshotProviderConfig) -> (r: Result<
        Self,
        FrameworkError,
    >)
        ensures
            provider_result(r) == configured(config),
    {
        match config.mode {
            ProviderAuthMode::Oauth => {
                return Err(error::config_error("moonshot mode oauth is not supported"));
            },
            ProviderAuthMode::ApiKey => {},
        }
        match config.api_key {
            Some(key) => if !text::blank(key.as_str()) {
                return Ok(
                    Self {
                        model: config.model,
                        api_base: config.api_base,
                        api_key: key,
                        provider_name: "moonshot",
                    },
                );
            },
            None => {},
        }
        Err(
            error::config_error(
                "missing provider API key: set providers.entries.<key>.api_key to a ${secret:<name>} reference",
            ),
        )
    }

    /// Where an answer is asked for.
    pub fn endpoint(&self) -> (r: String)
        ensures
            r@ == text::trim_end_of(self@.api_base, CharClass::Only('/')) + "/chat/completions"@,
    {
        let base = text::trim_end_class(self.api_base.as_str(), CharClass::Only('/'));
        text::concat2(base.as_str(), "/chat/completions")
    }

    /// The token that a request carries.
    pub fn bearer_token(&self) -> (r: String)
        ensures
            r@ == self@.api_key,
    {
        self.api_key.clone()
    }

    /// The body of a request.
    pub fn request_body(
        &self,
        system_prompt: &str,
        history: &[Message],
        tools: &[ToolDefinition],
    ) -> (r: Json)
        requires
            types::history_wf(history@),
        ensures
            r@ == chat_request(
                self@.model,
                chat_messages(system_prompt@, types::message_views(history@)),
                tool_specs(types::definition_views(tools@)),
            ),
            r.wf(),
    {
        let messages = build_messages(system_prompt, history);
        let specs = build_tool_specs(tools);
        let body = Json::object().with("model", Json::text(self.model.as_str())).with(
            "messages",
            Json::array(messages),
        );
        proof {
            json::lemma_items(specs@);
        }
        if specs.len() == 0 {
            body
        } else {
            body.with("tools", Json::array(specs)).with("tool_choice", Json::text("auto"))
        }
    }

    /// The error of a request that could not be sent.
    pub fn request_failed(&self, message: &str) -> (r: FrameworkError)
        ensures
            r@ == ErrorView::Provider(self@.provider_name + " request failed: "@ + message@),
    {
        FrameworkError::Provider(text::concat3(self.provider_name, " request failed: ", message))
    }

    /// The error of a request that was refused.
    pub fn returned_error(&self, message: &str) -> (r: FrameworkError)
        ensures
            r@ == ErrorView::Provider(self@.provider_name + " returned error: "@ + message@),
    {
        FrameworkError::Provider(text::concat3(self.provider_name, " returned error: ", message))
    }

    /// The error of an answer that is no document.
    pub fn invalid_response(&self, message: &str) -> (r: FrameworkError)
        ensures
            r@ == ErrorView::Provider(
                "invalid "@ + self@.provider_name + " response: "@ + message@,
            ),
    {
        let head = text::concat3("invalid ", self.provider_name, " response: ");
        FrameworkError::Provider(text::concat2(head.as_str(), message))
    }
}

/// The id of a call, or one made from its name.
pub open spec fn id_or_name(id: Option<Seq<char>>, name: Seq<char>) -> Seq<char> {
    match id {
        Some(id) => id,
        None => "call_"@ + name,
    }
}

/// How a call is told.
pub open spec fn told_call(call: CallView) -> JsonView {
    JsonView::Object(
        map![
            "id"@ => JsonView::Str(id_or_name(call.id, call.name)),
            "type"@ => JsonView::Str("function"@),
            "function"@ => JsonView::Object(
                map![
                    "name"@ => JsonView::Str(call.name),
                    "arguments"@ => JsonView::Str(call.args_json),
                ],
            ),
        ],
    )
}

/// The message of an assistant that calls tools.
pub open spec fn calls_message(content: Seq<char>, calls: Seq<CallView>) -> JsonView {
    JsonView::Object(
        map![
            "role"@ => JsonView::Str("assistant"@),
            "content"@ => if text::is_blank(content) {
                JsonView::Null
            } else {
                JsonView::Str(content)
            },
            "tool_calls"@ => JsonView::Array(Seq::new(calls.len(), |i: int| told_call(calls[i]))),
        ],
    )
}

/// The message with the result of a call, given how the result is written.
pub open spec fn result_message(result: ResultView, content: Seq<char>) -> JsonView {
    JsonView::Object(
        map![
            "role"@ => JsonView::Str("tool"@),
            "tool_call_id"@ => JsonView::Str(id_or_name(result.call_id, result.name)),
            "name"@ => JsonView::Str(result.name),
            "content"@ => JsonView::Str(content),
        ],
    )
}

/// A message of text.
pub open spec fn text_message(role: Seq<char>, content: Seq<char>) -> JsonView {
    JsonView::Object(
        map!["role"@ => JsonView::Str(role), "content"@ => JsonView::Str(content)],
    )
}

/// How a role is called.
pub open spec fn role_name(role: Role) -> Seq<char> {
    match role {
        Role::System => "system"@,
        Role::User => "user"@,
        Role::Assistant => "assistant"@,
        Role::Tool => "user"@,
    }
}

/// The messages that stand for one: its calls, or else its results, or else its text.
pub open spec fn messages_of(message: MessageView) -> Seq<JsonView> {
    if message.tool_calls.len() > 0 {
        seq![calls_message(message.content, message.tool_calls)]
    } else if message.tool_results.len() > 0 {
        Seq::new(
            message.tool_results.len(),
            |i: int|
                result_message(
                    message.tool_results[i],
                    json::rendered_json(message.tool_results[i].response),
                ),
        )
    } else if text::is_blank(message.content) {
        Seq::empty()
    } else {
        seq![text_message(role_name(message.role), message.content)]
    }
}

/// The messages that stand for a conversation.
pub open spec fn history_messages(history: Seq<MessageView>) -> Seq<JsonView>
    decreases history.len(),
{
    if history.len() == 0 {
        Seq::empty()
    } else {
        history_messages(history.drop_last()) + messages_of(history.last())
    }
}

/// The messages of a request: the system prompt where it is not blank, then the conversation.
pub open spec fn chat_messages(system_prompt: Seq<char>, history: Seq<MessageView>) -> Seq<
    JsonView,
> {
    (if text::is_blank(system_prompt) {
        Seq::empty()
    } else {
        seq![text_message("system"@, system_prompt)]
    }) + history_messages(history)
}

/// The specification of a tool with the given schema.
pub open spec fn tool_spec(tool: DefinitionView, schema: JsonView) -> JsonView {
    JsonView::Object(
        map![
            "type"@ => JsonView::Str("function"@),
            "function"@ => gemini::declaration(tool, schema),
        ],
    )
}

/// The specifications of the tools.
pub open spec fn tool_specs(tools: Seq<DefinitionView>) -> Seq<JsonView> {
    Seq::new(
        tools.len(),
        |i: int|
            tool_spec(
                tools[i],
                gemini::parsed_or(tools[i].input_schema_json, gemini::plain_object_schema()),
            ),
    )
}

/// The body of a request.
pub open spec fn chat_request(
    model: Seq<char>,
    messages: Seq<JsonView>,
    tools: Seq<JsonView>,
) -> JsonView {
    let body = map!["model"@ => JsonView::Str(model), "messages"@ => JsonView::Array(messages)];
    JsonView::Object(
        if tools.len() == 0 {
            body
        } else {
            body.insert("tools"@, JsonView::Array(tools)).insert(
                "tool_choice"@,
                JsonView::Str("auto"@),
            )
        },
    )
}

/// The id of a call, or one made from its name.
fn id_or_named(id: &Option<String>, name: &str) -> (r: String)
    ensures
        r@ == id_or_name(text::opt_view(*id), name@),
{
    match id {
        Some(id) => id.clone(),
        None => text::concat2("call_", name),
    }
}

/// The message of an assistant that calls tools.
fn tool_calls_message(content: &str, calls: &Vec<ToolCall>) -> (r: Json)
    ensures
        r@ == calls_message(content@, types::call_views(calls@)),
        r.wf(),
{
    let ghost views = types::call_views(calls@);
    let ghost whole = Seq::new(views.len(), |i: int| told_call(views[i]));
    let mut told: Vec<Json> = Vec::new();
    let mut i: usize = 0;
    assert(whole.take(0) =~= Seq::<JsonView>::empty());
    while i < calls.len()
        invariant
            i <= calls@.len(),
            views == types::call_views(calls@),
            whole == Seq::new(views.len(), |i: int| told_call(views[i])),
            json::items_view(told@) == whole.take(i as int),
            json::all_wf(told@),
        decreases calls@.len() - i,
    {
        let call = &calls[i];
        let function = Json::object().with("name", Json::text(call.name.as_str())).with(
            "arguments",
            Json::text(call.args_json.as_str()),
        );
        let id = id_or_named(&call.id, call.name.as_str());
        let item = Json::object().with("id", Json::text(id.as_str())).with(
            "type",
            Json::text("function"),
        ).with("function", function);
        json::push_item(&mut told, item);
        i = i + 1;
        assert(whole.take(i as int) =~= whole.take(i - 1).push(whole[i - 1]));
    }
    assert(whole.take(i as int) =~= whole);
    let said = if text::blank(content) {
        Json::Null
    } else {
        Json::text(content)
    };
    Json::object().with("role", Json::text("assistant")).with("content", said).with(
        "tool_calls",
        Json::array(told),
    )
}

/// The message with the result of a call, given how the result is written.
pub fn tool_result_message(result: &ToolResult, content: &str) -> (r: Json)
    ensures
        r@ == result_message(result@, content@),
        r.wf(),
{
    let id = id_or_named(&result.call_id, result.name.as_str());
    Json::object().with("role", Json::text("tool")).with(
        "tool_call_id",
        Json::text(id.as_str()),
    ).with("name", Json::text(result.name.as_str())).with("content", Json::text(content))
}

/// Appends the messages that stand for one.
fn push_messages(message: &Message, messages: &mut Vec<Json>)
    requires
        types::message_wf(*message),
        json::all_wf(old(messages)@),
    ensures
        json::items_view(final(messages)@) == json::items_view(old(messages)@) + messages_of(
            message@,
        ),
        json::all_wf(final(messages)@),
{
    let ghost start = json::items_view(messages@);
    let ghost whole = messages_of(message@);
    if message.tool_calls.len() > 0 {
        json::push_item(
            messages,
            tool_calls_message(message.content.as_str(), &message.tool_calls),
        );
        assert(json::items_view(messages@) =~= start + whole);
        return ;
    }
    if message.tool_results.len() > 0 {
        let mut i: usize = 0;
        assert(start + whole.take(0) =~= start);
        while i < message.tool_results.len()
            invariant
                i <= message.tool_results@.len(),
                message.tool_calls@.len() == 0,
                message.tool_results@.len() > 0,
                types::message_wf(*message),
                whole == messages_of(message@),
                json::items_view(messages@) == start + whole.take(i as int),
                json::all_wf(messages@),
            decreases message.tool_results@.len() - i,
        {
            let result = &message.tool_results[i];
            assert(message.tool_results@[i as int].response.wf());
            assert(message@.tool_results[i as int] == result@);
            json::push_item(messages, tool_result_message(result, result.response.render().as_str()));
            i = i + 1;
            assert(start + whole.take(i as int) =~= (start + whole.take(i - 1)).push(whole[i - 1]));
        }
        assert(whole.take(i as int) =~= whole);
        return ;
    }
    if text::blank(message.content.as_str()) {
        assert(start + whole =~= start);
        return ;
    }
    let role = match message.role {
        Role::System => "system",
        Role::User => "user",
        Role::Assistant => "assistant",
        Role::Tool => "user",
    };
    let said = Json::object().with("role", Json::text(role)).with(
        "content",
        Json::text(message.content.as_str()),
    );
    json::push_item(messages, said);
    assert(json::items_view(messages@) =~= start + whole);
}

/// The messages of a request.
pub fn build_messages(system_prompt: &str, history: &[Message]) -> (r: Vec<Json>)
    requires
        types::history_wf(history@),
    ensures
        json::items_view(r@) == chat_messages(system_prompt@, types::message_views(history@)),
        json::all_wf(r@),
{
    let ghost whole = types::message_views(history@);
    let mut messages: Vec<Json> = Vec::new();
    if !text::blank(system_prompt) {
        let prompt = Json::object().with("role", Json::text("system")).with(
            "content",
            Json::text(system_prompt),
        );
        json::push_item(&mut messages, prompt);
        assert(json::items_view(messages@) =~= seq![text_message("system"@, system_prompt@)]);
    }
    let ghost head = json::items_view(messages@);
    let mut i: usize = 0;
    assert(head + history_messages(whole.take(0)) =~= head);
    while i < history.len()
        invariant
            i <= history@.len(),
            types::history_wf(history@),
            whole == types::message_views(history@),
            json::items_view(messages@) == head + history_messages(whole.take(i as int)),
            json::all_wf(messages@),
        decreases history@.len() - i,
    {
        let message = &history[i];
        assert(types::message_wf(history@[i as int]));
        assert(whole.take(i + 1).drop_last() =~= whole.take(i as int));
        assert(whole.take(i + 1).last() == message@);
        push_messages(message, &mut messages);
        assert((head + history_messages(whole.take(i as int))) + messages_of(message@) =~= head
            + history_messages(whole.take(i + 1)));
        i = i + 1;
    }
    assert(whole.take(i as int) =~= whole);
    messages
}

/// The specification of a tool with the given schema.
pub fn tool_specification(tool: &ToolDefinition, schema: Json) -> (r: Json)
    requires
        schema.wf(),
    ensures
        r@ == tool_spec(tool@, schema@),
        r.wf(),
{
    Json::object().with("type", Json::text("function")).with(
        "function",
        gemini::function_declaration(tool, schema),
    )
}

/// The specifications of the tools.
pub fn build_tool_specs(tools: &[ToolDefinition]) -> (r: Vec<Json>)
    ensures
        json::items_view(r@) == tool_specs(types::definition_views(tools@)),
        json::all_wf(r@),
{
    let ghost whole = tool_specs(types::definition_views(tools@));
    let mut specs: Vec<Json> = Vec::new();
    let mut i: usize = 0;
    assert(whole.take(0) =~= Seq::<JsonView>::empty());
    while i < tools.len()
        invariant
            i <= tools@.len(),
            whole == tool_specs(types::definition_views(tools@)),
            json::items_view(specs@) == whole.take(i as int),
            json::all_wf(specs@),
        decreases tools@.len() - i,
    {
        let tool = &tools[i];
        let plain = Json::object().with("type", Json::text("object"));
        let schema = gemini::parse_or(tool.input_schema_json.as_str(), plain);
        json::push_item(&mut specs, tool_specification(tool, schema));
        i = i + 1;
        assert(whole.take(i as int) =~= whole.take(i - 1).push(whole[i - 1]));
    }
    assert(whole.take(i as int) =~= whole);
    specs
}

/// The trimmed texts of the parts, without the blank ones.
pub open spec fn part_texts(parts: Seq<JsonView>) -> Seq<Seq<char>>
    decreases parts.len(),
{
    if parts.len() == 0 {
        Seq::empty()
    } else {
        let before = part_texts(parts.drop_last());
        match parts.last().text_at("text"@) {
            Some(said) => if text::is_blank(said) {
                before
            } else {
                before.push(text::trim(said))
            },
            None => before,
        }
    }
}

/// The text of a content: the content itself, or the texts of its parts, one per line.
pub open spec fn content_text(content: JsonView) -> Option<Seq<char>> {
    match content {
        JsonView::Str(said) => if text::is_blank(said) {
            None
        } else {
            Some(said)
        },
        JsonView::Array(parts) => if part_texts(parts).len() == 0 {
            None
        } else {
            Some(text::join(part_texts(parts), "\n"@))
        },
        _ => None,
    }
}

/// The text of a content.
pub fn parse_content(content: &Json) -> (r: Option<String>)
    requires
        content.wf(),
    ensures
        text::opt_view(r) == content_text(content@),
{
    if let Some(said) = content.as_str() {
        return if text::blank(said) {
            None
        } else {
            Some(said.to_owned())
        };
    }
    if let Some(parts) = content.as_array() {
        let ghost whole = json::items_view(parts@);
        let mut merged: Vec<String> = Vec::new();
        let mut i: usize = 0;
        proof {
            json::lemma_items(parts@);
            assert(text::views(merged@) =~= part_texts(whole.take(0)));
        }
        while i < parts.len()
            invariant
                i <= parts@.len(),
                json::all_wf(parts@),
                whole == json::items_view(parts@),
                text::views(merged@) == part_texts(whole.take(i as int)),
            decreases parts@.len() - i,
        {
            let ghost before = text::views(merged@);
            proof {
                json::lemma_items(parts@);
                assert(whole.take(i + 1).drop_last() =~= whole.take(i as int));
                assert(whole.take(i + 1).last() == parts@[i as int]@);
            }
            if let Some(said) = parts[i].text_at("text") {
                if !text::blank(said) {
                    let trimmed = text::trimmed(said);
                    merged.push(trimmed);
                    assert(text::views(merged@) =~= before.push(trimmed@));
                }
            }
            i = i + 1;
        }
        proof {
            json::lemma_items(parts@);
            assert(whole.take(i as int) =~= whole);
        }
        if merged.len() == 0 {
            return None;
        }
        return Some(text::joined(&merged, "\n"));
    }
    None
}

/// The message of the first choice.
pub open spec fn answer_message(response: JsonView) -> Option<JsonView> {
    match response.array_at("choices"@) {
        Some(choices) => if choices.len() == 0 {
            None
        } else {
            choices[0].get("message"@)
        },
        None => None,
    }
}

/// The arguments of a call: a text as it stands, anything else as it is written.
pub open spec fn call_arguments(arguments: Option<JsonView>) -> Seq<char> {
    match arguments {
        Some(JsonView::Str(raw)) => raw,
        Some(other) => json::rendered_json(other),
        None => "{}"@,
    }
}

/// The call that an item tells, unless it names no tool.
pub open spec fn call_of(item: JsonView) -> Option<CallView> {
    let function = item.get("function"@);
    let name = match function {
        Some(function) => gemini::or_empty(function.text_at("name"@)),
        None => Seq::empty(),
    };
    if name.len() == 0 {
        None
    } else {
        Some(
            CallView {
                id: item.text_at("id"@),
                name,
                args_json: call_arguments(
                    match function {
                        Some(function) => function.get("arguments"@),
                        None => None,
                    },
                ),
            },
        )
    }
}

/// The calls that items tell.
pub open spec fn calls_of(items: Seq<JsonView>) -> Seq<CallView>
    decreases items.len(),
{
    if items.len() == 0 {
        Seq::empty()
    } else {
        let before = calls_of(items.drop_last());
        match call_of(items.last()) {
            Some(call) => before.push(call),
            None => before,
        }
    }
}

/// What a document answers.
pub open spec fn response_of(response: JsonView) -> ResponseView {
    match answer_message(response) {
        Some(message) => ResponseView {
            output_text: match message.get("content"@) {
                Some(content) => content_text(content),
                None => None,
            },
            tool_calls: match message.array_at("tool_calls"@) {
                Some(items) => calls_of(items),
                None => Seq::empty(),
            },
        },
        None => ResponseView { output_text: None, tool_calls: Seq::empty() },
    }
}

/// The call that an item tells.
pub fn parse_tool_call(item: &Json) -> (r: Option<ToolCall>)
    requires
        item.wf(),
    ensures
        gemini::opt_call(r) == call_of(item@),
{
    let function = match item.get("function") {
        Some(function) => function,
        None => {
            return None;
        },
    };
    let name = match function.text_at("name") {
        Some(name) => name,
        None => {
            return None;
        },
    };
    if name.is_empty() {
        return None;
    }
    let args_json = match function.get("arguments") {
        Some(arguments) => match arguments.as_str() {
            Some(raw) => raw.to_owned(),
            None => arguments.render(),
        },
        None => "{}".to_owned(),
    };
    Some(ToolCall { id: gemini::owned(item.text_at("id")), name: name.to_owned(), args_json })
}

/// The calls that items tell.
fn parse_tool_calls(items: &Vec<Json>) -> (r: Vec<ToolCall>)
    requires
        json::all_wf(items@),
    ensures
        types::call_views(r@) == calls_of(json::items_view(items@)),
{
    let ghost whole = json::items_view(items@);
    let mut calls: Vec<ToolCall> = Vec::new();
    let mut i: usize = 0;
    proof {
        json::lemma_items(items@);
        assert(types::call_views(calls@) =~= calls_of(whole.take(0)));
    }
    while i < items.len()
        invariant
            i <= items@.len(),
            json::all_wf(items@),
            whole == json::items_view(items@),
            types::call_views(calls@) == calls_of(whole.take(i as int)),
        decreases items@.len() - i,
    {
        let ghost before = types::call_views(calls@);
        proof {
            json::lemma_items(items@);
            assert(whole.take(i + 1).drop_last() =~= whole.take(i as int));
            assert(whole.take(i + 1).last() == items@[i as int]@);
        }
        if let Some(call) = parse_tool_call(&items[i]) {
            calls.push(call);
            assert(types::call_views(calls@) =~= before.push(call@));
        }
        i = i + 1;
    }
    proof {
        json::lemma_items(items@);
        assert(whole.take(i as int) =~= whole);
    }
    calls
}

/// What a document answers.
pub fn parse_provider_response(response: &Json) -> (r: ProviderResponse)
    requires
        response.wf(),
    ensures
        r@ == response_of(response@),
{
    let mut message: Option<&Json> = None;
    if let Some(choices) = response.array_at("choices") {
        proof {
            json::lemma_items(choices@);
        }
        if choices.len() > 0 {
            message = choices[0].get("message");
        }
    }
    match message {
        Some(message) => {
            let output_text = match message.get("content") {
                Some(content) => parse_content(content),
                None => None,
            };
            let tool_calls = match message.array_at("tool_calls") {
                Some(items) => parse_tool_calls(items),
                None => Vec::new(),
            };
            let r = ProviderResponse { output_text, tool_calls };
            assert(message@.array_at("tool_calls"@) is None ==> r@.tool_calls =~= Seq::<
                CallView,
            >::empty());
            r
        },
        None => {
            let r = ProviderResponse { output_text: None, tool_calls: Vec::new() };
            assert(r@.tool_calls =~= Seq::<CallView>::empty());
            r
        },
    }
}

/// What the body of an answer of a provider says; a body that is no document is an error.
pub open spec fn body_response(provider_name: Seq<char>, body: Seq<char>) -> Result<
    ResponseView,
    ErrorView,
> {
    match json::parsed_json(body) {
        Ok(document) => Ok(response_of(document)),
        Err(message) => Err(
            ErrorView::Provider("invalid "@ + provider_name + " response: "@ + message),
        ),
    }
}

impl MoonshotCompatibleProvider {
    /// What the body of an answer says.
    pub fn response_of_body(&self, body: &str) -> (r: Result<ProviderResponse, FrameworkError>)
        ensures
            stream::response_result(r) == body_response(self@.provider_name, body@),
    {
        match Json::parse(body) {
            Ok(document) => Ok(parse_provider_response(&document)),
            Err(message) => Err(self.invalid_response(message.as_str())),
        }
    }
}

/// A call that is told to the model is read back as it is: its name, its arguments, and its id, or
/// one made of its name.
pub proof fn law_told_calls_are_read_back(call: CallView)
    requires
        call.name.len() > 0,
    ensures
        call_of(told_call(call)) == Some(
            CallView {
                id: Some(
                    match call.id {
                        Some(id) => id,
                        None => "call_"@ + call.name,
                    },
                ),
                name: call.name,
                args_json: call.args_json,
            },
        ),
{
    lemma_keys();
    let function = told_call(call).get("function"@);
    assert(function is Some);
    assert(function->Some_0.get("name"@) == Some(JsonView::Str(call.name)));
    assert(function->Some_0.get("arguments"@) == Some(JsonView::Str(call.args_json)));
    assert(told_call(call).get("id"@) is Some);
}

/// The keys of the documents differ.
proof fn lemma_keys()
    ensures
        "id"@.len() == 2,
        "type"@.len() == 4 && "type"@[0] == 't',
        "role"@.len() == 4 && "role"@[0] == 'r',
        "name"@.len() == 4 && "name"@[0] == 'n',
        "tools"@.len() == 5 && "tools"@[0] == 't',
        "model"@.len() == 5 && "model"@[0] == 'm',
        "content"@.len() == 7,
        "messages"@.len() == 8 && "messages"@[0] == 'm',
        "function"@.len() == 8 && "function"@[0] == 'f',
        "arguments"@.len() == 9,
        "tool_calls"@.len() == 10,
        "tool_choice"@.len() == 11,
        "tool_call_id"@.len() == 12,
{
    reveal_strlit("id");
    reveal_strlit("type");
    reveal_strlit("role");
    reveal_strlit("name");
    reveal_strlit("tools");
    reveal_strlit("model");
    reveal_strlit("content");
    reveal_strlit("messages");
    reveal_strlit("function");
    reveal_strlit("arguments");
    reveal_strlit("tool_calls");
    reveal_strlit("tool_choice");
    reveal_strlit("tool_call_id");
}

/// A result is told under the id that its call was told under.
pub proof fn law_calls_and_results_share_an_id(call: CallView, result: ResultView, content: Seq<char>)
    requires
        call.id == result.call_id,
        call.name == result.name,
    ensures
        told_call(call).get("id"@) == result_message(result, content).get("tool_call_id"@),
        result_message(result, content).get("content"@) == Some(JsonView::Str(content)),
        result_message(result, content).get("name"@) == Some(JsonView::Str(result.name)),
        result_message(result, content).get("role"@) == Some(JsonView::Str("tool"@)),
        call.id is Some ==> told_call(call).get("id"@) == Some(JsonView::Str(call.id->0)),
{
    lemma_keys();
}

/// The answer is the content of the first choice, as it is, with all calls of that choice in their
/// order.
pub proof fn law_the_first_choice_answers(
    response: JsonView,
    choices: Seq<JsonView>,
    message: JsonView,
    said: Seq<char>,
    items: Seq<JsonView>,
)
    requires
        response.get("choices"@) == Some(JsonView::Array(choices)),
        choices.len() > 0,
        choices[0].get("message"@) == Some(message),
    ensures
        message.get("content"@) == Some(JsonView::Str(said)) && !text::is_blank(said)
            ==> response_of(response).output_text == Some(said),
        message.get("content"@) is None ==> response_of(response).output_text is None,
        message.get("tool_calls"@) == Some(JsonView::Array(items)) ==> response_of(
            response,
        ).tool_calls == calls_of(items),
{
}

/// Calls that the model makes are all read, in their order.
pub proof fn law_every_call_is_read(items: Seq<JsonView>, calls: Seq<CallView>)
    requires
        calls.len() == items.len(),
        forall|i: int| 0 <= i < items.len() ==> call_of(#[trigger] items[i]) == Some(calls[i]),
    ensures
        calls_of(items) == calls,
    decreases items.len(),
{
    if items.len() > 0 {
        let before = items.drop_last();
        let earlier = calls.drop_last();
        assert forall|i: int| 0 <= i < before.len() implies call_of(#[trigger] before[i]) == Some(
            earlier[i],
        ) by {
            assert(before[i] == items[i]);
        }
        law_every_call_is_read(before, earlier);
        assert(call_of(items[items.len() - 1]) == Some(calls[items.len() - 1]));
        assert(earlier.push(calls.last()) =~= calls);
    } else {
        assert(calls =~= Seq::<CallView>::empty());
    }
}

/// A call is read with its id, its name and its arguments, as they are where they are a text.
pub proof fn law_calls_are_read_as_they_are(
    item: JsonView,
    function: JsonView,
    id: Seq<char>,
    name: Seq<char>,
    arguments: JsonView,
)
    requires
        item.get("id"@) == Some(JsonView::Str(id)),
        item.get("function"@) == Some(function),
        function.get("name"@) == Some(JsonView::Str(name)),
        function.get("arguments"@) == Some(arguments),
        name.len() > 0,
    ensures
        call_of(item) == Some(
            CallView {
                id: Some(id),
                name,
                args_json: match arguments {
                    JsonView::Str(raw) => raw,
                    other => json::rendered_json(other),
                },
            },
        ),
{
}

/// The conversation is sent whole: the prompt first, where it says something, then every message
/// with text, under its role and as it is.
pub proof fn law_conversations_are_sent_whole(system_prompt: Seq<char>, history: Seq<MessageView>)
    requires
        !text::is_blank(system_prompt),
        forall|i: int|
            0 <= i < history.len() ==> (#[trigger] history[i]).tool_calls.len() == 0
                && history[i].tool_results.len() == 0 && !text::is_blank(history[i].content),
    ensures
        ({
            let sent = chat_messages(system_prompt, history);
            &&& sent.len() == history.len() + 1
            &&& sent[0].get("role"@) == Some(JsonView::Str("system"@))
            &&& sent[0].get("content"@) == Some(JsonView::Str(system_prompt))
            &&& forall|i: int|
                0 <= i < history.len() ==> {
                    let told = #[trigger] sent[i + 1];
                    &&& told.get("content"@) == Some(JsonView::Str(history[i].content))
                    &&& told.get("role"@) == Some(
                        JsonView::Str(
                            match history[i].role {
                                Role::System => "system"@,
                                Role::Assistant => "assistant"@,
                                _ => "user"@,
                            },
                        ),
                    )
                }
        }),
{
    lemma_keys();
    lemma_history_messages(history);
    let sent = chat_messages(system_prompt, history);
    assert forall|i: int| 0 <= i < history.len() implies ({
        let told = #[trigger] sent[i + 1];
        &&& told.get("content"@) == Some(JsonView::Str(history[i].content))
        &&& told.get("role"@) == Some(
            JsonView::Str(
                match history[i].role {
                    Role::System => "system"@,
                    Role::Assistant => "assistant"@,
                    _ => "user"@,
                },
            ),
        )
    }) by {
        assert(sent[i + 1] == history_messages(history)[i]);
    }
}

/// Messages with text alone are sent one by one.
proof fn lemma_history_messages(history: Seq<MessageView>)
    requires
        forall|i: int|
            0 <= i < history.len() ==> (#[trigger] history[i]).tool_calls.len() == 0
                && history[i].tool_results.len() == 0 && !text::is_blank(history[i].content),
    ensures
        history_messages(history).len() == history.len(),
        forall|i: int|
            0 <= i < history.len() ==> #[trigger] history_messages(history)[i] == text_message(
                role_name(history[i].role),
                history[i].content,
            ),
    decreases history.len(),
{
    if history.len() > 0 {
        let before = history.drop_last();
        assert forall|i: int| 0 <= i < before.len() implies (#[trigger] before[i]).tool_calls.len()
            == 0 && before[i].tool_results.len() == 0 && !text::is_blank(before[i].content) by {
            assert(before[i] == history[i]);
        }
        lemma_history_messages(before);
        assert(history[history.len() - 1] == history.last());
        assert forall|i: int| 0 <= i < history.len() implies #[trigger] history_messages(history)[i]
            == text_message(role_name(history[i].role), history[i].content) by {
            if i < before.len() {
                assert(history_messages(history)[i] == history_messages(before)[i]);
                assert(before[i] == history[i]);
            }
        }
    }
}

/// Messages with calls or results are sent whole: one message with all calls, or one for each
/// result, in their order.
pub proof fn law_calls_and_results_are_sent_whole(message: MessageView, i: int)
    ensures
        message.tool_calls.len() > 0 ==> {
            &&& messages_of(message).len() == 1
            &&& messages_of(message)[0].get("role"@) == Some(JsonView::Str("assistant"@))
            &&& messages_of(message)[0].array_at("tool_calls"@) is Some
            &&& messages_of(message)[0].array_at("tool_calls"@)->Some_0.len()
                == message.tool_calls.len()
        },
        0 <= i < message.tool_calls.len() ==> messages_of(message)[0].array_at(
            "tool_calls"@,
        )->Some_0[i] == told_call(message.tool_calls[i]),
        message.tool_calls.len() == 0 && message.tool_results.len() > 0 ==> messages_of(
            message,
        ).len() == message.tool_results.len(),
        message.tool_calls.len() == 0 && 0 <= i < message.tool_results.len() ==> messages_of(
            message,
        )[i] == result_message(
            message.tool_results[i],
            json::rendered_json(message.tool_results[i].response),
        ),
{
    lemma_keys();
}

/// A request names the model, and holds the messages and the tools as they are; without tools it
/// offers none.
pub proof fn law_requests_hold_all(
    model: Seq<char>,
    messages: Seq<JsonView>,
    tools: Seq<DefinitionView>,
    i: int,
)
    ensures
        ({
            let body = chat_request(model, messages, tool_specs(tools));
            &&& body.get("model"@) == Some(JsonView::Str(model))
            &&& body.array_at("messages"@) == Some(messages)
            &&& tools.len() == 0 ==> body.get("tools"@) is None && body.get("tool_choice"@) is None
            &&& tools.len() > 0 ==> body.array_at("tools"@) == Some(tool_specs(tools)) && body.get(
                "tool_choice"@,
            ) == Some(JsonView::Str("auto"@))
        }),
        tool_specs(tools).len() == tools.len(),
        0 <= i < tools.len() ==> {
            let spec = tool_specs(tools)[i];
            &&& spec.get("type"@) == Some(JsonView::Str("function"@))
            &&& spec.get("function"@) is Some
            &&& spec.get("function"@)->Some_0.get("name"@) == Some(JsonView::Str(tools[i].name))
        },
{
    lemma_keys();
    gemini::law_requests_hold_all(model, messages, tools, i);
}

/// The settings of a provider are those it was given; it needs a key, and no login by token.
pub proof fn law_settings_are_taken_over(config: MoonshotProviderConfig)
    ensures
        configured(config) is Ok <==> config.mode != ProviderAuthMode::Oauth && config.api_key
            is Some && !text::is_blank(config.api_key->0@),
        configured(config) is Ok ==> {
            &&& configured(config)->Ok_0.model == config.model@
            &&& configured(config)->Ok_0.api_base == config.api_base@
            &&& configured(config)->Ok_0.api_key == config.api_key->0@
            &&& configured(config)->Ok_0.provider_name == "moonshot"@
        },
{
}

/// A content in parts says what its parts say, one below the other; parts that say nothing are left
/// out.
pub proof fn law_parts_are_said_in_turn(parts: Seq<JsonView>, next: JsonView, said: Seq<char>)
    ensures
        next.get("text"@) == Some(JsonView::Str(said)) && !text::is_blank(said) ==> part_texts(
            parts.push(next),
        ) == part_texts(parts).push(text::trim(said)),
        next.get("text"@) == Some(JsonView::Str(said)) && text::is_blank(said) ==> part_texts(
            parts.push(next),
        ) == part_texts(parts),
        next.get("text"@) is None ==> part_texts(parts.push(next)) == part_texts(parts),
        part_texts(parts).len() > 0 ==> content_text(JsonView::Array(parts)) == Some(
            text::join(part_texts(parts), "\n"@),
        ),
        !text::is_blank(said) ==> content_text(JsonView::Str(said)) == Some(said),
        content_text(JsonView::Null) is None,
{
    assert(parts.push(next).drop_last() =~= parts);
}

/// A body is read as the document that it writes, and is an error where it writes none.
pub proof fn law_answers_are_read_from_their_body(provider_name: Seq<char>, body: Seq<char>)
    ensures
        json::parsed_json(body) is Ok ==> body_response(provider_name, body) == Ok::<
            ResponseView,
            ErrorView,
        >(response_of(json::parsed_json(body)->Ok_0)),
        json::parsed_json(body) is Err ==> body_response(provider_name, body) is Err,
{
}

/// What is said beside calls is sent as it is.
pub proof fn law_words_beside_calls_are_sent(content: Seq<char>, calls: Seq<CallView>)
    ensures
        !text::is_blank(content) ==> calls_message(content, calls).get("content"@) == Some(
            JsonView::Str(content),
        ),
        text::is_blank(content) ==> calls_message(content, calls).get("content"@) == Some(
            JsonView::Null,
        ),
{
    reveal_strlit("role");
    reveal_strlit("content");
    reveal_strlit("tool_calls");
    assert("role"@.len() == 4);
    assert("content"@.len() == 7);
    assert("tool_calls"@.len() == 10);
}

} // verus!
