//! The OpenAI Codex provider: requests, answers and streamed answers.
use vstd::prelude::*;
use crate::config::OpenAiCodexProviderConfig;
use crate::error::{ErrorView, FrameworkError};
use crate::error;
use crate::json::{Json, JsonView};
use crate::json;
use crate::providers::gemini;
use crate::providers::stream;
use crate::providers::types::{
    CallView,
    DefinitionView,
    EventView,
    Message,
    MessageView,
    ProviderResponse,
    ResponseView,
    ResultView,
    Role,
    StreamEvent,
    ToolCall,
    ToolDefinition,
    ToolResult,
};
use crate::providers::types;
use crate::telemetry;
use crate::text::CharClass;
use crate::text;

verus! {

/// The longest identifier that is sent.
pub const MAX_IDENTIFIER_LEN: usize = 64;

/// How much of an error body is shown.
pub const ERROR_BODY_PREVIEW_CHARS: usize = 1_000;

/// The instructions where no system prompt is given.
pub const DEFAULT_CODEX_INSTRUCTIONS: &'static str =
    "You are SimpleClaw, a concise and helpful coding assistant.";

/// The instructions of a request.
pub open spec fn instructions_of(system_prompt: Seq<char>) -> Seq<char> {
    if text::is_blank(system_prompt) {
        DEFAULT_CODEX_INSTRUCTIONS@
    } else {
        system_prompt
    }
}

/// The instructions of a request.
pub fn resolve_instructions(system_prompt: &str) -> (r: String)
    ensures
        r@ == instructions_of(system_prompt@),
{
    if text::blank(system_prompt) {
        DEFAULT_CODEX_INSTRUCTIONS.to_owned()
    } else {
        system_prompt.to_owned()
    }
}

/// Whether `c` may stand in an identifier.
pub open spec fn identifier_char(c: char) -> bool {
    text::is_alnum(c) || c == '_' || c == '-'
}

/// `s` with each character that may not stand in an identifier replaced by an underscore.
pub open spec fn underscored(s: Seq<char>) -> Seq<char> {
    Seq::new(
        s.len(),
        |i: int|
            if identifier_char(s[i]) {
                s[i]
            } else {
                '_'
            },
    )
}

/// The identifier made of a text: its characters that may stand in one, underscores for the
/// others, none at its ends; the fallback where nothing is left.
pub open spec fn identifier(raw: Seq<char>, fallback: Seq<char>) -> Seq<char> {
    let core = text::trim_of(underscored(text::trim(raw)), CharClass::Only('_'));
    if core.len() == 0 {
        fallback
    } else {
        text::clip(core, MAX_IDENTIFIER_LEN as int)
    }
}

/// The identifier made of a text.
pub fn sanitize_identifier(raw: &str, fallback: &str) -> (r: String)
    ensures
        r@ == identifier(raw@, fallback@),
{
    let chars = text::chars_of(text::trimmed(raw).as_str());
    let mut mapped: Vec<char> = Vec::new();
    let mut i: usize = 0;
    while i < chars.len()
        invariant
            i <= chars@.len(),
            mapped@ == underscored(chars@).take(i as int),
        decreases chars@.len() - i,
    {
        let c = chars[i];
        if text::alphanumeric(c) || c == '_' || c == '-' {
            mapped.push(c);
        } else {
            mapped.push('_');
        }
        i = i + 1;
        assert(underscored(chars@).take(i as int) =~= underscored(chars@).take(i - 1).push(
            underscored(chars@)[i - 1],
        ));
    }
    assert(underscored(chars@).take(i as int) =~= underscored(chars@));
    let core = text::trim_class(text::string_of(&mapped).as_str(), CharClass::Only('_'));
    if core.as_str().is_empty() {
        fallback.to_owned()
    } else {
        text::clipped(core.as_str(), MAX_IDENTIFIER_LEN)
    }
}

/// Whatever characters `s` is made of, so is what trimming leaves.
proof fn lemma_trim_keeps_chars(s: Seq<char>, class: CharClass)
    requires
        forall|i: int| 0 <= i < s.len() ==> identifier_char(#[trigger] s[i]),
    ensures
        forall|i: int|
            0 <= i < text::trim_of(s, class).len() ==> identifier_char(
                #[trigger] text::trim_of(s, class)[i],
            ),
{
    let front = text::trim_start_of(s, class);
    text::lemma_trim_start(s, class);
    text::lemma_trim_end(front, class);
    assert forall|i: int| 0 <= i < text::trim_of(s, class).len() implies identifier_char(
        #[trigger] text::trim_of(s, class)[i],
    ) by {
        assert(text::trim_of(s, class)[i] == front[i]);
        assert(front[i] == s[s.len() - front.len() + i]);
    }
}

/// An identifier is made of letters, digits, underscores and hyphens alone and is not too long,
/// whatever text it is made of, unless the fallback stands in for it.
pub proof fn law_identifier_is_clean(raw: Seq<char>, fallback: Seq<char>)
    ensures
        identifier(raw, fallback) == fallback || {
            &&& 0 < identifier(raw, fallback).len() <= MAX_IDENTIFIER_LEN
            &&& forall|i: int|
                0 <= i < identifier(raw, fallback).len() ==> identifier_char(
                    #[trigger] identifier(raw, fallback)[i],
                )
        },
{
    lemma_trim_keeps_chars(underscored(text::trim(raw)), CharClass::Only('_'));
    let core = text::trim_of(underscored(text::trim(raw)), CharClass::Only('_'));
    if core.len() > 0 {
        assert forall|i: int| 0 <= i < identifier(raw, fallback).len() implies identifier_char(
            #[trigger] identifier(raw, fallback)[i],
        ) by {
            assert(identifier(raw, fallback)[i] == core[i]);
        }
    }
}

/// The arguments of a call as they are sent: the document where it is an object, else an empty
/// one.
pub open spec fn object_text(document: JsonView) -> Seq<char> {
    if document is Object {
        json::rendered_json(document)
    } else {
        "{}"@
    }
}

/// The arguments of a call as they are sent.
pub open spec fn arguments_text(args_json: Seq<char>) -> Seq<char> {
    match json::parsed_json(args_json) {
        Ok(document) => object_text(document),
        Err(_) => "{}"@,
    }
}

/// The document where it is an object, else an empty one, as text.
pub fn object_text_of(document: &Json) -> (r: String)
    requires
        document.wf(),
    ensures
        r@ == object_text(document@),
{
    if document.is_object() {
        document.render()
    } else {
        "{}".to_owned()
    }
}

/// The arguments of a call as they are sent.
pub fn normalize_tool_arguments(args_json: &str) -> (r: String)
    ensures
        r@ == arguments_text(args_json@),
{
    match Json::parse(args_json) {
        Ok(document) => object_text_of(&document),
        Err(_) => "{}".to_owned(),
    }
}

/// Whether every item is an object.
pub open spec fn all_objects(items: Seq<JsonView>) -> bool {
    forall|i: int| 0 <= i < items.len() ==> (#[trigger] items[i]) is Object
}

/// The result of a call as it is sent: a text or a list of objects as it is, anything else as
/// text.
pub open spec fn result_output(value: JsonView) -> JsonView {
    match value {
        JsonView::Str(_) => value,
        JsonView::Array(items) => if all_objects(items) {
            value
        } else {
            JsonView::Str(json::rendered_json(value))
        },
        _ => JsonView::Str(json::rendered_json(value)),
    }
}

/// The result of a call as it is sent.
pub fn normalize_tool_result_output(value: &Json) -> (r: Json)
    requires
        value.wf(),
    ensures
        r@ == result_output(value@),
        r.wf(),
{
    match value {
        Json::Str(_) => value.clone(),
        Json::Array(items) => {
            let mut i: usize = 0;
            proof {
                json::lemma_items(items@);
            }
            while i < items.len()
                invariant
                    i <= items@.len(),
                    value.wf(),
                    value is Array && value->Array_0 == *items,
                    json::items_view(items@).len() == items@.len(),
                    forall|j: int|
                        0 <= j < items@.len() ==> (#[trigger] json::items_view(items@)[j])
                            == items@[j]@,
                    forall|j: int| 0 <= j < i ==> (#[trigger] json::items_view(items@)[j]) is Object,
                decreases items@.len() - i,
            {
                if !items[i].is_object() {
                    assert(!(json::items_view(items@)[i as int] is Object));
                    return Json::Str(value.render());
                }
                i = i + 1;
            }
            value.clone()
        },
        _ => Json::Str(value.render()),
    }
}

/// The id of a call as it is sent: the given one where it is not blank, else one made of the
/// tool's name.
pub open spec fn call_id_of(id: Option<Seq<char>>, name: Seq<char>) -> Seq<char> {
    let fallback = "call_"@ + identifier(name, "tool"@);
    match id {
        Some(given) => if text::is_blank(given) {
            identifier(fallback, fallback)
        } else {
            identifier(given, fallback)
        },
        None => identifier(fallback, fallback),
    }
}

/// A call and its result, with one id and one tool, are sent under one id.
pub proof fn law_call_and_result_share_an_id(call: CallView, result: ResultView)
    requires
        call.id == result.call_id,
        call.name == result.name,
    ensures
        call_item(call, arguments_text(call.args_json)).get("call_id"@) == result_item(result).get(
            "call_id"@,
        ),
        call_item(call, arguments_text(call.args_json)).get("call_id"@) is Some,
{
    reveal_strlit("type");
    reveal_strlit("name");
    reveal_strlit("call_id");
    reveal_strlit("arguments");
    reveal_strlit("output");
    assert("call_id"@.len() == 7);
    assert("output"@.len() == 6);
    assert("arguments"@.len() == 9);
}

/// The item that tells of a call.
pub open spec fn call_item(call: CallView, arguments: Seq<char>) -> JsonView {
    JsonView::Object(
        map!["type"@ => JsonView::Str("function_call"@), "name"@ => JsonView::Str(
            identifier(call.name, "tool"@),
        ), "call_id"@ => JsonView::Str(call_id_of(call.id, call.name)), "arguments"@ => JsonView::Str(
            arguments,
        )],
    )
}

/// The item that tells of a result.
pub open spec fn result_item(result: ResultView) -> JsonView {
    JsonView::Object(
        map!["type"@ => JsonView::Str("function_call_output"@), "call_id"@ => JsonView::Str(
            call_id_of(result.call_id, result.name),
        ), "output"@ => result_output(result.response)],
    )
}

/// The item that tells of a text.
pub open spec fn text_item(role: Role, content: Seq<char>) -> JsonView {
    let role_name = match role {
        Role::System => "system"@,
        Role::Assistant => "assistant"@,
        _ => "user"@,
    };
    let content_type = match role {
        Role::Assistant => "output_text"@,
        _ => "input_text"@,
    };
    JsonView::Object(
        map!["type"@ => JsonView::Str("message"@), "role"@ => JsonView::Str(role_name), "content"@ => JsonView::Array(
            seq![JsonView::Object(
                map!["type"@ => JsonView::Str(content_type), "text"@ => JsonView::Str(content)],
            )],
        )],
    )
}

/// The items of a list of calls.
pub open spec fn call_items(calls: Seq<CallView>) -> Seq<JsonView> {
    Seq::new(calls.len(), |i: int| call_item(calls[i], arguments_text(calls[i].args_json)))
}

/// The items of a list of results.
pub open spec fn result_items(results: Seq<ResultView>) -> Seq<JsonView> {
    Seq::new(results.len(), |i: int| result_item(results[i]))
}

/// The items of a message: its calls, its results and its text.  The results of a message that
/// has calls count only where it has text too.
pub open spec fn message_items(message: MessageView) -> Seq<JsonView> {
    let calls = call_items(message.tool_calls);
    if text::is_blank(message.content) {
        if message.tool_calls.len() > 0 {
            calls
        } else {
            result_items(message.tool_results)
        }
    } else {
        (calls + result_items(message.tool_results)).push(text_item(message.role, message.content))
    }
}

/// The items of a conversation.
pub open spec fn input_items(history: Seq<MessageView>) -> Seq<JsonView>
    decreases history.len(),
{
    if history.len() == 0 {
        Seq::empty()
    } else {
        input_items(history.drop_last()) + message_items(history.last())
    }
}

/// The id of a call as it is sent.
fn sent_call_id(id: &Option<String>, name: &str) -> (r: String)
    ensures
        r@ == call_id_of(text::opt_view(*id), name@),
{
    let fallback = text::concat2("call_", sanitize_identifier(name, "tool").as_str());
    if let Some(given) = id {
        if !text::blank(given.as_str()) {
            return sanitize_identifier(given.as_str(), fallback.as_str());
        }
    }
    sanitize_identifier(fallback.as_str(), fallback.as_str())
}

/// The item that tells of a call.
pub fn function_call_item(call: &ToolCall, arguments: &str) -> (r: Json)
    ensures
        r@ == call_item(call@, arguments@),
        r.wf(),
{
    Json::object().with("type", Json::text("function_call")).with(
        "name",
        Json::Str(sanitize_identifier(call.name.as_str(), "tool")),
    ).with("call_id", Json::Str(sent_call_id(&call.id, call.name.as_str()))).with(
        "arguments",
        Json::text(arguments),
    )
}

/// The item that tells of a result.
pub fn function_result_item(result: &ToolResult) -> (r: Json)
    requires
        result.response.wf(),
    ensures
        r@ == result_item(result@),
        r.wf(),
{
    Json::object().with("type", Json::text("function_call_output")).with(
        "call_id",
        Json::Str(sent_call_id(&result.call_id, result.name.as_str())),
    ).with("output", normalize_tool_result_output(&result.response))
}

/// The item that tells of a text.
pub fn message_text_item(role: Role, content: &str) -> (r: Json)
    ensures
        r@ == text_item(role, content@),
        r.wf(),
{
    let role_name = match role {
        Role::System => "system",
        Role::Assistant => "assistant",
        _ => "user",
    };
    let content_type = match role {
        Role::Assistant => "output_text",
        _ => "input_text",
    };
    let part = Json::object().with("type", Json::text(content_type)).with(
        "text",
        Json::text(content),
    );
    Json::object().with("type", Json::text("message")).with("role", Json::text(role_name)).with(
        "content",
        gemini::single(part),
    )
}

/// Appends the items of a message.
fn push_message_items(message: &Message, input: &mut Vec<Json>)
    requires
        types::message_wf(*message),
        json::all_wf(old(input)@),
    ensures
        json::items_view(final(input)@) == json::items_view(old(input)@) + message_items(message@),
        json::all_wf(final(input)@),
{
    let ghost start = json::items_view(input@);
    let ghost calls = call_items(message@.tool_calls);
    let ghost results = result_items(message@.tool_results);
    let mut i: usize = 0;
    assert(start + calls.take(0) =~= start);
    while i < message.tool_calls.len()
        invariant
            i <= message.tool_calls@.len(),
            calls == call_items(message@.tool_calls),
            json::items_view(input@) == start + calls.take(i as int),
            json::all_wf(input@),
        decreases message.tool_calls@.len() - i,
    {
        let call = &message.tool_calls[i];
        assert(message@.tool_calls[i as int] == call@);
        let arguments = normalize_tool_arguments(call.args_json.as_str());
        json::push_item(input, function_call_item(call, arguments.as_str()));
        i = i + 1;
        assert(start + calls.take(i as int) =~= (start + calls.take(i - 1)).push(calls[i - 1]));
    }
    assert(calls.take(i as int) =~= calls);
    let blank = text::blank(message.content.as_str());
    if blank && message.tool_calls.len() > 0 {
        return ;
    }
    let ghost middle = json::items_view(input@);
    let mut j: usize = 0;
    assert(middle + results.take(0) =~= middle);
    while j < message.tool_results.len()
        invariant
            j <= message.tool_results@.len(),
            types::message_wf(*message),
            results == result_items(message@.tool_results),
            json::items_view(input@) == middle + results.take(j as int),
            json::all_wf(input@),
        decreases message.tool_results@.len() - j,
    {
        let result = &message.tool_results[j];
        assert(message.tool_results@[j as int].response.wf());
        assert(message@.tool_results[j as int] == result@);
        json::push_item(input, function_result_item(result));
        j = j + 1;
        assert(middle + results.take(j as int) =~= (middle + results.take(j - 1)).push(
            results[j - 1],
        ));
    }
    assert(results.take(j as int) =~= results);
    if blank {
        proof {
            assert(calls =~= Seq::<JsonView>::empty());
            assert(middle + results =~= start + message_items(message@));
        }
        return ;
    }
    json::push_item(input, message_text_item(message.role, message.content.as_str()));
    assert(json::items_view(input@) =~= start + message_items(message@));
}

/// The items of a conversation.
pub fn build_input(history: &[Message]) -> (r: Vec<Json>)
    requires
        types::history_wf(history@),
    ensures
        json::items_view(r@) == input_items(types::message_views(history@)),
        json::all_wf(r@),
{
    let ghost whole = types::message_views(history@);
    let mut input: Vec<Json> = Vec::new();
    let mut i: usize = 0;
    while i < history.len()
        invariant
            i <= history@.len(),
            types::history_wf(history@),
            whole == types::message_views(history@),
            json::items_view(input@) == input_items(whole.take(i as int)),
            json::all_wf(input@),
        decreases history@.len() - i,
    {
        assert(types::message_wf(history@[i as int]));
        push_message_items(&history[i], &mut input);
        i = i + 1;
        assert(whole.take(i as int).drop_last() =~= whole.take(i - 1));
    }
    assert(whole.take(i as int) =~= whole);
    input
}

/// The schema of a tool without parameters.
pub open spec fn default_schema() -> JsonView {
    JsonView::Object(
        map!["type"@ => JsonView::Str("object"@), "properties"@ => json::empty_object()],
    )
}

/// The items that are strings.
pub open spec fn strings_only(items: Seq<JsonView>) -> Seq<JsonView>
    decreases items.len(),
{
    if items.len() == 0 {
        Seq::empty()
    } else if items.last() is Str {
        strings_only(items.drop_last()).push(items.last())
    } else {
        strings_only(items.drop_last())
    }
}

/// A schema in the form that is accepted: an object, all the way down.
pub open spec fn normalized_schema(schema: JsonView) -> JsonView
    decreases schema, 0int,
{
    match schema {
        JsonView::Object(members) => JsonView::Object(
            Map::new(
                |key: Seq<char>| members.contains_key(key),
                |key: Seq<char>|
                    if members.contains_key(key) {
                        normalized_keyword(key, members[key])
                    } else {
                        JsonView::Null
                    },
            ),
        ),
        _ => default_schema(),
    }
}

/// The value of a keyword of a schema in the form that is accepted.
pub open spec fn normalized_keyword(key: Seq<char>, value: JsonView) -> JsonView
    decreases value, 1int,
{
    if key == "properties"@ {
        match value {
            JsonView::Object(members) => JsonView::Object(
                Map::new(
                    |name: Seq<char>| members.contains_key(name),
                    |name: Seq<char>|
                        if members.contains_key(name) {
                            normalized_schema(members[name])
                        } else {
                            JsonView::Null
                        },
                ),
            ),
            _ => json::empty_object(),
        }
    } else if key == "required"@ {
        match value {
            JsonView::Array(items) => JsonView::Array(strings_only(items)),
            _ => JsonView::Array(Seq::empty()),
        }
    } else if key == "items"@ {
        normalized_schema(value)
    } else if key == "additionalProperties"@ {
        if value is Object {
            normalized_schema(value)
        } else {
            value
        }
    } else if key == "anyOf"@ || key == "oneOf"@ || key == "allOf"@ {
        match value {
            JsonView::Array(items) => JsonView::Array(
                Seq::new(
                    items.len(),
                    |i: int|
                        if 0 <= i < items.len() && items[i] is Object {
                            normalized_schema(items[i])
                        } else {
                            items[i]
                        },
                ),
            ),
            _ => JsonView::Array(Seq::empty()),
        }
    } else {
        value
    }
}

/// The schema of a tool without parameters.
pub fn default_tool_schema() -> (r: Json)
    ensures
        r@ == default_schema(),
        r.wf(),
{
    Json::object().with("type", Json::text("object")).with("properties", Json::object())
}

/// Two member lists with the same keys in the same places say the same keys.
proof fn lemma_same_members(
    given: Seq<(String, Json)>,
    made: Seq<(String, Json)>,
    target: Map<Seq<char>, JsonView>,
)
    requires
        json::distinct(given),
        made.len() == given.len(),
        forall|i: int| 0 <= i < made.len() ==> (#[trigger] made[i]).0@ == given[i].0@,
        target.dom() == json::members_view(given).dom(),
        forall|i: int| 0 <= i < made.len() ==> (#[trigger] made[i]).1@ == target[given[i].0@],
    ensures
        json::distinct(made),
        json::members_view(made) == target,
{
    assert(json::distinct(made)) by {
        assert forall|i: int, j: int| 0 <= i < j < made.len() implies (#[trigger] made[i]).0@ != (
        #[trigger] made[j]).0@ by {
            assert(given[i].0@ != given[j].0@);
        }
    }
    assert forall|key: Seq<char>|
        #[trigger] json::members_view(made).contains_key(key) == target.contains_key(key) && (
        target.contains_key(key) ==> json::members_view(made)[key] == target[key]) by {
        json::lemma_members(made, key);
        json::lemma_members(given, key);
        assert(target.contains_key(key) == json::members_view(given).contains_key(key));
        if target.contains_key(key) {
            let i = choose|i: int| 0 <= i < given.len() && (#[trigger] given[i]).0@ == key;
            assert(made[i].0@ == key);
            json::lemma_member_at(made, i);
        } else if json::members_view(made).contains_key(key) {
            let i = choose|i: int| 0 <= i < made.len() && (#[trigger] made[i]).0@ == key;
            assert(given[i].0@ == key);
        }
    }
    assert(json::members_view(made) =~= target);
}

/// A schema in the form that is accepted.
pub fn normalize_schema_node(schema: Json) -> (r: Json)
    requires
        schema.wf(),
    ensures
        r@ == normalized_schema(schema@),
        r.wf(),
    decreases schema, 0int,
{
    let ghost whole = schema;
    match schema {
        Json::Object(members) => {
            let ghost all = members@;
            let mut out: Vec<(String, Json)> = Vec::new();
            for member in iter: members
                invariant
                    iter.seq() == all,
                    whole is Object && whole->Object_0@ == all,
                    whole == schema,
                    whole.wf(),
                    out@.len() == iter.index(),
                    forall|j: int|
                        0 <= j < out@.len() ==> (#[trigger] out@[j]).0@ == all[j].0@
                            && out@[j].1@ == normalized_keyword(all[j].0@, all[j].1@)
                            && out@[j].1.wf(),
            {
                let ghost k = out@.len() as int;
                let (key, value) = member;
                assert(whole->Object_0@[k].1.wf());
                assert(decreases_to!(whole => whole->Object_0@[k].1));
                let value = normalize_schema_keyword(key.as_str(), value);
                out.push((key, value));
            }
            proof {
                let target = normalized_schema(whole@)->Object_0;
                assert forall|i: int| 0 <= i < out@.len() implies (#[trigger] out@[i]).1@
                    == target[all[i].0@] by {
                    json::lemma_member_at(all, i);
                }
                assert(target.dom() =~= json::members_view(all).dom());
                lemma_same_members(all, out@, target);
            }
            Json::Object(out)
        },
        _ => default_tool_schema(),
    }
}

/// The value of a keyword of a schema in the form that is accepted.
pub fn normalize_schema_keyword(key: &str, value: Json) -> (r: Json)
    requires
        value.wf(),
    ensures
        r@ == normalized_keyword(key@, value@),
        r.wf(),
    decreases value, 1int,
{
    let ghost whole = value;
    if text::same_text(key, "properties") {
        match value {
            Json::Object(members) => {
                let ghost all = members@;
                let mut out: Vec<(String, Json)> = Vec::new();
                for member in iter: members
                    invariant
                        iter.seq() == all,
                        whole is Object && whole->Object_0@ == all,
                        whole == value,
                        whole.wf(),
                        out@.len() == iter.index(),
                        forall|j: int|
                            0 <= j < out@.len() ==> (#[trigger] out@[j]).0@ == all[j].0@
                                && out@[j].1@ == normalized_schema(all[j].1@) && out@[j].1.wf(),
                {
                    let ghost k = out@.len() as int;
                    let (name, inner) = member;
                    assert(whole->Object_0@[k].1.wf());
                    assert(decreases_to!(whole => whole->Object_0@[k].1));
                    let inner = normalize_schema_node(inner);
                    out.push((name, inner));
                }
                proof {
                    let target = normalized_keyword(key@, whole@)->Object_0;
                    assert forall|i: int| 0 <= i < out@.len() implies (#[trigger] out@[i]).1@
                        == target[all[i].0@] by {
                        json::lemma_member_at(all, i);
                    }
                    assert(target.dom() =~= json::members_view(all).dom());
                    lemma_same_members(all, out@, target);
                }
                Json::Object(out)
            },
            _ => Json::object(),
        }
    } else if text::same_text(key, "required") {
        match value {
            Json::Array(items) => {
                let ghost all = items@;
                let ghost said = json::items_view(items@);
                let mut out: Vec<Json> = Vec::new();
                proof {
                    json::lemma_items(all);
                    assert(said.take(0) =~= Seq::<JsonView>::empty());
                }
                for item in iter: items
                    invariant
                        iter.seq() == all,
                        whole is Array && whole->Array_0@ == all,
                        whole.wf(),
                        said == json::items_view(all),
                        json::items_view(out@) == strings_only(said.take(iter.index() as int)),
                        json::all_wf(out@),
                {
                    let ghost k = iter.index() as int;
                    assert(whole->Array_0@[k].wf());
                    proof {
                        json::lemma_items(all);
                        assert(said.take(k + 1).drop_last() =~= said.take(k));
                        assert(said.take(k + 1).last() == item@);
                    }
                    if item.is_string() {
                        json::push_item(&mut out, item);
                    }
                }
                proof {
                    json::lemma_items(all);
                    assert(said.take(all.len() as int) =~= said);
                }
                Json::Array(out)
            },
            _ => Json::Array(Vec::new()),
        }
    } else if text::same_text(key, "items") {
        normalize_schema_node(value)
    } else if text::same_text(key, "additionalProperties") {
        if value.is_object() {
            normalize_schema_node(value)
        } else {
            value
        }
    } else if text::same_text(key, "anyOf") || text::same_text(key, "oneOf") || text::same_text(
        key,
        "allOf",
    ) {
        match value {
            Json::Array(items) => {
                let ghost all = items@;
                let mut out: Vec<Json> = Vec::new();
                for item in iter: items
                    invariant
                        iter.seq() == all,
                        whole is Array && whole->Array_0@ == all,
                        whole == value,
                        whole.wf(),
                        out@.len() == iter.index(),
                        forall|j: int|
                            0 <= j < out@.len() ==> (#[trigger] out@[j])@ == (if all[j]@ is Object {
                                normalized_schema(all[j]@)
                            } else {
                                all[j]@
                            }) && out@[j].wf(),
                {
                    let ghost k = out@.len() as int;
                    assert(whole->Array_0@[k].wf());
                    assert(decreases_to!(whole => whole->Array_0@[k]));
                    if item.is_object() {
                        out.push(normalize_schema_node(item));
                    } else {
                        out.push(item);
                    }
                }
                proof {
                    json::lemma_items(all);
                    json::lemma_items(out@);
                    assert(normalized_keyword(key@, whole@)->Array_0 =~= json::items_view(out@));
                }
                Json::Array(out)
            },
            _ => Json::Array(Vec::new()),
        }
    } else {
        value
    }
}

/// The schema of a tool in the form that is accepted: an object with properties.
pub open spec fn tool_schema(schema: JsonView) -> JsonView {
    match schema {
        JsonView::Object(_) => {
            let typed = if schema.text_at("type"@) == Some("object"@) {
                schema
            } else {
                json::set_member(schema, "type"@, JsonView::Str("object"@))
            };
            let complete = if typed.get("properties"@) is Some && typed.get(
                "properties"@,
            )->0 is Object {
                typed
            } else {
                json::set_member(typed, "properties"@, json::empty_object())
            };
            normalized_schema(complete)
        },
        _ => default_schema(),
    }
}

/// The schema of a tool in the form that is accepted.
pub fn normalize_tool_schema(schema: Json) -> (r: Json)
    requires
        schema.wf(),
    ensures
        r@ == tool_schema(schema@),
        r.wf(),
{
    if !schema.is_object() {
        return default_tool_schema();
    }
    let is_typed = match schema.text_at("type") {
        Some(kind) => text::same_text(kind, "object"),
        None => false,
    };
    let typed = if is_typed {
        schema
    } else {
        schema.with("type", Json::text("object"))
    };
    let has_properties = match typed.get("properties") {
        Some(properties) => properties.is_object(),
        None => false,
    };
    let complete = if has_properties {
        typed
    } else {
        typed.with("properties", Json::object())
    };
    normalize_schema_node(complete)
}

/// Whatever schema a tool declares, what is sent is an object of type `object` with properties.
pub proof fn law_tool_schema_is_an_object(schema: JsonView)
    ensures
        tool_schema(schema) is Object,
        tool_schema(schema).text_at("type"@) == Some("object"@),
        tool_schema(schema).get("properties"@) is Some,
        tool_schema(schema).get("properties"@)->0 is Object,
{
    reveal_strlit("type");
    reveal_strlit("properties");
    reveal_strlit("required");
    reveal_strlit("items");
    reveal_strlit("additionalProperties");
    reveal_strlit("anyOf");
    reveal_strlit("oneOf");
    reveal_strlit("allOf");
    assert("type"@.len() == 4);
    assert("properties"@.len() == 10);
    assert("required"@.len() == 8);
    assert("items"@.len() == 5);
    assert("additionalProperties"@.len() == 20);
    assert("anyOf"@.len() == 5);
    assert("oneOf"@.len() == 5);
    assert("allOf"@.len() == 5);
}

/// The tool as it is declared, with the given schema.
pub open spec fn tool_item(name: Seq<char>, description: Seq<char>, schema: JsonView) -> JsonView {
    JsonView::Object(
        map!["type"@ => JsonView::Str("function"@), "name"@ => JsonView::Str(name), "description"@ => JsonView::Str(
            description,
        ), "parameters"@ => schema],
    )
}

/// The tools as they are declared; one whose name leaves no identifier is left out.
pub open spec fn tool_items(tools: Seq<DefinitionView>) -> Seq<JsonView>
    decreases tools.len(),
{
    if tools.len() == 0 {
        Seq::empty()
    } else {
        let before = tool_items(tools.drop_last());
        let tool = tools.last();
        let name = identifier(tool.name, Seq::empty());
        if name.len() == 0 {
            before
        } else {
            before.push(
                tool_item(
                    name,
                    tool.description,
                    tool_schema(gemini::parsed_or(tool.input_schema_json, default_schema())),
                ),
            )
        }
    }
}

/// The tool as it is declared, with the schema that it comes with.
pub fn declare_tool(name: &str, description: &str, schema: Json) -> (r: Json)
    requires
        schema.wf(),
    ensures
        r@ == tool_item(name@, description@, tool_schema(schema@)),
        r.wf(),
{
    Json::object().with("type", Json::text("function")).with("name", Json::text(name)).with(
        "description",
        Json::text(description),
    ).with("parameters", normalize_tool_schema(schema))
}

/// The tools as they are declared.
pub fn build_tools(tools: &[ToolDefinition]) -> (r: Vec<Json>)
    ensures
        json::items_view(r@) == tool_items(types::definition_views(tools@)),
        json::all_wf(r@),
{
    let ghost whole = types::definition_views(tools@);
    let mut out: Vec<Json> = Vec::new();
    let mut i: usize = 0;
    while i < tools.len()
        invariant
            i <= tools@.len(),
            whole == types::definition_views(tools@),
            json::items_view(out@) == tool_items(whole.take(i as int)),
            json::all_wf(out@),
        decreases tools@.len() - i,
    {
        let tool = &tools[i];
        proof {
            assert(whole.take(i + 1).drop_last() =~= whole.take(i as int));
            assert(whole.take(i + 1).last() == tool@);
        }
        let empty = String::new();
        let name = sanitize_identifier(tool.name.as_str(), empty.as_str());
        assert(empty@ =~= Seq::<char>::empty());
        if !name.as_str().is_empty() {
            let schema = gemini::parse_or(tool.input_schema_json.as_str(), default_tool_schema());
            json::push_item(
                &mut out,
                declare_tool(name.as_str(), tool.description.as_str(), schema),
            );
        }
        i = i + 1;
    }
    assert(whole.take(i as int) =~= whole);
    out
}

/// A text without white space around it, where anything is left.
pub open spec fn nonempty(value: Option<Seq<char>>) -> Option<Seq<char>> {
    match value {
        Some(given) => if text::is_blank(given) {
            None
        } else {
            Some(text::trim(given))
        },
        None => None,
    }
}

/// A text without white space around it, where anything is left.
pub fn first_nonempty_str(value: Option<&str>) -> (r: Option<String>)
    ensures
        text::opt_view(r) == nonempty(json::opt_str(value)),
{
    match value {
        Some(given) => {
            let trimmed = text::trimmed(given);
            if trimmed.as_str().is_empty() {
                None
            } else {
                Some(trimmed)
            }
        },
        None => None,
    }
}

/// The list with one more text, where there is one.
pub open spec fn add_chunk(chunks: Seq<Seq<char>>, chunk: Option<Seq<char>>) -> Seq<Seq<char>> {
    match chunk {
        Some(chunk) => chunks.push(chunk),
        None => chunks,
    }
}

/// The text of a part of a message, where the part is text.
pub open spec fn part_text(part: JsonView) -> Option<Seq<char>> {
    let kind = part.text_at("type"@);
    if kind == Some("output_text"@) || kind == Some("input_text"@) || kind == Some("text"@) {
        nonempty(part.text_at("text"@))
    } else {
        None
    }
}

/// The list with the texts of the parts of a message.
pub open spec fn add_parts(chunks: Seq<Seq<char>>, parts: Seq<JsonView>) -> Seq<Seq<char>>
    decreases parts.len(),
{
    if parts.len() == 0 {
        chunks
    } else {
        add_chunk(add_parts(chunks, parts.drop_last()), part_text(parts.last()))
    }
}

/// The texts of the items of an answer: of each item its own, then those of its parts.
pub open spec fn output_chunks(items: Seq<JsonView>) -> Seq<Seq<char>>
    decreases items.len(),
{
    if items.len() == 0 {
        Seq::empty()
    } else {
        let item = items.last();
        let own = add_chunk(
            output_chunks(items.drop_last()),
            nonempty(item.text_at("text"@)),
        );
        match item.array_at("content"@) {
            Some(parts) => add_parts(own, parts),
            None => own,
        }
    }
}

/// The text of an answer: the one given as a whole, else the texts of its items line by line.
pub open spec fn output_text_of(response: JsonView) -> Option<Seq<char>> {
    match nonempty(response.text_at("output_text"@)) {
        Some(whole) => Some(whole),
        None => {
            let chunks = match response.array_at("output"@) {
                Some(items) => output_chunks(items),
                None => Seq::empty(),
            };
            if chunks.len() == 0 {
                None
            } else {
                Some(text::join(chunks, "\n"@))
            }
        },
    }
}

/// Appends a text, where there is one.
fn push_chunk(chunks: &mut Vec<String>, chunk: Option<String>)
    ensures
        text::views(final(chunks)@) == add_chunk(
            text::views(old(chunks)@),
            text::opt_view(chunk),
        ),
{
    let ghost before = text::views(chunks@);
    if let Some(chunk) = chunk {
        chunks.push(chunk);
        assert(text::views(chunks@) =~= before.push(chunk@));
    }
}

/// Appends the texts of the parts of a message.
fn push_parts(chunks: &mut Vec<String>, parts: &Vec<Json>)
    requires
        json::all_wf(parts@),
    ensures
        text::views(final(chunks)@) == add_parts(
            text::views(old(chunks)@),
            json::items_view(parts@),
        ),
{
    let ghost start = text::views(chunks@);
    let ghost said = json::items_view(parts@);
    let mut i: usize = 0;
    proof {
        json::lemma_items(parts@);
        assert(said.take(0) =~= Seq::<JsonView>::empty());
    }
    while i < parts.len()
        invariant
            i <= parts@.len(),
            json::all_wf(parts@),
            said == json::items_view(parts@),
            text::views(chunks@) == add_parts(start, said.take(i as int)),
        decreases parts@.len() - i,
    {
        let part = &parts[i];
        proof {
            json::lemma_items(parts@);
            assert(said.take(i + 1).drop_last() =~= said.take(i as int));
            assert(said.take(i + 1).last() == part@);
        }
        let is_text = match part.text_at("type") {
            Some(kind) => text::same_text(kind, "output_text") || text::same_text(
                kind,
                "input_text",
            ) || text::same_text(kind, "text"),
            None => false,
        };
        if is_text {
            push_chunk(chunks, first_nonempty_str(part.text_at("text")));
        }
        i = i + 1;
    }
    proof {
        json::lemma_items(parts@);
        assert(said.take(i as int) =~= said);
    }
}

/// The text of an answer.
pub fn parse_output_text(response: &Json) -> (r: Option<String>)
    requires
        response.wf(),
    ensures
        text::opt_view(r) == output_text_of(response@),
{
    if let Some(whole) = first_nonempty_str(response.text_at("output_text")) {
        return Some(whole);
    }
    let mut chunks: Vec<String> = Vec::new();
    assert(text::views(chunks@) =~= Seq::<Seq<char>>::empty());
    if let Some(items) = response.array_at("output") {
        let ghost said = json::items_view(items@);
        let mut i: usize = 0;
        proof {
            json::lemma_items(items@);
            assert(said.take(0) =~= Seq::<JsonView>::empty());
        }
        while i < items.len()
            invariant
                i <= items@.len(),
                json::all_wf(items@),
                said == json::items_view(items@),
                text::views(chunks@) == output_chunks(said.take(i as int)),
            decreases items@.len() - i,
        {
            let item = &items[i];
            proof {
                json::lemma_items(items@);
                assert(said.take(i + 1).drop_last() =~= said.take(i as int));
                assert(said.take(i + 1).last() == item@);
            }
            push_chunk(&mut chunks, first_nonempty_str(item.text_at("text")));
            if let Some(parts) = item.array_at("content") {
                push_parts(&mut chunks, parts);
            }
            i = i + 1;
        }
        proof {
            json::lemma_items(items@);
            assert(said.take(i as int) =~= said);
        }
    }
    if chunks.len() == 0 {
        None
    } else {
        Some(text::joined(&chunks, "\n"))
    }
}

/// The first of two documents that there is.
pub open spec fn either(first: Option<JsonView>, second: Option<JsonView>) -> Option<JsonView> {
    match first {
        Some(document) => Some(document),
        None => second,
    }
}

/// What a key leads to inside of what another key leads to.
pub open spec fn nested(document: JsonView, outer: Seq<char>, inner: Seq<char>) -> Option<JsonView> {
    match document.get(outer) {
        Some(value) => value.get(inner),
        None => None,
    }
}

/// The text of a document, where there is one and it is text.
pub open spec fn text_in(document: Option<JsonView>) -> Option<Seq<char>> {
    match document {
        Some(value) => value.as_str(),
        None => None,
    }
}

/// The tool call that an item asks for.
pub open spec fn call_in(item: JsonView) -> Option<CallView> {
    let kind = item.text_at("type"@);
    let name = gemini::or_empty(
        text_in(either(item.get("name"@), nested(item, "function"@, "name"@))),
    );
    if kind != Some("function_call"@) && kind != Some("tool_call"@) || name.len() == 0 {
        None
    } else {
        let arguments = either(
            either(item.get("arguments"@), nested(item, "function"@, "arguments"@)),
            item.get("args"@),
        );
        Some(
            CallView {
                id: text_in(either(item.get("call_id"@), item.get("id"@))),
                name,
                args_json: match arguments {
                    Some(JsonView::Str(raw)) => arguments_text(raw),
                    Some(document) => object_text(document),
                    None => "{}"@,
                },
            },
        )
    }
}

/// What a key leads to, or another key.
fn get_either<'a>(document: &'a Json, first: &str, second: &str) -> (r: Option<&'a Json>)
    requires
        document.wf(),
    ensures
        json::opt_json(r) == either(document@.get(first@), document@.get(second@)),
        r matches Some(value) ==> value.wf(),
{
    match document.get(first) {
        Some(value) => Some(value),
        None => document.get(second),
    }
}

/// What a key leads to inside of what another key leads to.
fn get_nested<'a>(document: &'a Json, outer: &str, inner: &str) -> (r: Option<&'a Json>)
    requires
        document.wf(),
    ensures
        json::opt_json(r) == nested(document@, outer@, inner@),
        r matches Some(value) ==> value.wf(),
{
    match document.get(outer) {
        Some(value) => value.get(inner),
        None => None,
    }
}

/// The text of a document, where there is one and it is text.
fn text_of<'a>(document: Option<&'a Json>) -> (r: Option<&'a str>)
    ensures
        json::opt_str(r) == text_in(json::opt_json(document)),
{
    match document {
        Some(value) => value.as_str(),
        None => None,
    }
}

/// The tool call that an item asks for.
pub fn parse_tool_call(item: &Json) -> (r: Option<ToolCall>)
    requires
        item.wf(),
    ensures
        gemini::opt_call(r) == call_in(item@),
{
    let is_call = match item.text_at("type") {
        Some(kind) => text::same_text(kind, "function_call") || text::same_text(kind, "tool_call"),
        None => false,
    };
    if !is_call {
        return None;
    }
    let named = match item.get("name") {
        Some(value) => Some(value),
        None => get_nested(item, "function", "name"),
    };
    let name = match text_of(named) {
        Some(name) => name.to_owned(),
        None => String::new(),
    };
    if name.as_str().is_empty() {
        return None;
    }
    let id = gemini::owned(text_of(get_either(item, "call_id", "id")));
    let arguments = match item.get("arguments") {
        Some(value) => Some(value),
        None => match get_nested(item, "function", "arguments") {
            Some(value) => Some(value),
            None => item.get("args"),
        },
    };
    let args_json = match arguments {
        Some(document) => match document {
            Json::Str(raw) => normalize_tool_arguments(raw.as_str()),
            _ => object_text_of(document),
        },
        None => "{}".to_owned(),
    };
    Some(ToolCall { id, name, args_json })
}

/// The array under a key is a part of the document.
pub proof fn lemma_array_at_smaller(document: JsonView, key: Seq<char>)
    ensures
        document.array_at(key) matches Some(items) ==> decreases_to!(document => items),
{
    if let Some(items) = document.array_at(key) {
        assert(decreases_to!(document => document->Object_0[key]));
        assert(decreases_to!(document => document->Object_0[key]->Array_0));
    }
}

/// The tool calls in a document: its own, then those of its output, its content and its calls.
pub open spec fn calls_in(node: JsonView) -> Seq<CallView>
    decreases node,
{
    proof {
        lemma_array_at_smaller(node, "output"@);
        lemma_array_at_smaller(node, "content"@);
        lemma_array_at_smaller(node, "tool_calls"@);
    }
    let own = match call_in(node) {
        Some(call) => seq![call],
        None => Seq::empty(),
    };
    let output = match node.array_at("output"@) {
        Some(items) => calls_in_all(items),
        None => Seq::empty(),
    };
    let content = match node.array_at("content"@) {
        Some(items) => calls_in_all(items),
        None => Seq::empty(),
    };
    let calls = match node.array_at("tool_calls"@) {
        Some(items) => calls_in_all(items),
        None => Seq::empty(),
    };
    own + output + content + calls
}

/// The tool calls in a list of documents.
pub open spec fn calls_in_all(nodes: Seq<JsonView>) -> Seq<CallView>
    decreases nodes,
{
    if nodes.len() == 0 {
        Seq::empty()
    } else {
        calls_in_all(nodes.drop_last()) + calls_in(nodes.last())
    }
}

/// Appends the tool calls in a document.
pub fn collect_tool_calls(node: &Json, out: &mut Vec<ToolCall>)
    requires
        node.wf(),
    ensures
        types::call_views(final(out)@) == types::call_views(old(out)@) + calls_in(node@),
    decreases node@, 1int,
{
    let ghost start = types::call_views(out@);
    proof {
        lemma_array_at_smaller(node@, "output"@);
        lemma_array_at_smaller(node@, "content"@);
        lemma_array_at_smaller(node@, "tool_calls"@);
    }
    if let Some(call) = parse_tool_call(node) {
        out.push(call);
        assert(types::call_views(out@) =~= start + seq![call@]);
    } else {
        assert(start + Seq::<CallView>::empty() =~= start);
    }
    let ghost own = types::call_views(out@);
    if let Some(items) = node.array_at("output") {
        collect_from_list(items, out);
    } else {
        assert(own + Seq::<CallView>::empty() =~= own);
    }
    let ghost after_output = types::call_views(out@);
    if let Some(items) = node.array_at("content") {
        collect_from_list(items, out);
    } else {
        assert(after_output + Seq::<CallView>::empty() =~= after_output);
    }
    let ghost after_content = types::call_views(out@);
    if let Some(items) = node.array_at("tool_calls") {
        collect_from_list(items, out);
    } else {
        assert(after_content + Seq::<CallView>::empty() =~= after_content);
    }
    assert(types::call_views(out@) =~= start + calls_in(node@));
}

/// Appends the tool calls in a list of documents.
fn collect_from_list(items: &Vec<Json>, out: &mut Vec<ToolCall>)
    requires
        json::all_wf(items@),
    ensures
        types::call_views(final(out)@) == types::call_views(old(out)@) + calls_in_all(
            json::items_view(items@),
        ),
    decreases json::items_view(items@), 0int,
{
    let ghost start = types::call_views(out@);
    let ghost said = json::items_view(items@);
    let mut i: usize = 0;
    proof {
        json::lemma_items(items@);
        assert(said.take(0) =~= Seq::<JsonView>::empty());
        assert(start + Seq::<CallView>::empty() =~= start);
    }
    while i < items.len()
        invariant
            i <= items@.len(),
            json::all_wf(items@),
            said == json::items_view(items@),
            types::call_views(out@) == start + calls_in_all(said.take(i as int)),
        decreases items@.len() - i,
    {
        proof {
            json::lemma_items(items@);
            assert(decreases_to!(said => said[i as int]));
            assert(said.take(i + 1).drop_last() =~= said.take(i as int));
            assert(said.take(i + 1).last() == items@[i as int]@);
        }
        let ghost before = types::call_views(out@);
        collect_tool_calls(&items[i], out);
        i = i + 1;
        assert(types::call_views(out@) =~= start + calls_in_all(said.take(i as int)));
    }
    proof {
        json::lemma_items(items@);
        assert(said.take(i as int) =~= said);
    }
}

/// What an answer says.
pub open spec fn response_in(response: JsonView) -> ResponseView {
    ResponseView { output_text: output_text_of(response), tool_calls: calls_in(response) }
}

/// What an answer says.
pub fn parse_provider_response(response: &Json) -> (r: ProviderResponse)
    requires
        response.wf(),
    ensures
        r@ == response_in(response@),
{
    let mut tool_calls: Vec<ToolCall> = Vec::new();
    collect_tool_calls(response, &mut tool_calls);
    assert(types::call_views(tool_calls@) =~= calls_in(response@));
    let output_text = parse_output_text(response);
    ProviderResponse { output_text, tool_calls }
}

/// The first of two texts that there is.
pub open spec fn either_text(first: Option<Seq<char>>, second: Option<Seq<char>>) -> Option<
    Seq<char>,
> {
    match first {
        Some(value) => Some(value),
        None => second,
    }
}

/// The message of an event that tells of an error.
pub open spec fn stream_error(event: JsonView) -> Option<Seq<char>> {
    let kind = event.text_at("type"@);
    if kind == Some("error"@) {
        nonempty(
            either_text(
                either_text(event.text_at("message"@), event.text_at("code"@)),
                text_in(nested(event, "error"@, "message"@)),
            ),
        )
    } else if kind == Some("response.failed"@) {
        nonempty(
            match event.get("response"@) {
                Some(response) => text_in(nested(response, "error"@, "message"@)),
                None => None,
            },
        )
    } else {
        None
    }
}

/// Whether the type of an event is the given one.
fn has_type(event: &Json, kind: &str) -> (r: bool)
    requires
        event.wf(),
    ensures
        r == (event@.text_at("type"@) == Some(kind@)),
{
    match event.text_at("type") {
        Some(given) => text::same_text(given, kind),
        None => false,
    }
}

/// The message of an event that tells of an error.
pub fn extract_stream_error_message(event: &Json) -> (r: Option<String>)
    requires
        event.wf(),
    ensures
        text::opt_view(r) == stream_error(event@),
{
    if has_type(event, "error") {
        let message = match event.text_at("message") {
            Some(message) => Some(message),
            None => match event.text_at("code") {
                Some(code) => Some(code),
                None => text_of(get_nested(event, "error", "message")),
            },
        };
        return first_nonempty_str(message);
    }
    if has_type(event, "response.failed") {
        let message = match event.get("response") {
            Some(response) => text_of(get_nested(response, "error", "message")),
            None => None,
        };
        return first_nonempty_str(message);
    }
    None
}

/// What a stream reader has read so far.
#[verifier::ext_equal]
pub struct CodexReaderView {
    /// The start of a line whose end has not come.
    pub line: Seq<char>,
    /// The data lines of an event whose end has not come.
    pub data: Seq<Seq<char>>,
    /// The tool calls so far.
    pub calls: Seq<CallView>,
    /// Whether text came bit by bit.
    pub saw_text_delta: bool,
    /// Whether text was told as a whole.
    pub emitted_fallback_text: bool,
}

/// What reading leads to: the reader's state, the events told, and the error that stopped it.
#[verifier::ext_equal]
pub struct CodexReading {
    pub reader: CodexReaderView,
    pub events: Seq<EventView>,
    pub error: Option<ErrorView>,
}

/// Reading of a bit of text.
pub open spec fn read_delta(reading: CodexReading, event: JsonView) -> CodexReading {
    let delta = gemini::or_empty(event.text_at("delta"@));
    if event.text_at("type"@) == Some("response.output_text.delta"@) && delta.len() > 0 {
        CodexReading {
            reader: CodexReaderView { saw_text_delta: true, ..reading.reader },
            events: reading.events.push(EventView::TextDelta(delta)),
            ..reading
        }
    } else {
        reading
    }
}

/// Reading of a whole text, which is told only where no text was told before.
pub open spec fn read_whole_text(reading: CodexReading, whole: Option<Seq<char>>) -> CodexReading {
    if !reading.reader.saw_text_delta && !reading.reader.emitted_fallback_text && whole is Some {
        CodexReading {
            reader: CodexReaderView { emitted_fallback_text: true, ..reading.reader },
            events: reading.events.push(EventView::TextDelta(whole->0)),
            ..reading
        }
    } else {
        reading
    }
}

/// Reading of a tool call.
pub open spec fn read_call(reading: CodexReading, call: CallView) -> CodexReading {
    CodexReading {
        reader: CodexReaderView {
            calls: stream::record(reading.reader.calls, call),
            ..reading.reader
        },
        events: reading.events + stream::record_events(reading.reader.calls, call),
        ..reading
    }
}

/// Reading of tool calls, one after another.
pub open spec fn read_calls(reading: CodexReading, calls: Seq<CallView>) -> CodexReading
    decreases calls.len(),
{
    if calls.len() == 0 {
        reading
    } else {
        read_call(read_calls(reading, calls.drop_last()), calls.last())
    }
}

/// Reading of the end of a text.
pub open spec fn read_text_done(reading: CodexReading, event: JsonView) -> CodexReading {
    if event.text_at("type"@) == Some("response.output_text.done"@) {
        read_whole_text(reading, nonempty(event.text_at("text"@)))
    } else {
        reading
    }
}

/// Reading of an item of the answer.
pub open spec fn read_item(reading: CodexReading, event: JsonView) -> CodexReading {
    let kind = event.text_at("type"@);
    if kind == Some("response.output_item.done"@) || kind == Some("response.output_item.added"@) {
        match event.get("item"@) {
            Some(item) => match call_in(item) {
                Some(call) => read_call(reading, call),
                None => reading,
            },
            None => reading,
        }
    } else {
        reading
    }
}

/// Reading of the answer as a whole.
pub open spec fn read_completed(reading: CodexReading, event: JsonView) -> CodexReading {
    let kind = event.text_at("type"@);
    if kind == Some("response.completed"@) || kind == Some("response.done"@) {
        match event.get("response"@) {
            Some(response) => read_calls(
                read_whole_text(reading, output_text_of(response)),
                calls_in(response),
            ),
            None => reading,
        }
    } else {
        reading
    }
}

/// Reading of the document of an event.
pub open spec fn read_event(reading: CodexReading, event: JsonView) -> CodexReading {
    match stream_error(event) {
        Some(message) => CodexReading {
            error: Some(ErrorView::Provider("openai_codex stream error: "@ + message)),
            ..reading
        },
        None => read_completed(
            read_item(read_text_done(read_delta(reading, event), event), event),
            event,
        ),
    }
}

/// Reading of the documents of an event, one after another, up to an error.
pub open spec fn read_events(reading: CodexReading, events: Seq<JsonView>) -> CodexReading
    decreases events.len(),
{
    if events.len() == 0 {
        reading
    } else {
        let before = read_events(reading, events.drop_last());
        if before.error is None {
            read_event(before, events.last())
        } else {
            before
        }
    }
}

/// Whether a line of an event holds no document.
pub open spec fn no_document(line: Seq<char>) -> bool {
    text::is_blank(line) || text::trim(line) == "[DONE]"@
}

/// The documents in the lines of an event; a line that is none is left out.
pub open spec fn line_documents(lines: Seq<Seq<char>>) -> Seq<JsonView>
    decreases lines.len(),
{
    if lines.len() == 0 {
        Seq::empty()
    } else {
        let before = line_documents(lines.drop_last());
        if no_document(lines.last()) {
            before
        } else {
            match json::parsed_json(text::trim(lines.last())) {
                Ok(document) => before.push(document),
                Err(_) => before,
            }
        }
    }
}

/// The documents in the data of an event: the data as a whole, else line by line.
pub open spec fn event_documents(payload: Seq<char>) -> Seq<JsonView> {
    if no_document(payload) {
        Seq::empty()
    } else {
        match json::parsed_json(text::trim(payload)) {
            Ok(document) => seq![document],
            Err(_) => line_documents(text::lines(payload)),
        }
    }
}

/// Reading of the end of an event.
pub open spec fn read_codex_event_end(reading: CodexReading) -> CodexReading {
    if reading.reader.data.len() == 0 {
        reading
    } else {
        read_events(
            CodexReading {
                reader: CodexReaderView { data: Seq::empty(), ..reading.reader },
                ..reading
            },
            event_documents(text::join(reading.reader.data, "\n"@)),
        )
    }
}

/// Reading of a line: an empty one ends an event, one with data adds to it.
pub open spec fn read_codex_line(reading: CodexReading, line: Seq<char>) -> CodexReading {
    if line.len() == 0 {
        read_codex_event_end(reading)
    } else if text::starts_with(line, "data:"@) {
        CodexReading {
            reader: CodexReaderView {
                data: reading.reader.data.push(
                    text::trim_start_of(line.skip("data:"@.len() as int), CharClass::White),
                ),
                ..reading.reader
            },
            ..reading
        }
    } else {
        reading
    }
}

/// Reading of a character: a line feed ends a line.  Behind an error nothing more is read.
pub open spec fn read_codex_char(reading: CodexReading, c: char) -> CodexReading {
    if reading.error is None && c == '\n' {
        read_codex_line(
            CodexReading {
                reader: CodexReaderView { line: Seq::empty(), ..reading.reader },
                ..reading
            },
            text::strip_cr(reading.reader.line),
        )
    } else {
        CodexReading {
            reader: CodexReaderView { line: reading.reader.line.push(c), ..reading.reader },
            ..reading
        }
    }
}

/// Reading of a text, character by character.
pub open spec fn read_codex_text(reading: CodexReading, chunk: Seq<char>) -> CodexReading
    decreases chunk.len(),
{
    if chunk.len() == 0 {
        reading
    } else {
        read_codex_char(read_codex_text(reading, chunk.drop_last()), chunk.last())
    }
}

/// Reading of the end of the stream.
pub open spec fn read_codex_end(reading: CodexReading) -> CodexReading {
    let last = if reading.reader.line.len() > 0 {
        read_codex_line(
            CodexReading {
                reader: CodexReaderView { line: Seq::empty(), ..reading.reader },
                ..reading
            },
            text::strip_cr(reading.reader.line),
        )
    } else {
        reading
    };
    let flushed = if last.error is None {
        read_codex_event_end(last)
    } else {
        last
    };
    if flushed.error is None {
        CodexReading {
            events: flushed.events + types::complete_events(flushed.reader.calls) + seq![
                EventView::Done,
            ],
            ..flushed
        }
    } else {
        flushed
    }
}

/// It does not matter how a stream is cut into chunks.
pub proof fn law_chunks_do_not_matter(reading: CodexReading, first: Seq<char>, second: Seq<char>)
    ensures
        read_codex_text(reading, first + second) == read_codex_text(
            read_codex_text(reading, first),
            second,
        ),
    decreases second.len(),
{
    if second.len() == 0 {
        assert(first + second =~= first);
    } else {
        law_chunks_do_not_matter(reading, first, second.drop_last());
        assert((first + second).drop_last() =~= first + second.drop_last());
    }
}

/// Recording calls keeps ids distinct.
proof fn lemma_calls_keep_ids(reading: CodexReading, calls: Seq<CallView>)
    requires
        stream::ids_distinct(reading.reader.calls),
    ensures
        stream::ids_distinct(read_calls(reading, calls).reader.calls),
    decreases calls.len(),
{
    if calls.len() > 0 {
        lemma_calls_keep_ids(reading, calls.drop_last());
        stream::law_record_keeps_ids_distinct(
            read_calls(reading, calls.drop_last()).reader.calls,
            calls.last(),
        );
    }
}

/// Reading events keeps ids distinct.
proof fn lemma_events_keep_ids(reading: CodexReading, events: Seq<JsonView>)
    requires
        stream::ids_distinct(reading.reader.calls),
    ensures
        stream::ids_distinct(read_events(reading, events).reader.calls),
    decreases events.len(),
{
    if events.len() > 0 {
        lemma_events_keep_ids(reading, events.drop_last());
        let before = read_events(reading, events.drop_last());
        if before.error is None {
            let event = events.last();
            let texts = read_text_done(read_delta(before, event), event);
            if let Some(item) = event.get("item"@) {
                if let Some(call) = call_in(item) {
                    stream::law_record_keeps_ids_distinct(texts.reader.calls, call);
                }
            }
            let items = read_item(texts, event);
            assert(stream::ids_distinct(items.reader.calls));
            if let Some(response) = event.get("response"@) {
                lemma_calls_keep_ids(
                    read_whole_text(items, output_text_of(response)),
                    calls_in(response),
                );
            }
        }
    }
}

/// However much is read, no two tool calls have one id: a call told again under its id takes the
/// place of the earlier one.
pub proof fn law_reading_keeps_ids_distinct(reading: CodexReading, chunk: Seq<char>)
    requires
        stream::ids_distinct(reading.reader.calls),
    ensures
        stream::ids_distinct(read_codex_text(reading, chunk).reader.calls),
    decreases chunk.len(),
{
    if chunk.len() > 0 {
        law_reading_keeps_ids_distinct(reading, chunk.drop_last());
        let before = read_codex_text(reading, chunk.drop_last());
        if before.error is None && chunk.last() == '\n' {
            lemma_events_keep_ids(
                CodexReading {
                    reader: CodexReaderView {
                        line: Seq::empty(),
                        data: Seq::empty(),
                        ..before.reader
                    },
                    ..before
                },
                event_documents(text::join(before.reader.data, "\n"@)),
            );
        }
    }
}

/// A reader of a streamed answer.
pub struct CodexStreamAccumulator {
    line_buffer: String,
    event_data_lines: Vec<String>,
    tool_calls: Vec<ToolCall>,
    saw_text_delta: bool,
    emitted_fallback_text: bool,
}

impl View for CodexStreamAccumulator {
    type V = CodexReaderView;

    closed spec fn view(&self) -> CodexReaderView {
        CodexReaderView {
            line: self.line_buffer@,
            data: text::views(self.event_data_lines@),
            calls: types::call_views(self.tool_calls@),
            saw_text_delta: self.saw_text_delta,
            emitted_fallback_text: self.emitted_fallback_text,
        }
    }
}

/// Where a reader starts.
pub open spec fn fresh_codex_reader() -> CodexReaderView {
    CodexReaderView {
        line: Seq::empty(),
        data: Seq::empty(),
        calls: Seq::empty(),
        saw_text_delta: false,
        emitted_fallback_text: false,
    }
}

/// Where reading goes on from: the reader's state and the events told before.
pub open spec fn codex_from(reader: CodexReaderView, events: Seq<EventView>) -> CodexReading {
    CodexReading { reader, events, error: None }
}

/// Where reading has come to.
pub open spec fn codex_at(
    reader: CodexReaderView,
    events: Seq<EventView>,
    r: Result<(), FrameworkError>,
) -> CodexReading {
    CodexReading { reader, events, error: gemini::error_of(r) }
}

impl Default for CodexStreamAccumulator {
    fn default() -> (r: Self)
        ensures
            r@ == fresh_codex_reader(),
    {
        let r = CodexStreamAccumulator {
            line_buffer: String::new(),
            event_data_lines: Vec::new(),
            tool_calls: Vec::new(),
            saw_text_delta: false,
            emitted_fallback_text: false,
        };
        assert(r@ =~= fresh_codex_reader());
        r
    }
}

impl CodexStreamAccumulator {
    /// Tells a whole text, where no text was told before.
    fn tell_whole_text(&mut self, whole: Option<String>, events: &mut Vec<StreamEvent>)
        ensures
            codex_from(final(self)@, types::event_views(final(events)@)) == read_whole_text(
                codex_from(old(self)@, types::event_views(old(events)@)),
                text::opt_view(whole),
            ),
    {
        let ghost told = types::event_views(events@);
        if !self.saw_text_delta && !self.emitted_fallback_text {
            if let Some(whole) = whole {
                self.emitted_fallback_text = true;
                events.push(StreamEvent::TextDelta(whole));
                assert(types::event_views(events@) =~= told.push(EventView::TextDelta(whole@)));
            }
        }
    }

    /// Keeps a tool call, and tells of it unless its id is known.
    pub fn record_tool_call(&mut self, tool_call: ToolCall, events: &mut Vec<StreamEvent>)
        ensures
            codex_from(final(self)@, types::event_views(final(events)@)) == read_call(
                codex_from(old(self)@, types::event_views(old(events)@)),
                tool_call@,
            ),
    {
        stream::record_tool_call(&mut self.tool_calls, tool_call, events);
    }

    /// Keeps tool calls, one after another.
    fn record_all(&mut self, tool_calls: Vec<ToolCall>, events: &mut Vec<StreamEvent>)
        ensures
            codex_from(final(self)@, types::event_views(final(events)@)) == read_calls(
                codex_from(old(self)@, types::event_views(old(events)@)),
                types::call_views(tool_calls@),
            ),
    {
        let ghost start = codex_from(self@, types::event_views(events@));
        let ghost given = tool_calls@;
        let ghost all = types::call_views(given);
        assert(all.take(0) =~= Seq::<CallView>::empty());
        for tool_call in iter: tool_calls
            invariant
                iter.seq() == given,
                all == types::call_views(given),
                codex_from(self@, types::event_views(events@)) == read_calls(
                    start,
                    all.take(iter.index() as int),
                ),
        {
            proof {
                let k = iter.index() as int;
                assert(all.take(k + 1).drop_last() =~= all.take(k));
                assert(all.take(k + 1).last() == tool_call@);
            }
            self.record_tool_call(tool_call, events);
        }
        assert(all.take(all.len() as int) =~= all);
    }

    /// Reads the document of an event.
    pub fn process_event(&mut self, event: &Json, events: &mut Vec<StreamEvent>) -> (r: Result<
        (),
        FrameworkError,
    >)
        requires
            event.wf(),
        ensures
            codex_at(final(self)@, types::event_views(final(events)@), r) == read_event(
                codex_from(old(self)@, types::event_views(old(events)@)),
                event@,
            ),
    {
        let ghost start = codex_from(self@, types::event_views(events@));
        if let Some(message) = extract_stream_error_message(event) {
            return Err(
                FrameworkError::Provider(
                    text::concat2("openai_codex stream error: ", message.as_str()),
                ),
            );
        }
        if has_type(event, "response.output_text.delta") {
            if let Some(delta) = event.text_at("delta") {
                if !delta.is_empty() {
                    let ghost told = types::event_views(events@);
                    self.saw_text_delta = true;
                    events.push(StreamEvent::TextDelta(delta.to_owned()));
                    assert(types::event_views(events@) =~= told.push(EventView::TextDelta(delta@)));
                }
            }
        }
        assert(codex_from(self@, types::event_views(events@)) == read_delta(start, event@));
        if has_type(event, "response.output_text.done") {
            self.tell_whole_text(first_nonempty_str(event.text_at("text")), events);
        }
        if has_type(event, "response.output_item.done") || has_type(
            event,
            "response.output_item.added",
        ) {
            if let Some(item) = event.get("item") {
                if let Some(tool_call) = parse_tool_call(item) {
                    self.record_tool_call(tool_call, events);
                }
            }
        }
        if has_type(event, "response.completed") || has_type(event, "response.done") {
            if let Some(response) = event.get("response") {
                let parsed = parse_provider_response(response);
                self.tell_whole_text(parsed.output_text, events);
                self.record_all(parsed.tool_calls, events);
            }
        }
        Ok(())
    }

    /// Reads the documents of an event, one after another, up to an error.
    pub fn process_events(
        &mut self,
        documents: &Vec<Json>,
        events: &mut Vec<StreamEvent>,
    ) -> (r: Result<(), FrameworkError>)
        requires
            json::all_wf(documents@),
        ensures
            codex_at(final(self)@, types::event_views(final(events)@), r) == read_events(
                codex_from(old(self)@, types::event_views(old(events)@)),
                json::items_view(documents@),
            ),
    {
        let ghost start = codex_from(self@, types::event_views(events@));
        let ghost said = json::items_view(documents@);
        let mut failed: Option<FrameworkError> = None;
        let mut i: usize = 0;
        proof {
            json::lemma_items(documents@);
            assert(said.take(0) =~= Seq::<JsonView>::empty());
        }
        while i < documents.len()
            invariant
                i <= documents@.len(),
                json::all_wf(documents@),
                said == json::items_view(documents@),
                (CodexReading {
                    reader: self@,
                    events: types::event_views(events@),
                    error: match failed {
                        Some(error) => Some(error@),
                        None => None,
                    },
                }) == read_events(start, said.take(i as int)),
            decreases documents@.len() - i,
        {
            proof {
                json::lemma_items(documents@);
                assert(said.take(i + 1).drop_last() =~= said.take(i as int));
                assert(said.take(i + 1).last() == documents@[i as int]@);
            }
            if failed.is_none() {
                if let Err(error) = self.process_event(&documents[i], events) {
                    failed = Some(error);
                }
            }
            i = i + 1;
        }
        proof {
            json::lemma_items(documents@);
            assert(said.take(i as int) =~= said);
        }
        match failed {
            Some(error) => Err(error),
            None => Ok(()),
        }
    }

    /// Reads the end of an event.
    pub fn flush_event(&mut self, events: &mut Vec<StreamEvent>) -> (r: Result<
        (),
        FrameworkError,
    >)
        ensures
            codex_at(final(self)@, types::event_views(final(events)@), r) == read_codex_event_end(
                codex_from(old(self)@, types::event_views(old(events)@)),
            ),
    {
        if self.event_data_lines.len() == 0 {
            return Ok(());
        }
        let payload = text::joined(&self.event_data_lines, "\n");
        self.event_data_lines = Vec::new();
        assert(self@.data =~= Seq::<Seq<char>>::empty());
        let documents = documents_in_event(payload.as_str());
        self.process_events(&documents, events)
    }

    /// Reads a line.
    pub fn process_line(&mut self, line: &str, events: &mut Vec<StreamEvent>) -> (r: Result<
        (),
        FrameworkError,
    >)
        ensures
            codex_at(final(self)@, types::event_views(final(events)@), r) == read_codex_line(
                codex_from(old(self)@, types::event_views(old(events)@)),
                line@,
            ),
    {
        if line.is_empty() {
            return self.flush_event(events);
        }
        if text::begins_with(line, "data:") {
            let ghost before = text::views(self.event_data_lines@);
            proof {
                reveal_strlit("data:");
            }
            let chars = text::chars_of(line);
            let data = text::string_of_range(&chars, 5, chars.len());
            assert(data@ =~= line@.skip(5));
            let kept = text::trim_start_class(data.as_str(), CharClass::White);
            self.event_data_lines.push(kept);
            assert(text::views(self.event_data_lines@) =~= before.push(kept@));
        }
        Ok(())
    }

    /// Reads a chunk of text.
    pub fn push_text(&mut self, chunk: &str, events: &mut Vec<StreamEvent>) -> (r: Result<
        (),
        FrameworkError,
    >)
        ensures
            codex_at(final(self)@, types::event_views(final(events)@), r) == read_codex_text(
                codex_from(old(self)@, types::event_views(old(events)@)),
                chunk@,
            ),
    {
        let ghost start = codex_from(self@, types::event_views(events@));
        let chars = text::chars_of(chunk);
        let mut failed: Option<FrameworkError> = None;
        let mut i: usize = 0;
        assert(chunk@.take(0) =~= Seq::<char>::empty());
        while i < chars.len()
            invariant
                i <= chars@.len(),
                chars@ == chunk@,
                (CodexReading {
                    reader: self@,
                    events: types::event_views(events@),
                    error: match failed {
                        Some(error) => Some(error@),
                        None => None,
                    },
                }) == read_codex_text(start, chunk@.take(i as int)),
            decreases chars@.len() - i,
        {
            let c = chars[i];
            proof {
                assert(chunk@.take(i + 1).drop_last() =~= chunk@.take(i as int));
                assert(chunk@.take(i + 1).last() == c);
            }
            if c == '\n' && failed.is_none() {
                let buffered = text::chars_of(self.line_buffer.as_str());
                let line = text::without_cr(&buffered, 0, buffered.len());
                assert(buffered@.subrange(0, buffered@.len() as int) =~= buffered@);
                self.line_buffer = String::new();
                if let Err(error) = self.process_line(line.as_str(), events) {
                    failed = Some(error);
                }
            } else {
                self.line_buffer.push(c);
            }
            i = i + 1;
        }
        assert(chunk@.take(i as int) =~= chunk@);
        match failed {
            Some(error) => Err(error),
            None => Ok(()),
        }
    }

    /// Reads a chunk of bytes, which have to be UTF-8.
    pub fn push_bytes(&mut self, bytes: &[u8], events: &mut Vec<StreamEvent>) -> (r: Result<
        (),
        FrameworkError,
    >)
        ensures
            codex_at(final(self)@, types::event_views(final(events)@), r) == (
            if vstd::utf8::valid_utf8(bytes@) {
                read_codex_text(
                    codex_from(old(self)@, types::event_views(old(events)@)),
                    vstd::utf8::decode_utf8(bytes@),
                )
            } else {
                CodexReading {
                    error: Some(
                        ErrorView::Provider(
                            "invalid codex stream bytes: "@ + stream::utf8_error(bytes@),
                        ),
                    ),
                    ..codex_from(old(self)@, types::event_views(old(events)@))
                }
            }),
    {
        match stream::text_of_bytes(bytes) {
            Ok(chunk) => self.push_text(chunk.as_str(), events),
            Err(message) => Err(
                FrameworkError::Provider(
                    text::concat2("invalid codex stream bytes: ", message.as_str()),
                ),
            ),
        }
    }

    /// Reads the end of the stream.
    pub fn finish(self, events: &mut Vec<StreamEvent>) -> (r: Result<(), FrameworkError>)
        ensures
            ({
                let end = read_codex_end(codex_from(self@, types::event_views(old(events)@)));
                types::event_views(final(events)@) == end.events && gemini::error_of(r) == end.error
            }),
    {
        let mut reader = self;
        if !reader.line_buffer.as_str().is_empty() {
            let buffered = text::chars_of(reader.line_buffer.as_str());
            let line = text::without_cr(&buffered, 0, buffered.len());
            assert(buffered@.subrange(0, buffered@.len() as int) =~= buffered@);
            reader.line_buffer = String::new();
            if let Err(error) = reader.process_line(line.as_str(), events) {
                return Err(error);
            }
        }
        if let Err(error) = reader.flush_event(events) {
            return Err(error);
        }
        types::push_complete_events(reader.tool_calls, events);
        let ghost before = types::event_views(events@);
        events.push(StreamEvent::Done);
        assert(types::event_views(events@) =~= before + seq![EventView::Done]);
        Ok(())
    }
}

/// Whether a line of an event holds no document.
fn holds_no_document(line: &str) -> (r: bool)
    ensures
        r == no_document(line@),
{
    let trimmed = text::trimmed(line);
    trimmed.as_str().is_empty() || text::same_text(trimmed.as_str(), "[DONE]")
}

/// The documents in the lines of an event; a line that is none is left out.
fn documents_in_lines(lines: &Vec<String>) -> (r: Vec<Json>)
    ensures
        json::items_view(r@) == line_documents(text::views(lines@)),
        json::all_wf(r@),
{
    let ghost all = text::views(lines@);
    let mut out: Vec<Json> = Vec::new();
    let mut i: usize = 0;
    while i < lines.len()
        invariant
            i <= lines@.len(),
            all == text::views(lines@),
            json::items_view(out@) == line_documents(all.take(i as int)),
            json::all_wf(out@),
        decreases lines@.len() - i,
    {
        let line = lines[i].as_str();
        proof {
            assert(all.take(i + 1).drop_last() =~= all.take(i as int));
            assert(all.take(i + 1).last() == line@);
        }
        if !holds_no_document(line) {
            if let Ok(document) = Json::parse(text::trimmed(line).as_str()) {
                json::push_item(&mut out, document);
            }
        }
        i = i + 1;
    }
    assert(all.take(i as int) =~= all);
    out
}

/// The documents in the data of an event: the data as a whole, else line by line.
fn documents_in_event(payload: &str) -> (r: Vec<Json>)
    ensures
        json::items_view(r@) == event_documents(payload@),
        json::all_wf(r@),
{
    if holds_no_document(payload) {
        return Vec::new();
    }
    match Json::parse(text::trimmed(payload).as_str()) {
        Ok(document) => {
            let mut out: Vec<Json> = Vec::new();
            json::push_item(&mut out, document);
            assert(json::items_view(out@) =~= seq![document@]);
            out
        },
        Err(_) => documents_in_lines(&text::lines_of(payload)),
    }
}

/// What reading a whole streamed body leads to.
pub open spec fn sse_reading(body: Seq<char>) -> CodexReading {
    let read = read_codex_text(codex_from(fresh_codex_reader(), Seq::empty()), body);
    if read.error is None {
        read_codex_end(read)
    } else {
        read
    }
}

/// The answer in a whole streamed body.
pub open spec fn sse_response(body: Seq<char>) -> Result<ResponseView, ErrorView> {
    match sse_reading(body).error {
        Some(error) => Err(error),
        None => stream::told_response(sse_reading(body).events),
    }
}

/// The answer in a whole streamed body.
pub fn parse_sse_provider_response(body: &str) -> (r: Result<ProviderResponse, FrameworkError>)
    ensures
        stream::response_result(r) == sse_response(body@),
{
    let mut accumulator = CodexStreamAccumulator::default();
    let mut events: Vec<StreamEvent> = Vec::new();
    assert(types::event_views(events@) =~= Seq::<EventView>::empty());
    if let Err(error) = accumulator.push_text(body, &mut events) {
        return Err(error);
    }
    if let Err(error) = accumulator.finish(&mut events) {
        return Err(error);
    }
    stream::response_from_events(events)
}

/// The body on one line, cut to a length.
pub open spec fn body_preview(body: Seq<char>) -> Seq<char> {
    text::clip(text::join(text::words(body), " "@), ERROR_BODY_PREVIEW_CHARS as int)
}

/// The body on one line, cut to a length.
pub fn sanitize_body_for_error(body: &str) -> (r: String)
    ensures
        r@ == body_preview(body@),
{
    let compact = text::joined(&text::words_of(body), " ");
    text::clipped(compact.as_str(), ERROR_BODY_PREVIEW_CHARS)
}

/// Whether a body is a stream of events.
pub open spec fn is_sse(body: Seq<char>) -> bool {
    let start = text::trim_start_of(body, CharClass::White);
    text::starts_with(start, "data:"@) || text::starts_with(start, "event:"@)
}

/// The answer in a body that is one document, given how the document parsed.
pub open spec fn document_response(
    body: Seq<char>,
    document: Result<JsonView, Seq<char>>,
) -> Result<ResponseView, ErrorView> {
    match document {
        Ok(value) => Ok(response_in(value)),
        Err(message) => Err(
            ErrorView::Provider(
                "invalid openai_codex JSON response: "@ + message + ". Payload: "@ + body_preview(
                    body,
                ),
            ),
        ),
    }
}

/// The answer in a body, or the error of reading it.
pub open spec fn body_response(body: Result<Seq<char>, Seq<char>>) -> Result<
    ResponseView,
    ErrorView,
> {
    match body {
        Err(message) => Err(
            ErrorView::Provider("failed to read openai_codex response body: "@ + message),
        ),
        Ok(content) => if is_sse(content) {
            sse_response(content)
        } else {
            document_response(content, json::parsed_json(content))
        },
    }
}

/// The answer in a body that is one document, given how the document parsed.
pub fn decode_document(body: &str, document: Result<Json, String>) -> (r: Result<
    ProviderResponse,
    FrameworkError,
>)
    requires
        document is Ok ==> document->Ok_0.wf(),
    ensures
        stream::response_result(r) == document_response(
            body@,
            match document {
                Ok(value) => Ok(value@),
                Err(message) => Err(message@),
            },
        ),
{
    match document {
        Ok(value) => Ok(parse_provider_response(&value)),
        Err(message) => {
            let head = text::concat3(
                "invalid openai_codex JSON response: ",
                message.as_str(),
                ". Payload: ",
            );
            Err(
                FrameworkError::Provider(
                    text::concat2(head.as_str(), sanitize_body_for_error(body).as_str()),
                ),
            )
        },
    }
}

/// The answer in a body, or the error of reading it.
pub fn decode_responses_body(body: Result<String, String>) -> (r: Result<
    ProviderResponse,
    FrameworkError,
>)
    ensures
        stream::response_result(r) == body_response(
            match body {
                Ok(content) => Ok(content@),
                Err(message) => Err(message@),
            },
        ),
{
    let content = match body {
        Ok(content) => content,
        Err(message) => {
            return Err(
                FrameworkError::Provider(
                    text::concat2("failed to read openai_codex response body: ", message.as_str()),
                ),
            );
        },
    };
    let start = text::trim_start_class(content.as_str(), CharClass::White);
    if text::begins_with(start.as_str(), "data:") || text::begins_with(start.as_str(), "event:") {
        return parse_sse_provider_response(content.as_str());
    }
    decode_document(content.as_str(), Json::parse(content.as_str()))
}

/// The body of a request.
pub open spec fn codex_request(
    model: Seq<char>,
    instructions: Seq<char>,
    input: Seq<JsonView>,
    tools: Seq<JsonView>,
    stream: bool,
) -> JsonView {
    let body = map![
        "model"@ => JsonView::Str(model),
        "input"@ => JsonView::Array(input),
        "instructions"@ => JsonView::Str(instructions),
        "store"@ => JsonView::Bool(false),
        "stream"@ => JsonView::Bool(stream),
        "text"@ => JsonView::Object(map!["verbosity"@ => JsonView::Str("medium"@)]),
        "reasoning"@ => JsonView::Object(
            map!["effort"@ => JsonView::Str("high"@), "summary"@ => JsonView::Str("auto"@)],
        ),
        "include"@ => JsonView::Array(seq![JsonView::Str("reasoning.encrypted_content"@)]),
    ];
    JsonView::Object(
        if tools.len() == 0 {
            body
        } else {
            body.insert("tools"@, JsonView::Array(tools)).insert(
                "tool_choice"@,
                JsonView::Str("auto"@),
            ).insert("parallel_tool_calls"@, JsonView::Bool(true))
        },
    )
}

/// The body of a request.
#[verifier::rlimit(60)]
pub fn build_request_body(
    model: &str,
    instructions: &str,
    input: Vec<Json>,
    tools: Vec<Json>,
    stream: bool,
) -> (r: Json)
    requires
        json::all_wf(input@),
        json::all_wf(tools@),
    ensures
        r@ == codex_request(
            model@,
            instructions@,
            json::items_view(input@),
            json::items_view(tools@),
            stream,
        ),
        r.wf(),
{
    let verbosity = Json::object().with("verbosity", Json::text("medium"));
    let reasoning = Json::object().with("effort", Json::text("high")).with(
        "summary",
        Json::text("auto"),
    );
    let body = Json::object().with("model", Json::text(model)).with("input", Json::array(input)).with(
        "instructions",
        Json::text(instructions),
    ).with("store", Json::Bool(false)).with("stream", Json::Bool(stream)).with(
        "text",
        verbosity,
    ).with("reasoning", reasoning).with(
        "include",
        gemini::single(Json::text("reasoning.encrypted_content")),
    );
    proof {
        json::lemma_items(tools@);
    }
    if tools.len() == 0 {
        body
    } else {
        body.with("tools", Json::array(tools)).with("tool_choice", Json::text("auto")).with(
            "parallel_tool_calls",
            Json::Bool(true),
        )
    }
}

/// The message in the document of a refusal.
pub open spec fn refusal_message(document: JsonView) -> Option<Seq<char>> {
    match document.get("error"@) {
        Some(error) => nonempty(error.text_at("message"@)),
        None => None,
    }
}

/// What is told of the body of a refusal.
pub open spec fn refusal_summary(body: Seq<char>) -> Seq<char> {
    match json::parsed_json(body) {
        Ok(document) => match refusal_message(document) {
            Some(message) => message,
            None => body_preview(body),
        },
        Err(_) => body_preview(body),
    }
}

/// The message in the document of a refusal.
pub fn refusal_message_in(document: &Json) -> (r: Option<String>)
    requires
        document.wf(),
    ensures
        text::opt_view(r) == refusal_message(document@),
{
    match document.get("error") {
        Some(error) => first_nonempty_str(error.text_at("message")),
        None => None,
    }
}

/// What is told of the body of a refusal.
pub fn summarize_openai_codex_error(body: &str) -> (r: String)
    ensures
        r@ == refusal_summary(body@),
{
    if let Ok(document) = Json::parse(body) {
        if let Some(message) = refusal_message_in(&document) {
            return message;
        }
    }
    sanitize_body_for_error(body)
}

/// The error of a request that was refused with the given status and body.
pub fn refused(status: &str, body: &str) -> (r: FrameworkError)
    ensures
        r@ == ErrorView::Provider(
            "openai_codex"@ + " returned "@ + status@ + ": "@ + refusal_summary(body@),
        ),
{
    stream::refused("openai_codex", status, summarize_openai_codex_error(body).as_str())
}

/// Where requests go.
pub const OPENAI_CODEX_RESPONSES_URL: &'static str =
    "https://chatgpt.com/backend-api/codex/responses";

/// The headers of a request, but for the account.
pub open spec fn fixed_headers(access_token: Seq<char>, stream: bool) -> Seq<
    (Seq<char>, Seq<char>),
> {
    seq![
        ("authorization"@, "Bearer "@ + access_token),
        ("OpenAI-Beta"@, "responses=experimental"@),
        ("originator"@, "pi"@),
        (
            "accept"@,
            if stream {
                "text/event-stream"@
            } else {
                "application/json"@
            },
        ),
        ("Content-Type"@, "application/json"@),
    ]
}

/// The headers of a request.
pub open spec fn headers_of(
    access_token: Seq<char>,
    account_id: Option<Seq<char>>,
    stream: bool,
) -> Seq<(Seq<char>, Seq<char>)> {
    match account_id {
        Some(id) => fixed_headers(access_token, stream).push(("chatgpt-account-id"@, id)),
        None => fixed_headers(access_token, stream),
    }
}

/// What a list of headers says.
pub open spec fn header_views(headers: Seq<(String, String)>) -> Seq<(Seq<char>, Seq<char>)> {
    Seq::new(headers.len(), |i: int| (headers[i].0@, headers[i].1@))
}

/// The headers of a request.
pub fn request_headers(access_token: &str, account_id: Option<&str>, stream: bool) -> (r: Vec<
    (String, String),
>)
    ensures
        header_views(r@) == headers_of(access_token@, json::opt_str(account_id), stream),
{
    let mut headers: Vec<(String, String)> = Vec::new();
    headers.push(("authorization".to_owned(), text::concat2("Bearer ", access_token)));
    headers.push(("OpenAI-Beta".to_owned(), "responses=experimental".to_owned()));
    headers.push(("originator".to_owned(), "pi".to_owned()));
    headers.push(
        (
            "accept".to_owned(),
            if stream {
                "text/event-stream".to_owned()
            } else {
                "application/json".to_owned()
            },
        ),
    );
    headers.push(("Content-Type".to_owned(), "application/json".to_owned()));
    assert(header_views(headers@) =~= fixed_headers(access_token@, stream));
    if let Some(id) = account_id {
        headers.push(("chatgpt-account-id".to_owned(), id.to_owned()));
        assert(header_views(headers@) =~= fixed_headers(access_token@, stream).push(
            ("chatgpt-account-id"@, id@),
        ));
    }
    headers
}

/// What a request is made of.
pub struct RequestContext {
    pub access_token: String,
    pub account_id: Option<String>,
    pub input: Vec<Json>,
    pub tools: Vec<Json>,
    pub instructions: String,
}

/// What a request is made of, as it reads.
#[verifier::ext_equal]
pub struct RequestContextView {
    pub access_token: Seq<char>,
    pub account_id: Option<Seq<char>>,
    pub input: Seq<JsonView>,
    pub tools: Seq<JsonView>,
    pub instructions: Seq<char>,
}

impl View for RequestContext {
    type V = RequestContextView;

    open spec fn view(&self) -> RequestContextView {
        RequestContextView {
            access_token: self.access_token@,
            account_id: text::opt_view(self.account_id),
            input: json::items_view(self.input@),
            tools: json::items_view(self.tools@),
            instructions: self.instructions@,
        }
    }
}

/// What a lookup of an optional text says.
pub open spec fn lookup_view(r: Result<Option<String>, String>) -> Result<
    Option<Seq<char>>,
    Seq<char>,
> {
    match r {
        Ok(found) => Ok(text::opt_view(found)),
        Err(message) => Err(message@),
    }
}

/// What a request is made of, from the outcomes of looking up the token and the account.
pub open spec fn request_context(
    access_token: Result<Option<Seq<char>>, Seq<char>>,
    profile_account: Result<Option<Seq<char>>, Seq<char>>,
    token_account: Option<Seq<char>>,
    system_prompt: Seq<char>,
    history: Seq<MessageView>,
    tools: Seq<DefinitionView>,
) -> Result<RequestContextView, ErrorView> {
    match access_token {
        Err(message) => Err(
            ErrorView::Provider("openai_codex auth token lookup failed: "@ + message),
        ),
        Ok(None) => Err(
            ErrorView::Provider(
                "OpenAI Codex auth profile not found. Run `simpleclaw auth login --provider openai_codex`."@,
            ),
        ),
        Ok(Some(token)) => match profile_account {
            Err(message) => Err(
                ErrorView::Provider("openai_codex auth profile lookup failed: "@ + message),
            ),
            Ok(account) => Ok(
                RequestContextView {
                    access_token: token,
                    account_id: either_text(account, token_account),
                    input: input_items(history),
                    tools: tool_items(tools),
                    instructions: instructions_of(system_prompt),
                },
            ),
        },
    }
}

/// What a request is made of, from the outcomes of looking up the token, the account of the
/// profile, and the account that the token itself names.
pub fn build_request_context(
    access_token: Result<Option<String>, String>,
    profile_account: Result<Option<String>, String>,
    token_account: Option<String>,
    system_prompt: &str,
    history: &[Message],
    tools: &[ToolDefinition],
) -> (r: Result<RequestContext, FrameworkError>)
    requires
        types::history_wf(history@),
    ensures
        match r {
            Ok(context) => Ok::<RequestContextView, ErrorView>(context@),
            Err(error) => Err(error@),
        } == request_context(
            lookup_view(access_token),
            lookup_view(profile_account),
            text::opt_view(token_account),
            system_prompt@,
            types::message_views(history@),
            types::definition_views(tools@),
        ),
        r is Ok ==> json::all_wf(r->Ok_0.input@) && json::all_wf(r->Ok_0.tools@),
{
    let found = match access_token {
        Ok(found) => found,
        Err(message) => {
            return Err(
                FrameworkError::Provider(
                    text::concat2("openai_codex auth token lookup failed: ", message.as_str()),
                ),
            );
        },
    };
    let token = match found {
        Some(token) => token,
        None => {
            return Err(
                FrameworkError::Provider(
                    "OpenAI Codex auth profile not found. Run `simpleclaw auth login --provider openai_codex`.".to_owned(),
                ),
            );
        },
    };
    let account = match profile_account {
        Ok(account) => account,
        Err(message) => {
            return Err(
                FrameworkError::Provider(
                    text::concat2("openai_codex auth profile lookup failed: ", message.as_str()),
                ),
            );
        },
    };
    Ok(
        RequestContext {
            access_token: token,
            account_id: match account {
                Some(id) => Some(id),
                None => token_account,
            },
            input: build_input(history),
            tools: build_tools(tools),
            instructions: resolve_instructions(system_prompt),
        },
    )
}

/// The provider that answers by the Codex service.
pub struct OpenAiCodexProvider {
    model: String,
}

impl OpenAiCodexProvider {
    /// The model that is asked.
    pub closed spec fn model_view(&self) -> Seq<char> {
        self.model@
    }

    /// A provider with the given settings.
    pub fn from_config(config: OpenAiCodexProviderConfig) -> (r: Self)
        ensures
            r.model_view() == config.model@,
    {
        OpenAiCodexProvider { model: config.model }
    }

    /// The body of a request.
    pub fn request_body(&self, context: RequestContext, stream: bool) -> (r: Json)
        requires
            json::all_wf(context.input@),
            json::all_wf(context.tools@),
        ensures
            r@ == codex_request(
                self.model_view(),
                context@.instructions,
                context@.input,
                context@.tools,
                stream,
            ),
            r.wf(),
    {
        build_request_body(
            self.model.as_str(),
            context.instructions.as_str(),
            context.input,
            context.tools,
            stream,
        )
    }
}

/// A bit of text is told as it came, character for character, and nothing else is told with it.
pub proof fn law_deltas_are_told_as_they_came(
    reading: CodexReading,
    event: JsonView,
    delta: Seq<char>,
)
    requires
        event.get("type"@) == Some(JsonView::Str("response.output_text.delta"@)),
        event.get("delta"@) == Some(JsonView::Str(delta)),
        delta.len() > 0,
    ensures
        read_event(reading, event).events == reading.events.push(EventView::TextDelta(delta)),
        read_event(reading, event).reader.calls == reading.reader.calls,
        read_event(reading, event).reader.saw_text_delta,
        read_event(reading, event).error == reading.error,
{
    lemma_kinds();
}

/// The kinds of events differ.
proof fn lemma_kinds()
    ensures
        "response.output_text.delta"@.len() == 26,
        "response.output_text.done"@.len() == 25,
        "response.output_item.done"@.len() == 25,
        "response.output_text.done"@[16] == 't',
        "response.output_item.done"@[16] == 'i',
        "response.output_item.added"@.len() == 26,
        "response.output_item.added"@[16] == 'i',
        "response.output_text.delta"@[16] == 't',
        "response.completed"@.len() == 18,
        "response.done"@.len() == 13,
        "response.failed"@.len() == 15,
        "error"@.len() == 5,
{
    reveal_strlit("response.output_text.delta");
    reveal_strlit("response.output_text.done");
    reveal_strlit("response.output_item.done");
    reveal_strlit("response.output_item.added");
    reveal_strlit("response.completed");
    reveal_strlit("response.done");
    reveal_strlit("response.failed");
    reveal_strlit("error");
}

/// The bits of text in documents, put end to end.
pub open spec fn spoken(documents: Seq<JsonView>) -> Seq<char>
    decreases documents.len(),
{
    if documents.len() == 0 {
        Seq::empty()
    } else {
        let before = spoken(documents.drop_last());
        let last = documents.last();
        if last.get("type"@) == Some(JsonView::Str("response.output_text.delta"@)) {
            match last.get("delta"@) {
                Some(JsonView::Str(delta)) => before + delta,
                _ => before,
            }
        } else {
            before
        }
    }
}

/// Recording calls tells no text.
proof fn lemma_calls_say_nothing(reading: CodexReading, calls: Seq<CallView>)
    ensures
        stream::told_text(read_calls(reading, calls).events) == stream::told_text(reading.events),
        read_calls(reading, calls).reader.saw_text_delta == reading.reader.saw_text_delta,
        read_calls(reading, calls).error == reading.error,
    decreases calls.len(),
{
    if calls.len() > 0 {
        lemma_calls_say_nothing(reading, calls.drop_last());
        lemma_call_says_nothing(read_calls(reading, calls.drop_last()), calls.last());
    }
}

/// Recording a call tells no text.
proof fn lemma_call_says_nothing(reading: CodexReading, call: CallView)
    ensures
        stream::told_text(read_call(reading, call).events) == stream::told_text(reading.events),
{
    let more = stream::record_events(reading.reader.calls, call);
    stream::lemma_told_text(reading.events, more);
    reveal_with_fuel(stream::told_text, 2);
    assert(stream::told_text(more) =~= Seq::<char>::empty());
    assert(stream::told_text(reading.events) + stream::told_text(more) =~= stream::told_text(
        reading.events,
    ));
}

/// One document adds its bit of text, where text came bit by bit before.
proof fn lemma_document_says_its_delta(reading: CodexReading, event: JsonView)
    requires
        reading.reader.saw_text_delta || (event.get("type"@) == Some(
            JsonView::Str("response.output_text.delta"@),
        )),
        read_event(reading, event).error is None,
        reading.error is None,
    ensures
        stream::told_text(read_event(reading, event).events) == stream::told_text(reading.events)
            + spoken(seq![event]),
        reading.reader.saw_text_delta ==> read_event(reading, event).reader.saw_text_delta,
{
    lemma_kinds();
    reveal_with_fuel(spoken, 2);
    assert(seq![event].drop_last() =~= Seq::<JsonView>::empty());
    let said = spoken(seq![event]);
    let first = read_delta(reading, event);
    if event.text_at("type"@) == Some("response.output_text.delta"@) {
        if let Some(JsonView::Str(delta)) = event.get("delta"@) {
            assert(said =~= delta);
            if delta.len() > 0 {
                assert(first.events.drop_last() =~= reading.events);
            } else {
                assert(stream::told_text(reading.events) + said =~= stream::told_text(
                    reading.events,
                ));
            }
        } else {
            assert(said =~= Seq::<char>::empty());
            assert(stream::told_text(reading.events) + said =~= stream::told_text(reading.events));
        }
        assert(read_event(reading, event) == first);
    } else {
        assert(said =~= Seq::<char>::empty());
        assert(stream::told_text(reading.events) + said =~= stream::told_text(reading.events));
        assert(first == reading);
        let texts = read_text_done(first, event);
        assert(texts == reading);
        let items = read_item(texts, event);
        if let Some(item) = event.get("item"@) {
            if let Some(call) = call_in(item) {
                lemma_call_says_nothing(texts, call);
            }
        }
        assert(stream::told_text(items.events) == stream::told_text(reading.events));
        assert(items.reader.saw_text_delta);
        if let Some(response) = event.get("response"@) {
            assert(read_whole_text(items, output_text_of(response)) == items);
            lemma_calls_say_nothing(items, calls_in(response));
        }
    }
}

/// Text that comes bit by bit is told as it came: for documents that are read without an error,
/// the first of which is a bit of text or comes behind one, the bits told are those of the
/// documents, put end to end; a text that is repeated as a whole at the end is not told again.
pub proof fn law_text_is_told_as_it_came(reading: CodexReading, documents: Seq<JsonView>)
    requires
        reading.error is None,
        read_events(reading, documents).error is None,
        reading.reader.saw_text_delta || (documents.len() > 0 && documents[0].get("type"@) == Some(
            JsonView::Str("response.output_text.delta"@),
        ) && documents[0].text_at("delta"@) is Some && documents[0].text_at("delta"@)->Some_0.len()
            > 0),
    ensures
        stream::told_text(read_events(reading, documents).events) == stream::told_text(
            reading.events,
        ) + spoken(documents),
        read_events(reading, documents).reader.saw_text_delta,
    decreases documents.len(),
{
    if documents.len() == 0 {
        assert(stream::told_text(reading.events) + spoken(documents) =~= stream::told_text(
            reading.events,
        ));
    } else {
        let before = documents.drop_last();
        let event = documents.last();
        let earlier = read_events(reading, before);
        assert(earlier.error is None);
        reveal_with_fuel(spoken, 2);
        assert(seq![event].drop_last() =~= Seq::<JsonView>::empty());
        assert(spoken(documents) =~= spoken(before) + spoken(seq![event]));
        if before.len() == 0 {
            assert(earlier == reading);
            assert(documents[0] == event);
            lemma_document_says_its_delta(reading, event);
            assert(spoken(documents) =~= spoken(seq![event]));
            if !reading.reader.saw_text_delta {
                let delta = documents[0].text_at("delta"@)->Some_0;
                law_deltas_are_told_as_they_came(reading, event, delta);
            }
        } else {
            assert(before[0] == documents[0]);
            law_text_is_told_as_it_came(reading, before);
            lemma_document_says_its_delta(earlier, event);
            assert(stream::told_text(reading.events) + spoken(before) + spoken(seq![event])
                =~= stream::told_text(reading.events) + spoken(documents));
        }
    }
}

/// Text without the end of a line is kept until it comes.
proof fn lemma_read_plain(reading: CodexReading, line: Seq<char>)
    requires
        reading.error is None,
        forall|i: int| 0 <= i < line.len() ==> #[trigger] line[i] != '\n',
    ensures
        read_codex_text(reading, line) == (CodexReading {
            reader: CodexReaderView { line: reading.reader.line + line, ..reading.reader },
            ..reading
        }),
    decreases line.len(),
{
    if line.len() == 0 {
        assert(reading.reader.line + line =~= reading.reader.line);
    } else {
        let before = line.drop_last();
        assert forall|i: int| 0 <= i < before.len() implies #[trigger] before[i] != '\n' by {
            assert(before[i] == line[i]);
        }
        lemma_read_plain(reading, before);
        assert(line[line.len() - 1] != '\n');
        assert((reading.reader.line + before).push(line.last()) =~= reading.reader.line + line);
    }
}

/// Whether a text can stand on a data line: it is not empty, has no white space around it and no
/// end of a line in it.
pub open spec fn data_text(payload: Seq<char>) -> bool {
    &&& payload.len() > 0
    &&& !text::is_white(payload[0])
    &&& !text::is_white(payload.last())
    &&& payload.last() != '\r'
    &&& forall|i: int| 0 <= i < payload.len() ==> #[trigger] payload[i] != '\n'
}

/// A text as a data line, with the empty line behind it that ends an event.
pub open spec fn data_line(payload: Seq<char>) -> Seq<char> {
    "data: "@ + payload + seq!['\n', '\n']
}

/// The data line of an event, read from the start of a line, is the document that it holds; the
/// line that ends a stream holds none, and neither does one that is no document.
pub proof fn law_data_lines_hold_documents(reading: CodexReading, payload: Seq<char>)
    requires
        reading.error is None,
        reading.reader.line.len() == 0,
        reading.reader.data.len() == 0,
        data_text(payload),
    ensures
        ({
            let read = read_codex_text(reading, data_line(payload));
            &&& payload == "[DONE]"@ ==> read == reading
            &&& payload != "[DONE]"@ && json::parsed_json(payload) is Ok ==> read == read_event(
                reading,
                json::parsed_json(payload)->Ok_0,
            )
        }),
{
    reveal_strlit("data: ");
    reveal_strlit("data:");
    let line = "data: "@ + payload;
    let whole = data_line(payload);
    assert(line.len() == payload.len() + 6);
    assert forall|i: int| 0 <= i < line.len() implies #[trigger] line[i] != '\n' by {
        if i >= 6 {
            assert(line[i] == payload[i - 6]);
        }
    }
    lemma_read_plain(reading, line);
    let at = read_codex_text(reading, line);
    assert(at.reader.line =~= line);
    assert(text::strip_cr(line) == line) by {
        assert(line.last() == payload.last());
    }
    let first = line.push('\n');
    assert(first.drop_last() =~= line);
    assert(whole.drop_last() =~= first);
    assert(line.subrange(0, 5) =~= "data:"@);
    assert(line.skip(5) =~= seq![' '] + payload);
    assert((seq![' '] + payload).skip(1) =~= payload);
    reveal_with_fuel(text::trim_start_of, 3);
    assert(text::trim_start_of(seq![' '] + payload, CharClass::White) == payload);
    let one = read_codex_text(reading, first);
    assert(one.reader.data =~= seq![payload]);
    reveal_with_fuel(text::join, 2);
    assert(text::join(seq![payload], "\n"@) =~= payload);
    assert(one.reader.line =~= Seq::<char>::empty());
    let cleared = CodexReading {
        reader: CodexReaderView { line: Seq::empty(), data: Seq::empty(), ..one.reader },
        ..one
    };
    assert(reading.reader.line =~= Seq::<char>::empty());
    assert(reading.reader.data =~= Seq::<Seq<char>>::empty());
    assert(cleared =~= reading);
    assert(text::strip_cr(Seq::<char>::empty()) =~= Seq::<char>::empty());
    assert(text::trim(payload) == payload) by {
        reveal_with_fuel(text::trim_start_of, 2);
        reveal_with_fuel(text::trim_end_of, 2);
    }
    reveal_with_fuel(read_events, 2);
    if json::parsed_json(payload) is Ok && payload != "[DONE]"@ {
        let document = json::parsed_json(payload)->Ok_0;
        assert(event_documents(payload) =~= seq![document]);
        assert(seq![document].drop_last() =~= Seq::<JsonView>::empty());
    }
}

/// Texts as data lines, one after another.
pub open spec fn data_lines(payloads: Seq<Seq<char>>) -> Seq<char>
    decreases payloads.len(),
{
    if payloads.len() == 0 {
        Seq::empty()
    } else {
        data_lines(payloads.drop_last()) + data_line(payloads.last())
    }
}

/// Texts, put end to end.
pub open spec fn end_to_end(texts: Seq<Seq<char>>) -> Seq<char>
    decreases texts.len(),
{
    if texts.len() == 0 {
        Seq::empty()
    } else {
        end_to_end(texts.drop_last()) + texts.last()
    }
}

/// Reading bits of text tells each of them.
proof fn lemma_deltas_read(payloads: Seq<Seq<char>>, deltas: Seq<Seq<char>>)
    requires
        deltas.len() == payloads.len(),
        forall|i: int|
            0 <= i < payloads.len() ==> holds_delta(#[trigger] payloads[i], deltas[i]),
    ensures
        ({
            let start = codex_from(fresh_codex_reader(), Seq::empty());
            let read = read_codex_text(start, data_lines(payloads));
            &&& read.error is None
            &&& read.reader.line.len() == 0
            &&& read.reader.data.len() == 0
            &&& read.reader.calls.len() == 0
            &&& stream::told_text(read.events) == end_to_end(deltas)
            &&& stream::told_calls(read.events).len() == 0
            &&& forall|i: int| 0 <= i < read.events.len() ==> !((#[trigger] read.events[i]) is Error)
        }),
    decreases payloads.len(),
{
    let start = codex_from(fresh_codex_reader(), Seq::empty());
    if payloads.len() > 0 {
        let before = payloads.drop_last();
        let earlier = deltas.drop_last();
        assert forall|i: int| 0 <= i < before.len() implies holds_delta(
            #[trigger] before[i],
            earlier[i],
        ) by {
            assert(holds_delta(payloads[i], deltas[i]));
        }
        lemma_deltas_read(before, earlier);
        let read = read_codex_text(start, data_lines(before));
        let payload = payloads.last();
        let delta = deltas.last();
        assert(holds_delta(payloads[payloads.len() - 1], deltas[payloads.len() - 1]));
        law_chunks_do_not_matter(start, data_lines(before), data_line(payload));
        law_data_lines_hold_documents(read, payload);
        let document = json::parsed_json(payload)->Ok_0;
        law_deltas_are_told_as_they_came(read, document, delta);
        lemma_kinds();
        let now = read_codex_text(start, data_lines(payloads));
        assert(now == read_event(read, document));
        assert(now.events.drop_last() =~= read.events);
        assert(now.events.last() == EventView::TextDelta(delta));
    }
}

/// Whether a text on a data line is a document with a bit of text.
pub open spec fn holds_delta(payload: Seq<char>, delta: Seq<char>) -> bool {
    &&& data_text(payload)
    &&& payload != "[DONE]"@
    &&& json::parsed_json(payload) is Ok
    &&& json::parsed_json(payload)->Ok_0.get("type"@) == Some(
        JsonView::Str("response.output_text.delta"@),
    )
    &&& json::parsed_json(payload)->Ok_0.get("delta"@) == Some(JsonView::Str(delta))
    &&& delta.len() > 0
}

/// A body whose data lines each hold a bit of text is the answer that says those bits, put end to
/// end, character for character, with or without the line that ends the stream.
pub proof fn law_streamed_deltas_are_the_answer(
    payloads: Seq<Seq<char>>,
    deltas: Seq<Seq<char>>,
    ended: bool,
)
    requires
        payloads.len() > 0,
        deltas.len() == payloads.len(),
        forall|i: int|
            0 <= i < payloads.len() ==> holds_delta(#[trigger] payloads[i], deltas[i]),
    ensures
        sse_response(
            data_lines(payloads) + if ended {
                data_line("[DONE]"@)
            } else {
                Seq::empty()
            },
        ) == Ok::<ResponseView, ErrorView>(
            ResponseView { output_text: Some(end_to_end(deltas)), tool_calls: Seq::empty() },
        ),
{
    lemma_deltas_read(payloads, deltas);
    let start = codex_from(fresh_codex_reader(), Seq::empty());
    let read = read_codex_text(start, data_lines(payloads));
    if ended {
        reveal_strlit("[DONE]");
        assert(data_text("[DONE]"@));
        law_chunks_do_not_matter(start, data_lines(payloads), data_line("[DONE]"@));
        law_data_lines_hold_documents(read, "[DONE]"@);
    } else {
        assert(data_lines(payloads) + Seq::<char>::empty() =~= data_lines(payloads));
    }
    let told = read.events + types::complete_events(read.reader.calls);
    let all = told + seq![EventView::Done];
    assert(types::complete_events(read.reader.calls) =~= Seq::<EventView>::empty());
    assert(told =~= read.events);
    assert(all.drop_last() =~= read.events);
    assert(sse_reading(
        data_lines(payloads) + if ended {
            data_line("[DONE]"@)
        } else {
            Seq::empty()
        },
    ).events =~= all);
    stream::law_answers_are_what_was_told(all);
    assert forall|i: int| 0 <= i < all.len() implies !((#[trigger] all[i]) is Error) by {
        if i < read.events.len() {
            assert(all[i] == read.events[i]);
        }
    }
    assert(stream::told_text(all) == end_to_end(deltas));
    assert(stream::told_calls(all) =~= Seq::<CallView>::empty());
    assert(end_to_end(deltas).len() > 0) by {
        assert(holds_delta(payloads[payloads.len() - 1], deltas[payloads.len() - 1]));
    }
}

/// A stream that ends tells all its tool calls as complete, and its end last.
pub proof fn law_streams_end_with_their_calls(reading: CodexReading)
    requires
        reading.error is None,
        reading.reader.line.len() == 0,
        reading.reader.data.len() == 0,
    ensures
        read_codex_end(reading).error is None,
        read_codex_end(reading).events.last() == EventView::Done,
        stream::told_calls(read_codex_end(reading).events) == stream::told_calls(reading.events)
            + reading.reader.calls,
        stream::told_text(read_codex_end(reading).events) == stream::told_text(reading.events),
{
    let told = reading.events + types::complete_events(reading.reader.calls);
    let all = told + seq![EventView::Done];
    stream::lemma_told_text(reading.events, types::complete_events(reading.reader.calls));
    stream::lemma_told_complete(reading.reader.calls);
    assert(all.drop_last() =~= told);
    assert(stream::told_text(reading.events) + Seq::<char>::empty() =~= stream::told_text(
        reading.events,
    ));
}

/// A call of an item is kept with its id, its name and its arguments, where those are an object.
pub proof fn law_calls_are_read_as_they_are(
    item: JsonView,
    id: Seq<char>,
    name: Seq<char>,
    arguments: Seq<char>,
)
    requires
        item.get("type"@) == Some(JsonView::Str("function_call"@)),
        item.get("name"@) == Some(JsonView::Str(name)),
        item.get("call_id"@) == Some(JsonView::Str(id)),
        item.get("arguments"@) == Some(JsonView::Str(arguments)),
        name.len() > 0,
    ensures
        call_in(item) == Some(
            CallView {
                id: Some(id),
                name,
                args_json: match json::parsed_json(arguments) {
                    Ok(JsonView::Object(members)) => json::rendered_json(
                        JsonView::Object(members),
                    ),
                    _ => "{}"@,
                },
            },
        ),
{
}

/// A call that comes in a stream is kept: the document of an item with a call records it, and tells
/// no text.
pub proof fn law_streamed_calls_are_kept(
    reading: CodexReading,
    event: JsonView,
    item: JsonView,
    call: CallView,
)
    requires
        event.get("type"@) == Some(JsonView::Str("response.output_item.done"@)) || event.get(
            "type"@,
        ) == Some(JsonView::Str("response.output_item.added"@)),
        event.get("item"@) == Some(item),
        call_in(item) == Some(call),
        stream::ids_distinct(reading.reader.calls),
    ensures
        read_event(reading, event).error == reading.error,
        read_event(reading, event).reader.calls == stream::record(reading.reader.calls, call),
        read_event(reading, event).events == reading.events + stream::record_events(
            reading.reader.calls,
            call,
        ),
        read_event(reading, event).reader.calls.contains(call),
{
    lemma_kinds();
    let kept = stream::record(reading.reader.calls, call);
    stream::law_record_keeps_ids_distinct(reading.reader.calls, call);
    if call.id is None {
        stream::law_record_changes_one_call(reading.reader.calls, call, 0);
        assert(kept[kept.len() - 1] == call);
    }
}

/// A stream that tells of an error fails with its message, and tells nothing more.
pub proof fn law_told_errors_fail_the_stream(
    reading: CodexReading,
    event: JsonView,
    message: Seq<char>,
)
    requires
        event.get("type"@) == Some(JsonView::Str("error"@)),
        event.get("message"@) == Some(JsonView::Str(message)),
        !text::is_blank(message),
    ensures
        read_event(reading, event).error == Some(
            ErrorView::Provider("openai_codex stream error: "@ + text::trim(message)),
        ),
        read_event(reading, event).events == reading.events,
{
}

/// The text of an answer as a whole: what it says of itself, or else the texts of its items, one
/// below the other.
pub proof fn law_whole_answers_are_read(response: JsonView, said: Seq<char>, items: Seq<JsonView>)
    ensures
        response.get("output_text"@) == Some(JsonView::Str(said)) && !text::is_blank(said)
            ==> output_text_of(response) == Some(text::trim(said)),
        response.get("output_text"@) is None && response.get("output"@) == Some(
            JsonView::Array(items),
        ) && output_chunks(items).len() > 0 ==> output_text_of(response) == Some(
            text::join(output_chunks(items), "\n"@),
        ),
        response.get("output_text"@) is None && response.get("output"@) is None ==> output_text_of(
            response,
        ) is None,
{
}

/// The texts of an item's parts are all read, in their order.
pub proof fn law_parts_of_an_answer_are_read(chunks: Seq<Seq<char>>, parts: Seq<JsonView>, texts: Seq<
    Seq<char>,
>)
    requires
        texts.len() == parts.len(),
        forall|i: int|
            0 <= i < parts.len() ==> (#[trigger] parts[i]).get("type"@) == Some(
                JsonView::Str("output_text"@),
            ) && parts[i].get("text"@) == Some(JsonView::Str(texts[i])) && !text::is_blank(
                texts[i],
            ),
    ensures
        add_parts(chunks, parts).len() == chunks.len() + parts.len(),
        forall|i: int|
            0 <= i < chunks.len() ==> #[trigger] add_parts(chunks, parts)[i] == chunks[i],
        forall|i: int|
            0 <= i < parts.len() ==> #[trigger] add_parts(chunks, parts)[chunks.len() + i]
                == text::trim(texts[i]),
    decreases parts.len(),
{
    if parts.len() > 0 {
        let before = parts.drop_last();
        let earlier = texts.drop_last();
        assert forall|i: int| 0 <= i < before.len() implies (#[trigger] before[i]).get("type"@)
            == Some(JsonView::Str("output_text"@)) && before[i].get("text"@) == Some(
            JsonView::Str(earlier[i]),
        ) && !text::is_blank(earlier[i]) by {
            assert(before[i] == parts[i]);
            assert(earlier[i] == texts[i]);
        }
        law_parts_of_an_answer_are_read(chunks, before, earlier);
        assert(parts[parts.len() - 1] == parts.last());
        assert(part_text(parts.last()) == Some(text::trim(texts[parts.len() - 1])));
        assert forall|i: int| 0 <= i < parts.len() implies #[trigger] add_parts(chunks, parts)[
            chunks.len() + i] == text::trim(texts[i]) by {
            if i < before.len() {
                assert(add_parts(chunks, parts)[chunks.len() + i] == add_parts(chunks, before)[
                    chunks.len() + i]);
            }
        }
        assert forall|i: int| 0 <= i < chunks.len() implies #[trigger] add_parts(chunks, parts)[i]
            == chunks[i] by {
            assert(add_parts(chunks, parts)[i] == add_parts(chunks, before)[i]);
        }
    }
}

/// Every message with text is sent, in its order, under its role and as it is.
pub proof fn law_conversations_are_sent_whole(history: Seq<MessageView>)
    requires
        forall|i: int|
            0 <= i < history.len() ==> (#[trigger] history[i]).tool_calls.len() == 0
                && history[i].tool_results.len() == 0 && !text::is_blank(history[i].content),
    ensures
        input_items(history).len() == history.len(),
        forall|i: int|
            0 <= i < history.len() ==> {
                let sent = #[trigger] input_items(history)[i];
                &&& sent.get("type"@) == Some(JsonView::Str("message"@))
                &&& sent.get("role"@) == Some(
                    JsonView::Str(
                        match history[i].role {
                            Role::System => "system"@,
                            Role::Assistant => "assistant"@,
                            _ => "user"@,
                        },
                    ),
                )
                &&& sent.array_at("content"@) is Some
                &&& sent.array_at("content"@)->Some_0.len() == 1
                &&& sent.array_at("content"@)->Some_0[0].get("text"@) == Some(
                    JsonView::Str(history[i].content),
                )
                &&& sent.array_at("content"@)->Some_0[0].get("type"@) == Some(
                    JsonView::Str(
                        if history[i].role == Role::Assistant {
                            "output_text"@
                        } else {
                            "input_text"@
                        },
                    ),
                )
            },
    decreases history.len(),
{
    lemma_item_keys();
    if history.len() > 0 {
        let before = history.drop_last();
        let last = history.last();
        assert forall|i: int| 0 <= i < before.len() implies (#[trigger] before[i]).tool_calls.len()
            == 0 && before[i].tool_results.len() == 0 && !text::is_blank(before[i].content) by {
            assert(before[i] == history[i]);
        }
        law_conversations_are_sent_whole(before);
        assert(history[history.len() - 1] == last);
        let sent = message_items(last);
        assert(sent =~= seq![text_item(last.role, last.content)]);
        let all = input_items(history);
        assert(all =~= input_items(before).push(text_item(last.role, last.content)));
        assert forall|i: int| 0 <= i < before.len() implies all[i] == #[trigger] input_items(
            before,
        )[i] && before[i] == history[i] by {}
    }
}

/// The keys of the documents differ.
proof fn lemma_item_keys()
    ensures
        "type"@.len() == 4 && "type"@[0] == 't' && "type"@[1] == 'y',
        "text"@.len() == 4 && "text"@[0] == 't' && "text"@[1] == 'e',
        "role"@.len() == 4 && "role"@[0] == 'r',
        "name"@.len() == 4 && "name"@[0] == 'n',
        "content"@.len() == 7 && "content"@[1] == 'o',
        "call_id"@.len() == 7 && "call_id"@[1] == 'a',
        "arguments"@.len() == 9,
        "output"@.len() == 6,
        "description"@.len() == 11,
        "parameters"@.len() == 10,
{
    reveal_strlit("type");
    reveal_strlit("text");
    reveal_strlit("role");
    reveal_strlit("name");
    reveal_strlit("content");
    reveal_strlit("call_id");
    reveal_strlit("arguments");
    reveal_strlit("output");
    reveal_strlit("description");
    reveal_strlit("parameters");
}

/// Calls and results are sent with what they are about: a call with its arguments, a result with
/// its output, and a text output as it is.
pub proof fn law_calls_and_results_are_sent_whole(
    call: CallView,
    arguments: Seq<char>,
    result: ResultView,
)
    ensures
        call_item(call, arguments).get("type"@) == Some(JsonView::Str("function_call"@)),
        call_item(call, arguments).get("arguments"@) == Some(JsonView::Str(arguments)),
        call_item(call, arguments).get("name"@) == Some(
            JsonView::Str(identifier(call.name, "tool"@)),
        ),
        result_item(result).get("type"@) == Some(JsonView::Str("function_call_output"@)),
        result_item(result).get("output"@) == Some(
            match result.response {
                JsonView::Str(said) => JsonView::Str(said),
                other => result_output(other),
            },
        ),
        result.response is Object ==> result_output(result.response) == JsonView::Str(
            json::rendered_json(result.response),
        ),
{
    lemma_item_keys();
}

/// A message sends all its calls, then all its results, then its text.
pub proof fn law_messages_send_all_they_hold(message: MessageView, i: int)
    requires
        !text::is_blank(message.content),
    ensures
        message_items(message).len() == message.tool_calls.len() + message.tool_results.len() + 1,
        0 <= i < message.tool_calls.len() ==> message_items(message)[i] == call_item(
            message.tool_calls[i],
            arguments_text(message.tool_calls[i].args_json),
        ),
        0 <= i < message.tool_results.len() ==> message_items(message)[message.tool_calls.len() + i]
            == result_item(message.tool_results[i]),
        message_items(message).last() == text_item(message.role, message.content),
{
}

/// An identifier that is fine as it is stays as it is.
pub proof fn law_clean_identifiers_stay(raw: Seq<char>, fallback: Seq<char>)
    requires
        0 < raw.len() <= 64,
        forall|i: int| 0 <= i < raw.len() ==> text::is_alnum(#[trigger] raw[i]),
    ensures
        identifier(raw, fallback) == raw,
{
    assert(!text::is_white(raw[0]) && !text::is_white(raw.last())) by {
        assert(text::is_alnum(raw[0]));
        assert(text::is_alnum(raw[raw.len() - 1]));
    }
    reveal_with_fuel(text::trim_start_of, 2);
    reveal_with_fuel(text::trim_end_of, 2);
    assert(text::trim(raw) == raw);
    assert(underscored(raw) =~= raw) by {
        assert forall|i: int| 0 <= i < raw.len() implies underscored(raw)[i] == raw[i] by {
            assert(text::is_alnum(raw[i]));
        }
    }
    assert(raw[0] != '_' && raw.last() != '_');
    assert(text::trim_of(raw, CharClass::Only('_')) == raw);
}

/// A request names the model, and holds the instructions, the conversation and the tools as they
/// are; it is a stream or not as asked, and nothing is stored.
#[verifier::rlimit(60)]
pub proof fn law_requests_hold_all(
    model: Seq<char>,
    instructions: Seq<char>,
    input: Seq<JsonView>,
    tools: Seq<JsonView>,
    stream: bool,
)
    ensures
        ({
            let body = codex_request(model, instructions, input, tools, stream);
            &&& body.get("model"@) == Some(JsonView::Str(model))
            &&& body.get("instructions"@) == Some(JsonView::Str(instructions))
            &&& body.get("input"@) == Some(JsonView::Array(input))
            &&& body.get("stream"@) == Some(JsonView::Bool(stream))
            &&& body.get("store"@) == Some(JsonView::Bool(false))
            &&& tools.len() == 0 ==> body.get("tools"@) is None
            &&& tools.len() > 0 ==> body.get("tools"@) == Some(JsonView::Array(tools))
        }),
{
    reveal_strlit("model");
    reveal_strlit("input");
    reveal_strlit("instructions");
    reveal_strlit("store");
    reveal_strlit("stream");
    reveal_strlit("text");
    reveal_strlit("reasoning");
    reveal_strlit("include");
    reveal_strlit("tools");
    reveal_strlit("tool_choice");
    reveal_strlit("parallel_tool_calls");
    assert("model"@.len() == 5 && "input"@.len() == 5 && "store"@.len() == 5 && "tools"@.len() == 5);
    assert("model"@[0] == 'm' && "input"@[0] == 'i' && "store"@[0] == 's' && "tools"@[0] == 't');
    assert("instructions"@.len() == 12 && "stream"@.len() == 6 && "text"@.len() == 4);
    assert("reasoning"@.len() == 9 && "include"@.len() == 7 && "tool_choice"@.len() == 11);
    assert("parallel_tool_calls"@.len() == 19);
}

/// A request is made for the account and token that were found, with the whole conversation; a
/// token that was not found refuses it.
pub proof fn law_requests_need_a_token(
    access_token: Result<Option<Seq<char>>, Seq<char>>,
    profile_account: Result<Option<Seq<char>>, Seq<char>>,
    token_account: Option<Seq<char>>,
    system_prompt: Seq<char>,
    history: Seq<MessageView>,
    tools: Seq<DefinitionView>,
)
    ensures
        ({
            let context = request_context(
                access_token,
                profile_account,
                token_account,
                system_prompt,
                history,
                tools,
            );
            &&& context is Ok <==> access_token is Ok && access_token->Ok_0 is Some
                && profile_account is Ok
            &&& context is Ok ==> {
                &&& context->Ok_0.access_token == access_token->Ok_0->Some_0
                &&& context->Ok_0.account_id == (match profile_account->Ok_0 {
                    Some(account) => Some(account),
                    None => token_account,
                })
                &&& context->Ok_0.input == input_items(history)
                &&& context->Ok_0.tools == tool_items(tools)
                &&& !text::is_blank(system_prompt) ==> context->Ok_0.instructions == system_prompt
            }
        }),
{
}

/// The token is sent as a bearer token, and the account with it, where there is one.
pub proof fn law_requests_carry_the_token(
    access_token: Seq<char>,
    account_id: Option<Seq<char>>,
    stream: bool,
)
    ensures
        headers_of(access_token, account_id, stream).contains(
            ("authorization"@, "Bearer "@ + access_token),
        ),
        headers_of(access_token, account_id, stream).contains(
            (
                "accept"@,
                if stream {
                    "text/event-stream"@
                } else {
                    "application/json"@
                },
            ),
        ),
        account_id is Some ==> headers_of(access_token, account_id, stream).contains(
            ("chatgpt-account-id"@, account_id->Some_0),
        ),
{
    let headers = headers_of(access_token, account_id, stream);
    assert(headers[0] == ("authorization"@, "Bearer "@ + access_token));
    assert(headers[3].0 == "accept"@);
    if account_id is Some {
        assert(headers[5] == ("chatgpt-account-id"@, account_id->Some_0));
    }
}

/// A tool is offered under its name, with its description and its schema.
pub proof fn law_tools_are_offered_as_they_are(
    name: Seq<char>,
    description: Seq<char>,
    schema: JsonView,
)
    ensures
        tool_item(name, description, schema).get("type"@) == Some(JsonView::Str("function"@)),
        tool_item(name, description, schema).get("name"@) == Some(JsonView::Str(name)),
        tool_item(name, description, schema).get("description"@) == Some(
            JsonView::Str(description),
        ),
        tool_item(name, description, schema).get("parameters"@) == Some(schema),
{
    lemma_item_keys();
}

/// A schema keeps all that it says: every word of it stays, and only what it says of other schemas is
/// looked at again.
#[verifier::rlimit(60)]
pub proof fn law_schemas_keep_what_they_say(
    members: Map<Seq<char>, JsonView>,
    key: Seq<char>,
    properties: Map<Seq<char>, JsonView>,
    name: Seq<char>,
    items: Seq<JsonView>,
    i: int,
)
    ensures
        ({
            let kept = normalized_schema(JsonView::Object(members));
            &&& kept.get(key) is Some <==> members.contains_key(key)
            &&& members.contains_key(key) && key != "properties"@ && key != "required"@ && key
                != "items"@ && key != "additionalProperties"@ && key != "anyOf"@ && key != "oneOf"@
                && key != "allOf"@ ==> kept.get(key) == Some(members[key])
        }),
        normalized_keyword("properties"@, JsonView::Object(properties)).get(name) == (
        if properties.contains_key(name) {
            Some(normalized_schema(properties[name]))
        } else {
            None
        }),
        normalized_keyword("items"@, JsonView::Object(properties)) == normalized_schema(
            JsonView::Object(properties),
        ),
        (forall|k: int| 0 <= k < items.len() ==> #[trigger] items[k] is Str) ==> normalized_keyword(
            "required"@,
            JsonView::Array(items),
        ) == JsonView::Array(items),
        normalized_keyword("additionalProperties"@, JsonView::Bool(false)) == JsonView::Bool(false),
        normalized_keyword("additionalProperties"@, JsonView::Bool(true)) == JsonView::Bool(true),
        0 <= i < items.len() && (key == "anyOf"@ || key == "oneOf"@ || key == "allOf"@)
            && items[i] is Object ==> normalized_keyword(key, JsonView::Array(items)).as_array() is Some
            && normalized_keyword(key, JsonView::Array(items)).as_array()->0.len() == items.len()
            && normalized_keyword(key, JsonView::Array(items)).as_array()->0[i]
            == normalized_schema(items[i]),
{
    reveal_strlit("properties");
    reveal_strlit("required");
    reveal_strlit("items");
    reveal_strlit("additionalProperties");
    reveal_strlit("anyOf");
    reveal_strlit("oneOf");
    reveal_strlit("allOf");
    assert("properties"@.len() == 10);
    assert("required"@.len() == 8);
    assert("items"@.len() == 5 && "items"@[0] == 'i');
    assert("additionalProperties"@.len() == 20);
    assert("anyOf"@.len() == 5 && "anyOf"@[0] == 'a');
    assert("oneOf"@.len() == 5 && "oneOf"@[0] == 'o');
    assert("allOf"@.len() == 5 && "allOf"@[0] == 'a');
    if forall|k: int| 0 <= k < items.len() ==> #[trigger] items[k] is Str {
        lemma_strings_stay(items);
    }
}

/// A list of texts stays as it is.
proof fn lemma_strings_stay(items: Seq<JsonView>)
    requires
        forall|k: int| 0 <= k < items.len() ==> #[trigger] items[k] is Str,
    ensures
        strings_only(items) == items,
    decreases items.len(),
{
    if items.len() > 0 {
        assert(items[items.len() - 1] is Str);
        assert forall|k: int| 0 <= k < items.drop_last().len() implies #[trigger] items.drop_last()[k] is Str by {
            assert(items[k] is Str);
        }
        lemma_strings_stay(items.drop_last());
        assert(items.drop_last().push(items.last()) =~= items);
    } else {
        assert(strings_only(items) =~= items);
    }
}

/// A text that comes whole is told where nothing of it came before, and only then: nothing is told
/// twice.
pub proof fn law_whole_texts_are_told_once(
    reading: CodexReading,
    event: JsonView,
    whole: Seq<char>,
)
    requires
        event.get("type"@) == Some(JsonView::Str("response.output_text.done"@)),
        event.get("text"@) == Some(JsonView::Str(whole)),
        !text::is_blank(whole),
    ensures
        !reading.reader.saw_text_delta && !reading.reader.emitted_fallback_text ==> {
            let read = read_event(reading, event);
            &&& read.events == reading.events.push(EventView::TextDelta(text::trim(whole)))
            &&& read.reader.emitted_fallback_text
            &&& read.reader.calls == reading.reader.calls
            &&& read.error == reading.error
        },
        reading.reader.saw_text_delta || reading.reader.emitted_fallback_text ==> read_event(
            reading,
            event,
        ) == reading,
{
    lemma_kinds();
}

/// The answer as a whole tells its text where nothing of it came before, and all its calls.
pub proof fn law_completed_answers_are_read(
    reading: CodexReading,
    event: JsonView,
    response: JsonView,
)
    requires
        event.get("type"@) == Some(JsonView::Str("response.completed"@)) || event.get("type"@)
            == Some(JsonView::Str("response.done"@)),
        event.get("response"@) == Some(response),
    ensures
        reading.reader.saw_text_delta || reading.reader.emitted_fallback_text || output_text_of(
            response,
        ) is None ==> read_event(reading, event) == read_calls(reading, calls_in(response)),
        !reading.reader.saw_text_delta && !reading.reader.emitted_fallback_text && calls_in(
            response,
        ).len() == 0 ==> (output_text_of(response) matches Some(whole) ==> read_event(
            reading,
            event,
        ).events == reading.events.push(EventView::TextDelta(whole))),
{
    lemma_kinds();
}

/// The calls of an answer are those of its parts, in their order, wherever they stand.
pub proof fn law_every_call_of_an_answer_is_read(
    node: JsonView,
    nodes: Seq<JsonView>,
    more: Seq<JsonView>,
)
    ensures
        call_in(node) is None && node.get("content"@) is None && node.get("tool_calls"@) is None
            && node.get("output"@) == Some(JsonView::Array(nodes)) ==> calls_in(node)
            == calls_in_all(nodes),
        call_in(node) is None && node.get("output"@) is None && node.get("tool_calls"@) is None
            && node.get("content"@) == Some(JsonView::Array(nodes)) ==> calls_in(node)
            == calls_in_all(nodes),
        call_in(node) is None && node.get("output"@) is None && node.get("content"@) is None
            && node.get("tool_calls"@) == Some(JsonView::Array(nodes)) ==> calls_in(node)
            == calls_in_all(nodes),
        node.get("output"@) is None && node.get("content"@) is None && node.get("tool_calls"@)
            is None ==> calls_in(node) == (match call_in(node) {
            Some(call) => seq![call],
            None => Seq::empty(),
        }),
        calls_in_all(nodes + more) == calls_in_all(nodes) + calls_in_all(more),
        nodes.len() == 1 ==> calls_in_all(nodes) == calls_in(nodes[0]),
    decreases more.len(),
{
    reveal_with_fuel(calls_in_all, 2);
    let none = Seq::<CallView>::empty();
    assert(none + calls_in_all(nodes) + none + none =~= calls_in_all(nodes));
    assert(none + none + calls_in_all(nodes) + none =~= calls_in_all(nodes));
    assert(none + none + none + calls_in_all(nodes) =~= calls_in_all(nodes));
    if call_in(node) is Some {
        assert(seq![call_in(node)->0] + none + none + none =~= seq![call_in(node)->0]);
    }
    if nodes.len() == 1 {
        assert(nodes.drop_last() =~= Seq::<JsonView>::empty());
        assert(none + calls_in(nodes[0]) =~= calls_in(nodes[0]));
    }
    if more.len() == 0 {
        assert(nodes + more =~= nodes);
        assert(calls_in_all(nodes) + calls_in_all(more) =~= calls_in_all(nodes));
    } else {
        law_every_call_of_an_answer_is_read(node, nodes, more.drop_last());
        assert((nodes + more).drop_last() =~= nodes + more.drop_last());
        assert((nodes + more).last() == more.last());
        assert(calls_in_all(nodes) + calls_in_all(more.drop_last()) + calls_in(more.last())
            =~= calls_in_all(nodes) + calls_in_all(more));
    }
}

/// A stream that failed says why.
pub proof fn law_failed_answers_say_why(
    reading: CodexReading,
    event: JsonView,
    response: JsonView,
    error: JsonView,
    message: Seq<char>,
)
    requires
        event.get("type"@) == Some(JsonView::Str("response.failed"@)),
        event.get("response"@) == Some(response),
        response.get("error"@) == Some(error),
        error.get("message"@) == Some(JsonView::Str(message)),
        !text::is_blank(message),
    ensures
        read_event(reading, event).error == Some(
            ErrorView::Provider("openai_codex stream error: "@ + text::trim(message)),
        ),
{
    lemma_kinds();
}

/// A document of another kind tells nothing.
pub proof fn law_other_documents_tell_nothing(
    reading: CodexReading,
    event: JsonView,
    kind: Seq<char>,
)
    requires
        event.get("type"@) == Some(JsonView::Str(kind)),
        kind != "response.output_text.delta"@,
        kind != "response.output_text.done"@,
        kind != "response.output_item.done"@,
        kind != "response.output_item.added"@,
        kind != "response.completed"@,
        kind != "response.done"@,
        kind != "response.failed"@,
        kind != "error"@,
    ensures
        read_event(reading, event) == reading,
{
}

/// A whole answer is read from its document: what it says and what it calls; one that is sent line
/// by line is read as a stream, and one that cannot be read is an error.
pub proof fn law_answers_are_read_from_their_body(content: Seq<char>, message: Seq<char>)
    ensures
        body_response(Err(message)) is Err,
        !is_sse(content) && json::parsed_json(content) is Ok ==> body_response(Ok(content)) == Ok::<
            ResponseView,
            ErrorView,
        >(
            ResponseView {
                output_text: output_text_of(json::parsed_json(content)->Ok_0),
                tool_calls: calls_in(json::parsed_json(content)->Ok_0),
            },
        ),
        !is_sse(content) && json::parsed_json(content) is Err ==> body_response(Ok(content)) is Err,
        is_sse(content) ==> body_response(Ok(content)) == sse_response(content),
        is_sse(content) <==> text::starts_with(
            text::trim_start_of(content, CharClass::White),
            "data:"@,
        ) || text::starts_with(text::trim_start_of(content, CharClass::White), "event:"@),
{
}

/// A refusal says the message that it holds, and else the start of what came.
pub proof fn law_refusals_say_their_message(body: Seq<char>, error: JsonView, message: Seq<char>)
    ensures
        json::parsed_json(body) is Ok && json::parsed_json(body)->Ok_0.get("error"@) == Some(error)
            && error.get("message"@) == Some(JsonView::Str(message)) && !text::is_blank(message)
            ==> refusal_summary(body) == text::trim(message),
        json::parsed_json(body) is Err ==> refusal_summary(body) == body_preview(body),
{
}

/// An id that is clean is sent as it is.
pub proof fn law_clean_ids_are_sent_as_they_are(id: Seq<char>, name: Seq<char>)
    requires
        0 < id.len() <= 64,
        forall|i: int| 0 <= i < id.len() ==> text::is_alnum(#[trigger] id[i]),
    ensures
        call_id_of(Some(id), name) == id,
{
    law_clean_identifiers_stay(id, "call_"@ + identifier(name, "tool"@));
    text::law_blank_texts_say_nothing(id);
    assert(text::is_alnum(id[0]));
    assert(!text::is_white(id[0]));
}

/// The instructions are those that were set up.
pub proof fn law_instructions_are_those_set_up(system_prompt: Seq<char>)
    ensures
        !text::is_blank(system_prompt) ==> instructions_of(system_prompt) == system_prompt,
        text::is_blank(system_prompt) ==> instructions_of(system_prompt)
            == DEFAULT_CODEX_INSTRUCTIONS@,
{
}

/// A document with a delta adds one event, which is that delta, character for character; what was
/// told before stays.
pub proof fn law_a_delta_is_one_event(
    accumulator: &mut CodexStreamAccumulator,
    event: &Json,
    events: &mut Vec<StreamEvent>,
    r: Result<(), FrameworkError>,
    delta: Seq<char>,
)
    requires
        call_ensures(CodexStreamAccumulator::process_event, (accumulator, event, events), r),
        event@.get("type"@) == Some(JsonView::Str("response.output_text.delta"@)),
        event@.get("delta"@) == Some(JsonView::Str(delta)),
        delta.len() > 0,
    ensures
        r is Ok,
        final(events)@.len() == old(events)@.len() + 1,
        final(events)@.last() matches StreamEvent::TextDelta(told) && told@ == delta,
        forall|i: int|
            0 <= i < old(events)@.len() ==> (#[trigger] final(events)@[i])@ == old(events)@[i]@,
{
    let reading = codex_from(old(accumulator)@, types::event_views(old(events)@));
    law_deltas_are_told_as_they_came(reading, event@, delta);
    let before = types::event_views(old(events)@);
    let after = types::event_views(final(events)@);
    assert(after == before.push(EventView::TextDelta(delta)));
    assert(after.len() == before.len() + 1);
    assert(after[before.len() as int] == final(events)@.last()@);
    assert forall|i: int| 0 <= i < old(events)@.len() implies (#[trigger] final(events)@[i])@
        == old(events)@[i]@ by {
        assert(after[i] == before[i]);
    }
}

/// A text that comes in chunks is read as if it came at once.
pub proof fn law_chunks_are_read_as_one_text(
    accumulator: &mut CodexStreamAccumulator,
    chunk: &str,
    events: &mut Vec<StreamEvent>,
    r: Result<(), FrameworkError>,
    rest: Seq<char>,
)
    requires
        call_ensures(CodexStreamAccumulator::push_text, (accumulator, chunk, events), r),
        r is Ok,
    ensures
        read_codex_text(
            codex_from(old(accumulator)@, types::event_views(old(events)@)),
            chunk@ + rest,
        ) == read_codex_text(
            codex_from(final(accumulator)@, types::event_views(final(events)@)),
            rest,
        ),
{
    law_chunks_do_not_matter(
        codex_from(old(accumulator)@, types::event_views(old(events)@)),
        chunk@,
        rest,
    );
}

/// A call without an id is named after its tool.
pub proof fn law_calls_without_an_id_are_named_after_their_tool(name: Seq<char>, blank: Seq<char>)
    requires
        text::is_blank(blank),
    ensures
        ({
            let named = "call_"@ + identifier(name, "tool"@);
            &&& call_id_of(None, name) == identifier(named, named)
            &&& call_id_of(Some(blank), name) == call_id_of(None, name)
        }),
{
}

} // verus!
