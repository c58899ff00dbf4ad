//! The terms of a translated request, told from the request that came in: its settings, the tools
//! that it offers, and which requests are refused.

use crate::catalog::{Model, Protocol};
use crate::error::ProviderErrorKind;
use crate::json::{
    as_text, field, get, parsed_json, present, Fields, JsonView, NumberView,
};
use crate::request::content::{content_encoded, lemma_collected, part_encoded, part_results};
use crate::request::history::{item_added, items_added, HistoryView};
use crate::request::laws::{item_kind, lemma_body_keys, lemma_item_kinds, says};
use crate::request::options::{
    choice_encoded, format_encoded, tool_encoded, tool_results, tools_encoded,
};
use crate::request::{
    chat_fields, conversation, input_items, messages_fields, opening, request_encoded,
};
use crate::text::{lemma_occurrence, occurs_at, split_at_first, starts_with};
use vstd::prelude::*;

verus! {

/// Whether a tool is offered as it was given: a function by its name, with its description and
/// its parameters. Chat also keeps whether it is strict. The Messages protocol wants parameters
/// always: without any, those of an object without properties.
pub open spec fn tool_retold(given: JsonView, tool: JsonView, anthropic: bool) -> bool {
    &&& as_text(get(Some(given), "type"@)) == Some("function"@)
    &&& as_text(get(Some(given), "name"@)) matches Some(name)
    &&& if anthropic {
        &&& says(tool, "name"@, name)
        &&& get(Some(tool), "description"@) == get(Some(given), "description"@)
        &&& match get(Some(given), "parameters"@) {
            Some(parameters) => get(Some(tool), "input_schema"@) == Some(parameters),
            None => {
                &&& get(Some(tool), "input_schema"@) matches Some(schema)
                &&& says(schema, "type"@, "object"@)
                &&& get(Some(schema), "properties"@) matches Some(JsonView::Object(fields))
                &&& fields.dom() == Set::<Seq<char>>::empty()
            },
        }
    } else {
        &&& says(tool, "type"@, "function"@)
        &&& get(Some(tool), "function"@) matches Some(function)
        &&& says(function, "name"@, name)
        &&& get(Some(function), "description"@) == get(Some(given), "description"@)
        &&& get(Some(function), "parameters"@) == get(Some(given), "parameters"@)
        &&& get(Some(function), "strict"@) == get(Some(given), "strict"@)
    }
}

proof fn lemma_tool_retold(given: JsonView, anthropic: bool)
    ensures
        match tool_encoded(given, anthropic) {
            Ok(tool) => tool_retold(given, tool, anthropic),
            Err(kind) => kind == if as_text(get(Some(given), "type"@)) == Some("function"@) {
                ProviderErrorKind::InvalidRequest
            } else {
                ProviderErrorKind::Unsupported
            } && !(as_text(get(Some(given), "type"@)) == Some("function"@) && as_text(
                get(Some(given), "name"@),
            ) is Some),
        },
{
    reveal_strlit("type");
    reveal_strlit("name");
    reveal_strlit("description");
    reveal_strlit("input_schema");
    reveal_strlit("parameters");
    reveal_strlit("properties");
    reveal_strlit("strict");
    reveal_strlit("function");
    assert("type"@[0] == 't' && "name"@[0] == 'n');
    assert("type"@.len() == 4 && "name"@.len() == 4 && "description"@.len() == 11);
    assert("input_schema"@.len() == 12 && "parameters"@.len() == 10 && "properties"@.len() == 10);
    assert("strict"@.len() == 6 && "function"@.len() == 8);
    assert(Map::<Seq<char>, JsonView>::empty().dom() =~= Set::<Seq<char>>::empty());
}

/// Whether a choice among the tools is told as it was given: a mode by its name, which in the
/// Messages protocol calls `required` `any`, or a function by its own.
pub open spec fn choice_retold(given: JsonView, choice: JsonView, anthropic: bool) -> bool {
    match given {
        JsonView::Text(mode) => if anthropic {
            ||| mode == "required"@ && says(choice, "type"@, "any"@)
            ||| mode == "auto"@ && says(choice, "type"@, "auto"@)
            ||| mode == "none"@ && says(choice, "type"@, "none"@)
        } else {
            choice == given
        },
        _ => {
            &&& as_text(get(Some(given), "type"@)) == Some("function"@)
            &&& as_text(get(Some(given), "name"@)) matches Some(name)
            &&& if anthropic {
                says(choice, "type"@, "tool"@) && says(choice, "name"@, name)
            } else {
                &&& says(choice, "type"@, "function"@)
                &&& get(Some(choice), "function"@) matches Some(function)
                &&& says(function, "name"@, name)
            }
        },
    }
}

proof fn lemma_choice_retold(given: JsonView, anthropic: bool)
    ensures
        match choice_encoded(given, anthropic) {
            Ok(choice) => choice_retold(given, choice, anthropic),
            Err(_) => true,
        },
{
    reveal_strlit("type");
    reveal_strlit("name");
    reveal_strlit("function");
    reveal_strlit("required");
    reveal_strlit("auto");
    reveal_strlit("none");
    assert("type"@[0] == 't' && "name"@[0] == 'n');
    assert("type"@.len() == 4 && "name"@.len() == 4 && "function"@.len() == 8);
    assert("required"@.len() == 8 && "auto"@.len() == 4 && "none"@.len() == 4);
    assert("auto"@[0] != "none"@[0]);
}

/// Whether the form of the answer is told as it was given. A schema stands one level down, with
/// all that it came with but its type.
pub open spec fn format_retold(given: JsonView, format: JsonView) -> bool {
    if as_text(get(Some(given), "type"@)) == Some("json_schema"@) {
        &&& says(format, "type"@, "json_schema"@)
        &&& get(Some(format), "json_schema"@) matches Some(JsonView::Object(schema))
        &&& forall|key: Seq<char>|
            key != "type"@ ==> #[trigger] field(schema, key) == get(Some(given), key)
        &&& field(schema, "type"@) is None
    } else {
        given is Object && format == given
    }
}

proof fn lemma_format_retold(given: JsonView)
    ensures
        match format_encoded(given) {
            Ok(format) => format_retold(given, format),
            Err(kind) => kind == ProviderErrorKind::InvalidRequest && !(given is Object),
        },
{
    reveal_strlit("type");
    reveal_strlit("json_schema");
    assert("type"@.len() == 4 && "json_schema"@.len() == 11);
}

/// Whether a list of tools is offered as it was given, one by one.
pub open spec fn tools_retold(given: JsonView, tools: JsonView, anthropic: bool) -> bool {
    &&& given matches JsonView::Array(listed)
    &&& tools matches JsonView::Array(offered)
    &&& offered.len() == listed.len()
    &&& forall|i: int|
        0 <= i < listed.len() ==> tool_retold(listed[i], #[trigger] offered[i], anthropic)
}

proof fn lemma_tools_retold(given: JsonView, anthropic: bool)
    ensures
        match tools_encoded(given, anthropic) {
            Ok(tools) => tools_retold(given, JsonView::Array(tools), anthropic),
            Err(_) => true,
        },
{
    if let JsonView::Array(listed) = given {
        let results = tool_results(listed, anthropic);
        lemma_collected(results);
        if let Ok(offered) = tools_encoded(given, anthropic) {
            assert forall|i: int| 0 <= i < listed.len() implies tool_retold(
                listed[i],
                #[trigger] offered[i],
                anthropic,
            ) by {
                assert(results[i] == tool_encoded(listed[i], anthropic));
                assert(results[i] == Ok::<JsonView, ProviderErrorKind>(offered[i]));
                lemma_tool_retold(listed[i], anthropic);
            }
        }
    }
}

/// Whether a setting is told as it was given, and not at all where it was not given.
pub open spec fn kept(source: Fields, key: Seq<char>, body: Fields, name: Seq<char>) -> bool {
    field(body, name) == field(source, key)
}

/// Whether a body holds nothing but what a translated request has.
pub open spec fn is_known_setting(key: Seq<char>, anthropic: bool) -> bool {
    ||| key == "model"@
    ||| key == "stream"@
    ||| key == "messages"@
    ||| key == "max_tokens"@
    ||| key == "temperature"@
    ||| key == "top_p"@
    ||| key == "tools"@
    ||| key == "tool_choice"@
    ||| anthropic && key == "system"@
    ||| !anthropic && (key == "stream_options"@ || key == "reasoning_effort"@ || key
        == "response_format"@ || key == "parallel_tool_calls"@)
}

/// A translated request keeps its settings: the sampling, the tools and the choice among them as
/// they were given, under the names of the other protocol, and no setting that was not given. It
/// asks for the model of the catalog and for a stream.
pub proof fn lemma_settings_are_retold(protocol: Seq<char>, source: Fields, model: Model)
    requires
        model.protocol != Protocol::Responses,
        request_encoded(protocol, source, model) is Ok,
    ensures
        ({
            let anthropic = model.protocol == Protocol::Messages;
            &&& request_encoded(protocol, source, model) matches Ok(JsonView::Object(body))
            &&& field(body, "model"@) == Some(JsonView::Text(model.id@))
            &&& field(body, "stream"@) == Some(JsonView::Bool(true))
            &&& kept(source, "temperature"@, body, "temperature"@)
            &&& kept(source, "top_p"@, body, "top_p"@)
            &&& match field(source, "tools"@) {
                None => field(body, "tools"@) is None,
                Some(given) => field(body, "tools"@) matches Some(tools) && tools_retold(
                    given,
                    tools,
                    anthropic,
                ),
            }
            &&& match field(source, "tool_choice"@) {
                None => field(body, "tool_choice"@) is None,
                Some(given) => field(body, "tool_choice"@) matches Some(choice) && choice_retold(
                    given,
                    choice,
                    anthropic,
                ),
            }
            &&& forall|key: Seq<char>| #[trigger]
                field(body, key) is Some ==> is_known_setting(key, anthropic)
        }),
{
    lemma_body_keys();
    let anthropic = model.protocol == Protocol::Messages;
    let history = conversation(source, anthropic)->Ok_0;
    if let Some(given) = field(source, "tools"@) {
        lemma_tools_retold(given, anthropic);
    }
    if let Some(given) = field(source, "tool_choice"@) {
        lemma_choice_retold(given, anthropic);
    }
    if anthropic {
        let own = messages_fields(source, model, history);
        assert(forall|key: Seq<char>| #[trigger]
            field(own, key) is Some ==> is_known_setting(key, anthropic));
    } else {
        let own = chat_fields(source, model, history)->Ok_0;
        assert(forall|key: Seq<char>| #[trigger]
            field(own, key) is Some ==> is_known_setting(key, anthropic));
    }
}

/// What only Chat has: the limit of tokens, the effort of reasoning and the wish for parallel
/// calls as they were given, the form of the answer, and that counters are wanted with the stream.
pub proof fn lemma_chat_settings_are_retold(protocol: Seq<char>, source: Fields, model: Model)
    requires
        model.protocol == Protocol::Chat,
        request_encoded(protocol, source, model) is Ok,
    ensures
        ({
            let form = get(field(source, "text"@), "format"@);
            &&& request_encoded(protocol, source, model) matches Ok(JsonView::Object(body))
            &&& kept(source, "max_output_tokens"@, body, "max_tokens"@)
            &&& kept(source, "parallel_tool_calls"@, body, "parallel_tool_calls"@)
            &&& field(body, "reasoning_effort"@) == get(field(source, "reasoning"@), "effort"@)
            &&& get(field(body, "stream_options"@), "include_usage"@) == Some(JsonView::Bool(true))
            &&& match form {
                None => field(body, "response_format"@) is None,
                Some(given) => field(body, "response_format"@) matches Some(format)
                    && format_retold(given, format),
            }
        }),
{
    lemma_body_keys();
    if let Some(given) = get(field(source, "text"@), "format"@) {
        lemma_format_retold(given);
    }
}

/// What only the Messages protocol has: a limit of tokens, always. It is the one that was given,
/// else the model's own, and no more than 8192.
pub proof fn lemma_messages_settings_are_retold(protocol: Seq<char>, source: Fields, model: Model)
    requires
        model.protocol == Protocol::Messages,
        request_encoded(protocol, source, model) is Ok,
    ensures
        request_encoded(protocol, source, model) matches Ok(JsonView::Object(body)) && match field(
            source,
            "max_output_tokens"@,
        ) {
            Some(limit) => field(body, "max_tokens"@) == Some(limit),
            None => field(body, "max_tokens"@) matches Some(
                JsonView::Number(NumberView::Unsigned(limit)),
            ) && limit <= 8192 && limit <= model.output && (limit == 8192 || limit
                == model.output),
        },
{
    lemma_body_keys();
}

/// Whether a part of a message can be told.
pub open spec fn part_fits(part: JsonView, anthropic: bool) -> bool {
    let kind = as_text(get(Some(part), "type"@));
    if kind == Some("input_text"@) || kind == Some("output_text"@) || kind == Some("text"@) {
        as_text(get(Some(part), "text"@)) is Some
    } else {
        &&& kind == Some("input_image"@)
        &&& as_text(get(Some(part), "image_url"@)) matches Some(url)
        &&& anthropic ==> if starts_with(url, "data:"@) {
            exists|at: int| 5 <= at && #[trigger] occurs_at(url, ";base64,"@, at)
        } else {
            starts_with(url, "https://"@) || starts_with(url, "http://"@)
        }
    }
}

/// Whether a content can be told.
pub open spec fn content_fits(content: JsonView, anthropic: bool) -> bool {
    match content {
        JsonView::Text(_) => true,
        JsonView::Array(parts) => forall|i: int|
            0 <= i < parts.len() ==> part_fits(#[trigger] parts[i], anthropic),
        _ => false,
    }
}

/// Whether an item of the conversation can be told.
pub open spec fn item_fits(item: JsonView, anthropic: bool) -> bool {
    let kind = item_kind(item);
    let role = as_text(get(Some(item), "role"@));
    if kind == "message"@ {
        &&& role == Some("user"@) || role == Some("assistant"@) || role == Some("system"@) || role
            == Some("developer"@)
        &&& get(Some(item), "content"@) matches Some(content)
        &&& content_fits(content, anthropic)
    } else if kind == "function_call"@ {
        &&& as_text(get(Some(item), "call_id"@)) is Some
        &&& as_text(get(Some(item), "name"@)) is Some
        &&& as_text(get(Some(item), "arguments"@)) matches Some(arguments)
        &&& anthropic ==> parsed_json(arguments) matches Some(JsonView::Object(_))
    } else if kind == "function_call_output"@ {
        &&& as_text(get(Some(item), "call_id"@)) is Some
        &&& get(Some(item), "output"@) matches Some(output)
        &&& content_fits(output, anthropic)
    } else {
        kind == "reasoning"@
    }
}

proof fn lemma_part_fits(part: JsonView, anthropic: bool)
    ensures
        part_encoded(part, anthropic) is Ok <==> part_fits(part, anthropic),
{
    reveal_strlit("data:");
    reveal_strlit(";base64,");
    assert("data:"@.len() == 5 && ";base64,"@.len() == 8);
    if let Some(url) = as_text(get(Some(part), "image_url"@)) {
        if starts_with(url, "data:"@) {
            let rest = url.skip(5);
            lemma_occurrence(rest, ";base64,"@, 0);
            if exists|at: int| 5 <= at && #[trigger] occurs_at(url, ";base64,"@, at) {
                let at = choose|at: int| 5 <= at && #[trigger] occurs_at(url, ";base64,"@, at);
                assert(rest.subrange(at - 5, at - 5 + 8) =~= url.subrange(at, at + 8));
                assert(occurs_at(rest, ";base64,"@, at - 5));
            }
            if let Some((media_type, data)) = split_at_first(rest, ";base64,"@) {
                let at = media_type.len() as int;
                assert(occurs_at(rest, ";base64,"@, at));
                assert(url.subrange(at + 5, at + 5 + 8) =~= rest.subrange(at, at + 8));
                assert(occurs_at(url, ";base64,"@, at + 5));
            }
        }
    }
}

proof fn lemma_content_fits(content: JsonView, anthropic: bool)
    ensures
        content_encoded(content, anthropic) is Ok <==> content_fits(content, anthropic),
{
    if let JsonView::Array(parts) = content {
        let results = part_results(parts, anthropic);
        lemma_collected(results);
        assert forall|i: int| 0 <= i < parts.len() implies (#[trigger] results[i]) is Ok
            == part_fits(parts[i], anthropic) by {
            lemma_part_fits(parts[i], anthropic);
        }
        if content_encoded(content, anthropic) is Ok {
            assert forall|i: int| 0 <= i < parts.len() implies part_fits(
                #[trigger] parts[i],
                anthropic,
            ) by {
                assert(results[i] is Ok);
            }
        } else {
            let kind = content_encoded(content, anthropic)->Err_0;
            let i = choose|i: int|
                0 <= i < results.len() && #[trigger] results[i] == Err::<
                    JsonView,
                    ProviderErrorKind,
                >(kind);
            assert(!part_fits(parts[i], anthropic));
        }
    }
}

proof fn lemma_item_fits(history: HistoryView, item: JsonView, anthropic: bool)
    ensures
        item_added(history, item, anthropic) is Ok <==> item_fits(item, anthropic),
{
    lemma_item_kinds();
    if let Some(content) = get(Some(item), "content"@) {
        lemma_content_fits(content, anthropic);
    }
    if let Some(output) = get(Some(item), "output"@) {
        lemma_content_fits(output, anthropic);
    }
}

proof fn lemma_items_fit(history: HistoryView, items: Seq<JsonView>, anthropic: bool)
    ensures
        items_added(history, items, anthropic) is Ok <==> forall|i: int|
            0 <= i < items.len() ==> item_fits(#[trigger] items[i], anthropic),
    decreases items.len(),
{
    if items.len() > 0 {
        let front = items.drop_last();
        lemma_items_fit(history, front, anthropic);
        let last = items.len() - 1;
        assert(items[last] == items.last());
        if let Ok(before) = items_added(history, front, anthropic) {
            lemma_item_fits(before, items.last(), anthropic);
            assert forall|i: int| 0 <= i < last implies item_fits(
                #[trigger] items[i],
                anthropic,
            ) by {
                assert(front[i] == items[i]);
            }
        } else {
            let i = choose|i: int| 0 <= i < front.len() && !item_fits(#[trigger] front[i], anthropic);
            assert(!item_fits(items[i], anthropic));
        }
    }
}

/// Whether an item makes a message of its own; what the system or a developer says to a model of
/// the Messages protocol stands apart, and a reasoning is left out.
pub open spec fn makes_message(item: JsonView, anthropic: bool) -> bool {
    let kind = item_kind(item);
    let role = as_text(get(Some(item), "role"@));
    ||| kind == "function_call"@
    ||| kind == "function_call_output"@
    ||| kind == "message"@ && (!anthropic || role == Some("user"@) || role == Some("assistant"@))
}

proof fn lemma_messages_made(start: HistoryView, items: Seq<JsonView>, anthropic: bool)
    requires
        items_added(start, items, anthropic) is Ok,
    ensures
        items_added(start, items, anthropic)->Ok_0.messages.len() > 0 <==> (start.messages.len() > 0
            || exists|i: int|
            0 <= i < items.len() && makes_message(#[trigger] items[i], anthropic)),
    decreases items.len(),
{
    if items.len() > 0 {
        lemma_item_kinds();
        let front = items.drop_last();
        let last = items.len() - 1;
        lemma_messages_made(start, front, anthropic);
        assert(items[last] == items.last());
        let before = items_added(start, front, anthropic)->Ok_0;
        let after = items_added(start, items, anthropic)->Ok_0;
        assert(makes_message(items[last], anthropic) <==> after.messages.len()
            > before.messages.len());
        assert(after.messages.len() >= before.messages.len());
        if exists|i: int| 0 <= i < front.len() && makes_message(#[trigger] front[i], anthropic) {
            let i = choose|i: int|
                0 <= i < front.len() && makes_message(#[trigger] front[i], anthropic);
            assert(makes_message(items[i], anthropic));
        }
        if exists|i: int| 0 <= i < items.len() && makes_message(#[trigger] items[i], anthropic) {
            let i = choose|i: int|
                0 <= i < items.len() && makes_message(#[trigger] items[i], anthropic);
            if i < last {
                assert(makes_message(front[i], anthropic));
            }
        }
    }
}

/// Whether a choice among the tools can be told.
pub open spec fn choice_fits(choice: JsonView, anthropic: bool) -> bool {
    match choice {
        JsonView::Text(mode) => !anthropic || mode == "required"@ || mode == "auto"@ || mode
            == "none"@,
        _ => as_text(get(Some(choice), "type"@)) == Some("function"@) && as_text(
            get(Some(choice), "name"@),
        ) is Some,
    }
}

/// Whether a list of tools can be offered: functions, each with a name.
pub open spec fn tools_fit(tools: JsonView) -> bool {
    tools matches JsonView::Array(listed) && forall|i: int|
        0 <= i < listed.len() ==> as_text(get(Some(#[trigger] listed[i]), "type"@)) == Some(
            "function"@,
        ) && as_text(get(Some(listed[i]), "name"@)) is Some
}

proof fn lemma_tools_fit(tools: JsonView, anthropic: bool)
    ensures
        tools_encoded(tools, anthropic) is Ok <==> tools_fit(tools),
{
    if let JsonView::Array(listed) = tools {
        let results = tool_results(listed, anthropic);
        lemma_collected(results);
        assert forall|i: int| 0 <= i < listed.len() implies (#[trigger] results[i]) is Ok == (
        as_text(get(Some(listed[i]), "type"@)) == Some("function"@) && as_text(
            get(Some(listed[i]), "name"@),
        ) is Some) by {
            lemma_tool_retold(listed[i], anthropic);
        }
        if tools_encoded(tools, anthropic) is Ok {
            assert forall|i: int| 0 <= i < listed.len() implies as_text(
                get(Some(#[trigger] listed[i]), "type"@),
            ) == Some("function"@) && as_text(get(Some(listed[i]), "name"@)) is Some by {
                assert(results[i] is Ok);
            }
        } else {
            let kind = tools_encoded(tools, anthropic)->Err_0;
            let i = choose|i: int|
                0 <= i < results.len() && #[trigger] results[i] == Err::<
                    JsonView,
                    ProviderErrorKind,
                >(kind);
            assert(!(as_text(get(Some(listed[i]), "type"@)) == Some("function"@) && as_text(
                get(Some(listed[i]), "name"@),
            ) is Some));
        }
    }
}

/// Whether the input of a request can be told, with a message among what is told.
pub open spec fn input_fits(source: Fields, anthropic: bool) -> bool {
    match field(source, "input"@) {
        Some(JsonView::Text(_)) => true,
        Some(JsonView::Array(items)) => {
            &&& forall|i: int|
                0 <= i < items.len() ==> item_fits(#[trigger] items[i], anthropic)
            &&& (!anthropic && present(field(source, "instructions"@))) || exists|i: int|
                0 <= i < items.len() && makes_message(#[trigger] items[i], anthropic)
        },
        _ => false,
    }
}

/// Whether a protocol can say a request: a new conversation, not the continuation of a stored one
/// nor one in the background, with instructions that are text, an input that can be told, tools
/// that are functions and a choice among them. Towards the Messages protocol a request may ask
/// neither for an effort of reasoning nor for any form but text; for Chat a form is an object.
pub open spec fn can_be_said(source: Fields, anthropic: bool) -> bool {
    let effort = get(field(source, "reasoning"@), "effort"@);
    let format = get(field(source, "text"@), "format"@);
    let form = get(format, "type"@);
    &&& !present(field(source, "previous_response_id"@))
    &&& field(source, "background"@) != Some(JsonView::Bool(true))
    &&& !present(field(source, "instructions"@)) || as_text(
        field(source, "instructions"@),
    ) is Some
    &&& input_fits(source, anthropic)
    &&& field(source, "tools"@) is None || tools_fit(field(source, "tools"@)->0)
    &&& field(source, "tool_choice"@) is None || choice_fits(
        field(source, "tool_choice"@)->0,
        anthropic,
    )
    &&& anthropic ==> !present(effort) || effort == Some(JsonView::Text("none"@))
    &&& anthropic ==> form is None || form == Some(JsonView::Text("text"@))
    &&& !anthropic ==> format is None || format->0 is Object
}

/// A request goes to a model of another protocol than Responses exactly where that protocol can
/// say it: what it cannot say is refused, and nothing that it can say is.
pub proof fn lemma_what_can_be_said_is_sent(source: Fields, model: Model)
    requires
        model.protocol != Protocol::Responses,
    ensures
        request_encoded("openai"@, source, model) is Ok <==> can_be_said(
            source,
            model.protocol == Protocol::Messages,
        ),
{
    let anthropic = model.protocol == Protocol::Messages;
    lemma_item_kinds();
    crate::request::laws::lemma_message_keys();
    if let Some(tools) = field(source, "tools"@) {
        lemma_tools_fit(tools, anthropic);
    }
    if let Some(format) = get(field(source, "text"@), "format"@) {
        lemma_format_retold(format);
    }
    if let (Ok(start), Ok(items)) = (opening(source, anthropic), input_items(source)) {
        lemma_items_fit(start, items, anthropic);
        if let Some(JsonView::Text(text)) = field(source, "input"@) {
            let item = items[0];
            assert(get(Some(item), "type"@) is None);
            assert(item_fits(item, anthropic));
            assert forall|i: int| 0 <= i < items.len() implies item_fits(
                #[trigger] items[i],
                anthropic,
            ) by {
            }
            assert(makes_message(items[0], anthropic));
        }
        if items_added(start, items, anthropic) is Ok {
            lemma_messages_made(start, items, anthropic);
        }
    }
}

/// Why an item is refused: one of an unknown kind is not supported; one that lacks what its kind
/// needs is invalid, and so is a role that nobody has.
pub proof fn lemma_refused_items(history: HistoryView, item: JsonView, anthropic: bool)
    ensures
        ({
            let kind = item_kind(item);
            let refusal = item_added(history, item, anthropic);
            let invalid = Err::<HistoryView, _>(ProviderErrorKind::InvalidRequest);
            &&& kind != "message"@ && kind != "function_call"@ && kind != "function_call_output"@
                && kind != "reasoning"@ ==> refusal == Err::<HistoryView, _>(
                ProviderErrorKind::Unsupported,
            )
            &&& kind == "message"@ && (as_text(get(Some(item), "role"@)) is None || get(
                Some(item),
                "content"@,
            ) is None) ==> refusal == invalid
            &&& kind == "function_call"@ && !item_fits(item, anthropic) ==> refusal == invalid
            &&& kind == "function_call_output"@ && (as_text(get(Some(item), "call_id"@)) is None
                || get(Some(item), "output"@) is None) ==> refusal == invalid
            &&& kind == "message"@ && refusal is Err && get(Some(item), "content"@) is Some
                && content_fits(get(Some(item), "content"@)->0, anthropic) ==> refusal == invalid
        }),
{
    lemma_item_kinds();
    if let Some(content) = get(Some(item), "content"@) {
        lemma_content_fits(content, anthropic);
    }
}

/// Why a part is refused: one of an unknown type is not supported, any other one is invalid.
pub proof fn lemma_refused_parts(part: JsonView, anthropic: bool)
    ensures
        part_encoded(part, anthropic) matches Err(kind) ==> {
            let known = as_text(get(Some(part), "type"@));
            if known == Some("input_text"@) || known == Some("output_text"@) || known == Some(
                "text"@,
            ) || known == Some("input_image"@) {
                kind == ProviderErrorKind::InvalidRequest
            } else {
                kind == ProviderErrorKind::Unsupported
            }
        },
{
}

/// What is refused and why, before anything else is looked at: another protocol than OpenAI's is
/// invalid, whatever the model; a stored or a background answer is not supported by a model of
/// another protocol than Responses; and a request without input is invalid for it.
pub proof fn lemma_refusals(protocol: Seq<char>, source: Fields, model: Model)
    ensures
        protocol != "openai"@ ==> request_encoded(protocol, source, model) == Err::<JsonView, _>(
            ProviderErrorKind::InvalidRequest,
        ),
        protocol == "openai"@ && model.protocol == Protocol::Responses ==> request_encoded(
            protocol,
            source,
            model,
        ) is Ok,
        protocol == "openai"@ && model.protocol != Protocol::Responses && (present(
            field(source, "previous_response_id"@),
        ) || field(source, "background"@) == Some(JsonView::Bool(true))) ==> request_encoded(
            protocol,
            source,
            model,
        ) == Err::<JsonView, _>(ProviderErrorKind::Unsupported),
        protocol == "openai"@ && model.protocol == Protocol::Chat && !present(
            field(source, "previous_response_id"@),
        ) && field(source, "background"@) != Some(JsonView::Bool(true)) && field(
            source,
            "input"@,
        ) is None ==> request_encoded(protocol, source, model) == Err::<JsonView, _>(
            ProviderErrorKind::InvalidRequest,
        ),
{
}

} // verus!
