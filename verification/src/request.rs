//! Translates a Responses request into the protocol that the catalog names for its model.

pub mod content;
pub mod history;
pub mod laws;
pub mod merge;
pub mod options;
pub mod terms;

use crate::catalog::{Model, Protocol};
use crate::error::{error, failure, ProviderError, ProviderErrorKind, UpstreamSendState};
use crate::json::{
    as_text, field, get, lone, present, single, Fields, Json, JsonObject, JsonView, NumberView,
};
use crate::operation::ProtocolPayload;
use crate::request::content::{encode_text, text_part, yields};
use crate::request::history::{
    encode_message, items_added, message, with_message, History, HistoryView,
};
use crate::request::merge::{
    gathered, joined_calls, lemma_joined_calls_keep_calls, lemma_turns_alternate,
    lemma_turns_keep_parts, merge_chat_tool_calls, merge_messages, one_turn, turns,
};
use crate::request::options::{
    choice_encoded, encode_choice, encode_format, encode_tools, format_encoded, set_field,
    tools_encoded, with_field,
};
use crate::text::same_text;
use vstd::prelude::*;

verus! {

/// How many tokens a model may answer with in the Messages protocol unless the request says.
pub const DEFAULT_OUTPUT: u64 = 8192;

/// What only the Responses protocol can do: continue a stored answer, or answer in the
/// background.
pub open spec fn needs_storage(source: Fields) -> bool {
    present(field(source, "previous_response_id"@)) || field(source, "background"@) == Some(
        JsonView::Bool(true),
    )
}

/// What the Messages protocol cannot express: a reasoning effort, or an answer that is not
/// plain text.
pub open spec fn needs_more_than_messages(source: Fields) -> bool {
    let effort = get(field(source, "reasoning"@), "effort"@);
    let form = get(get(field(source, "text"@), "format"@), "type"@);
    (present(effort) && as_text(effort) != Some("none"@)) || (form is Some && as_text(form) != Some(
        "text"@,
    ))
}

/// What stands before the items: the instructions, if there are any.
pub open spec fn opening(source: Fields, anthropic: bool) -> Result<
    HistoryView,
    ProviderErrorKind,
> {
    let nothing = HistoryView { messages: seq![], system: seq![] };
    let instructions = field(source, "instructions"@);
    if !present(instructions) {
        Ok(nothing)
    } else {
        match instructions {
            Some(JsonView::Text(text)) => if anthropic {
                Ok(HistoryView { messages: seq![], system: seq![text_part(text)] })
            } else {
                Ok(with_message(nothing, message("system"@, JsonView::Text(text))))
            },
            _ => Err(ProviderErrorKind::InvalidRequest),
        }
    }
}

/// The items of the conversation; a plain text is one message of the user.
pub open spec fn input_items(source: Fields) -> Result<Seq<JsonView>, ProviderErrorKind> {
    match field(source, "input"@) {
        Some(JsonView::Text(text)) => Ok(seq![message("user"@, JsonView::Text(text))]),
        Some(JsonView::Array(items)) => Ok(items),
        _ => Err(ProviderErrorKind::InvalidRequest),
    }
}

/// The whole conversation, which has to hold a message.
pub open spec fn conversation(source: Fields, anthropic: bool) -> Result<
    HistoryView,
    ProviderErrorKind,
> {
    match (opening(source, anthropic), input_items(source)) {
        (Ok(start), Ok(items)) => match items_added(start, items, anthropic) {
            Err(kind) => Err(kind),
            Ok(history) => if history.messages.len() == 0 {
                Err(ProviderErrorKind::InvalidRequest)
            } else {
                Ok(history)
            },
        },
        _ => Err(ProviderErrorKind::InvalidRequest),
    }
}

/// The fields that every translated request starts with.
pub open spec fn opened(model: Model) -> Fields {
    single("model"@, JsonView::Text(model.id@)).insert("stream"@, JsonView::Bool(true))
}

/// The fields of the Messages protocol that the tools do not belong to.
pub open spec fn messages_fields(source: Fields, model: Model, history: HistoryView) -> Fields {
    let spoken = if history.system.len() == 0 {
        opened(model)
    } else {
        opened(model).insert("system"@, JsonView::Array(history.system))
    };
    let limit = match field(source, "max_output_tokens"@) {
        Some(limit) => limit,
        None => JsonView::Number(
            NumberView::Unsigned(
                if model.output < DEFAULT_OUTPUT {
                    model.output
                } else {
                    DEFAULT_OUTPUT
                },
            ),
        ),
    };
    spoken.insert("max_tokens"@, limit).insert(
        "messages"@,
        JsonView::Array(turns(history.messages)),
    )
}

/// The fields of Chat that the tools do not belong to.
pub open spec fn chat_fields(source: Fields, model: Model, history: HistoryView) -> Result<
    Fields,
    ProviderErrorKind,
> {
    let counted = opened(model).insert(
        "stream_options"@,
        JsonView::Object(single("include_usage"@, JsonView::Bool(true))),
    );
    let limited = with_field(counted, "max_tokens"@, field(source, "max_output_tokens"@));
    let reasoned = with_field(
        limited,
        "reasoning_effort"@,
        get(field(source, "reasoning"@), "effort"@),
    );
    let formed = match get(field(source, "text"@), "format"@) {
        None => Ok(reasoned),
        Some(format) => match format_encoded(format) {
            Err(kind) => Err(kind),
            Ok(format) => Ok(reasoned.insert("response_format"@, format)),
        },
    };
    match formed {
        Err(kind) => Err(kind),
        Ok(formed) => Ok(
            with_field(
                formed,
                "parallel_tool_calls"@,
                field(source, "parallel_tool_calls"@),
            ).insert("messages"@, JsonView::Array(joined_calls(history.messages))),
        ),
    }
}

/// The fields that both protocols share: the sampling settings and the tools.
pub open spec fn shared_fields(fields: Fields, source: Fields, anthropic: bool) -> Result<
    Fields,
    ProviderErrorKind,
> {
    let heated = with_field(fields, "temperature"@, field(source, "temperature"@));
    let sampled = with_field(heated, "top_p"@, field(source, "top_p"@));
    let offered = match field(source, "tools"@) {
        None => Ok(sampled),
        Some(tools) => match tools_encoded(tools, anthropic) {
            Err(kind) => Err(kind),
            Ok(tools) => Ok(sampled.insert("tools"@, JsonView::Array(tools))),
        },
    };
    match offered {
        Err(kind) => Err(kind),
        Ok(offered) => match field(source, "tool_choice"@) {
            None => Ok(offered),
            Some(choice) => match choice_encoded(choice, anthropic) {
                Err(kind) => Err(kind),
                Ok(choice) => Ok(offered.insert("tool_choice"@, choice)),
            },
        },
    }
}

/// A request in the Messages protocol or in Chat.
pub open spec fn translated(source: Fields, model: Model) -> Result<JsonView, ProviderErrorKind> {
    let anthropic = model.protocol == Protocol::Messages;
    match conversation(source, anthropic) {
        Err(kind) => Err(kind),
        Ok(history) => {
            let own = if anthropic {
                Ok(messages_fields(source, model, history))
            } else {
                chat_fields(source, model, history)
            };
            match own {
                Err(kind) => Err(kind),
                Ok(own) => match shared_fields(own, source, anthropic) {
                    Err(kind) => Err(kind),
                    Ok(fields) => Ok(JsonView::Object(fields)),
                },
            }
        },
    }
}

/// The body to send for a request, or the kind of error that it is refused with.
pub open spec fn request_encoded(protocol: Seq<char>, source: Fields, model: Model) -> Result<
    JsonView,
    ProviderErrorKind,
> {
    if protocol != "openai"@ {
        Err(ProviderErrorKind::InvalidRequest)
    } else if model.protocol == Protocol::Responses {
        Ok(
            JsonView::Object(
                source.insert("model"@, JsonView::Text(model.id@)).insert(
                    "stream"@,
                    JsonView::Bool(true),
                ),
            ),
        )
    } else if needs_storage(source) || (model.protocol == Protocol::Messages
        && needs_more_than_messages(source)) {
        Err(ProviderErrorKind::Unsupported)
    } else {
        translated(source, model)
    }
}

fn wants_storage(source: &JsonObject) -> (result: bool)
    ensures
        result == needs_storage(source@),
{
    if let Some(previous) = source.get("previous_response_id") {
        if !previous.is_null() {
            return true;
        }
    }
    match source.get("background") {
        Some(Json::Bool(background)) => *background,
        _ => false,
    }
}

/// The field of a field.
fn inner<'a>(source: &'a JsonObject, key: &str, name: &str) -> (value: Option<&'a Json>)
    ensures
        crate::json::view_option(value) == get(field(source@, key@), name@),
{
    match source.get(key) {
        Some(value) => value.get(name),
        None => None,
    }
}

fn exceeds_messages(source: &JsonObject) -> (result: bool)
    ensures
        result == needs_more_than_messages(source@),
{
    if let Some(effort) = inner(source, "reasoning", "effort") {
        if !effort.is_null() {
            match effort.as_text() {
                Some(effort) => if !same_text(effort, "none") {
                    return true;
                },
                None => return true,
            }
        }
    }
    if let Some(format) = inner(source, "text", "format") {
        if let Some(form) = format.get("type") {
            return match form.as_text() {
                Some(form) => !same_text(form, "text"),
                None => true,
            };
        }
    }
    false
}

fn open_history(source: &JsonObject, anthropic: bool) -> (history: Result<
    History,
    ProviderErrorKind,
>)
    ensures
        match opening(source@, anthropic) {
            Ok(expected) => history matches Ok(history) && history@ == expected,
            Err(kind) => history == Err::<History, ProviderErrorKind>(kind),
        },
{
    let mut history = History::new();
    if let Some(instructions) = source.get("instructions") {
        if !instructions.is_null() {
            let text = match instructions.as_text() {
                Some(text) => text,
                None => return Err(ProviderErrorKind::InvalidRequest),
            };
            if anthropic {
                let part = encode_text(text);
                proof {
                    crate::json::lemma_items_view_push(history.system@, part);
                }
                history.system.push(part);
                assert(history@.system == seq![text_part(text@)]);
            } else {
                history.push(encode_message("system", Json::text(text)));
            }
        }
    }
    Ok(history)
}

fn encode_conversation(source: &JsonObject, anthropic: bool) -> (history: Result<
    History,
    ProviderErrorKind,
>)
    ensures
        match conversation(source@, anthropic) {
            Ok(expected) => history matches Ok(history) && history@ == expected,
            Err(kind) => history == Err::<History, ProviderErrorKind>(kind),
        },
{
    let mut history = open_history(source, anthropic)?;
    match source.get("input") {
        Some(Json::Text(text)) => {
            let items = lone(encode_message("user", Json::text(text.as_str())));
            match items {
                Json::Array(items) => history.add_items(&items, anthropic)?,
                _ => {},
            }
        },
        Some(Json::Array(items)) => history.add_items(items, anthropic)?,
        _ => return Err(ProviderErrorKind::InvalidRequest),
    }
    proof {
        crate::json::lemma_items_view(history.messages@);
    }
    if history.messages.len() == 0 {
        return Err(ProviderErrorKind::InvalidRequest);
    }
    Ok(history)
}

fn open_body(model: &Model) -> (body: JsonObject)
    ensures
        body@ == opened(*model),
{
    JsonObject::new().with("model", Json::text(model.id.as_str())).with("stream", Json::Bool(true))
}

fn encode_messages_fields(source: &JsonObject, model: &Model, history: History) -> (body:
    JsonObject)
    ensures
        body@ == messages_fields(source@, *model, history@),
{
    let mut body = open_body(model);
    proof {
        crate::json::lemma_items_view(history.system@);
    }
    if history.system.len() > 0 {
        body.set("system", Json::array(history.system));
    }
    let limit = match source.get("max_output_tokens") {
        Some(limit) => limit.clone(),
        None => Json::unsigned(
            if model.output < DEFAULT_OUTPUT {
                model.output
            } else {
                DEFAULT_OUTPUT
            },
        ),
    };
    body.set("max_tokens", limit);
    body.set("messages", Json::array(merge_messages(history.messages)));
    body
}

fn encode_chat_fields(source: &JsonObject, model: &Model, history: History) -> (body: Result<
    JsonObject,
    ProviderErrorKind,
>)
    ensures
        match chat_fields(source@, *model, history@) {
            Ok(expected) => body matches Ok(body) && body@ == expected,
            Err(kind) => body == Err::<JsonObject, ProviderErrorKind>(kind),
        },
{
    let mut body = open_body(model);
    body.set(
        "stream_options",
        Json::object(JsonObject::new().with("include_usage", Json::Bool(true))),
    );
    set_field(&mut body, "max_tokens", source.get("max_output_tokens"));
    set_field(&mut body, "reasoning_effort", inner(source, "reasoning", "effort"));
    if let Some(format) = inner(source, "text", "format") {
        let format = encode_format(format)?;
        body.set("response_format", format);
    }
    set_field(&mut body, "parallel_tool_calls", source.get("parallel_tool_calls"));
    body.set("messages", Json::array(merge_chat_tool_calls(history.messages)));
    Ok(body)
}

fn encode_shared_fields(body: JsonObject, source: &JsonObject, anthropic: bool) -> (result: Result<
    JsonObject,
    ProviderErrorKind,
>)
    ensures
        match shared_fields(body@, source@, anthropic) {
            Ok(expected) => result matches Ok(result) && result@ == expected,
            Err(kind) => result == Err::<JsonObject, ProviderErrorKind>(kind),
        },
{
    let mut body = body;
    set_field(&mut body, "temperature", source.get("temperature"));
    set_field(&mut body, "top_p", source.get("top_p"));
    if let Some(tools) = source.get("tools") {
        let tools = encode_tools(tools, anthropic)?;
        body.set("tools", Json::array(tools));
    }
    if let Some(choice) = source.get("tool_choice") {
        let choice = encode_choice(choice, anthropic)?;
        body.set("tool_choice", choice);
    }
    Ok(body)
}

fn translate(source: &JsonObject, model: &Model) -> (body: Result<Json, ProviderErrorKind>)
    ensures
        yields(body, translated(source@, *model)),
{
    let anthropic = model.protocol == Protocol::Messages;
    let history = encode_conversation(source, anthropic)?;
    let own = if anthropic {
        encode_messages_fields(source, model, history)
    } else {
        encode_chat_fields(source, model, history)?
    };
    let body = encode_shared_fields(own, source, anthropic)?;
    Ok(Json::object(body))
}

/// The body to send upstream for a request. Nothing has been sent where it is refused.
pub fn encode(payload: &ProtocolPayload, model: &Model) -> (body: Result<Json, ProviderError>)
    ensures
        match request_encoded(payload.protocol@, payload.body@, *model) {
            Ok(expected) => body matches Ok(json) && json@ == expected,
            Err(kind) => body == Err::<Json, ProviderError>(
                failure(kind, UpstreamSendState::NotSent),
            ),
        },
{
    if !same_text(payload.protocol.as_str(), "openai") {
        return Err(error(ProviderErrorKind::InvalidRequest));
    }
    let source = &payload.body;
    if model.protocol == Protocol::Responses {
        let body = source.clone();
        return Ok(
            Json::object(
                body.with("model", Json::text(model.id.as_str())).with("stream", Json::Bool(true)),
            ),
        );
    }
    if wants_storage(source) || (model.protocol == Protocol::Messages && exceeds_messages(source)) {
        return Err(error(ProviderErrorKind::Unsupported));
    }
    match translate(source, model) {
        Ok(body) => Ok(body),
        Err(kind) => Err(error(kind)),
    }
}

/// Towards a model of the Responses protocol a request keeps every field but the model's name
/// and the wish to stream.
pub proof fn lemma_responses_pass_through(source: Fields, model: Model, key: Seq<char>)
    requires
        model.protocol == Protocol::Responses,
        key != "model"@,
        key != "stream"@,
    ensures
        request_encoded("openai"@, source, model) matches Ok(JsonView::Object(body)) && field(
            body,
            key,
        ) == field(source, key),
{
}

/// Whether a body names the model and asks for a stream.
pub open spec fn names_model(body: Fields, model: Model) -> bool {
    field(body, "model"@) == Some(JsonView::Text(model.id@)) && field(body, "stream"@) == Some(
        JsonView::Bool(true),
    )
}

proof fn lemma_chat_names_model(source: Fields, model: Model, history: HistoryView)
    requires
        chat_fields(source, model, history) is Ok,
    ensures
        names_model(chat_fields(source, model, history)->Ok_0, model),
{
    reveal_strlit("model");
    reveal_strlit("stream");
    reveal_strlit("stream_options");
    reveal_strlit("max_tokens");
    reveal_strlit("reasoning_effort");
    reveal_strlit("response_format");
    reveal_strlit("parallel_tool_calls");
    reveal_strlit("messages");
    assert("model"@.len() == 5 && "stream"@.len() == 6 && "stream_options"@.len() == 14
        && "max_tokens"@.len() == 10 && "reasoning_effort"@.len() == 16
        && "response_format"@.len() == 15 && "parallel_tool_calls"@.len() == 19
        && "messages"@.len() == 8);
    assert(names_model(opened(model), model));
}

proof fn lemma_messages_names_model(source: Fields, model: Model, history: HistoryView)
    ensures
        names_model(messages_fields(source, model, history), model),
{
    reveal_strlit("model");
    reveal_strlit("stream");
    reveal_strlit("system");
    reveal_strlit("max_tokens");
    reveal_strlit("messages");
    assert("stream"@[1] != "system"@[1]);
    assert("model"@.len() == 5 && "stream"@.len() == 6 && "system"@.len() == 6
        && "max_tokens"@.len() == 10 && "messages"@.len() == 8);
    assert(names_model(opened(model), model));
}

proof fn lemma_shared_names_model(fields: Fields, source: Fields, model: Model, anthropic: bool)
    requires
        names_model(fields, model),
        shared_fields(fields, source, anthropic) is Ok,
    ensures
        names_model(shared_fields(fields, source, anthropic)->Ok_0, model),
{
    reveal_strlit("model");
    reveal_strlit("stream");
    reveal_strlit("temperature");
    reveal_strlit("top_p");
    reveal_strlit("tools");
    reveal_strlit("tool_choice");
    assert("model"@[0] != "top_p"@[0]);
    assert("model"@[0] != "tools"@[0]);
    assert("model"@.len() == 5 && "stream"@.len() == 6 && "temperature"@.len() == 11
        && "top_p"@.len() == 5 && "tools"@.len() == 5 && "tool_choice"@.len() == 11);
}

/// Whatever the protocol, a request that is sent names the catalog's model and asks for a stream.
pub proof fn lemma_model_and_stream(protocol: Seq<char>, source: Fields, model: Model)
    requires
        request_encoded(protocol, source, model) is Ok,
    ensures
        request_encoded(protocol, source, model) matches Ok(JsonView::Object(body)) && names_model(
            body,
            model,
        ),
{
    reveal_strlit("model");
    reveal_strlit("stream");
    assert("model"@.len() != "stream"@.len());
    if model.protocol != Protocol::Responses {
        let anthropic = model.protocol == Protocol::Messages;
        let history = conversation(source, anthropic)->Ok_0;
        if anthropic {
            let own = messages_fields(source, model, history);
            lemma_messages_names_model(source, model, history);
            lemma_shared_names_model(own, source, model, anthropic);
        } else {
            let own = chat_fields(source, model, history)->Ok_0;
            lemma_chat_names_model(source, model, history);
            lemma_shared_names_model(own, source, model, anthropic);
        }
    }
}

/// A reasoning item changes nothing, wherever it stands among the items.
pub proof fn lemma_reasoning_is_left_out(
    history: HistoryView,
    before: Seq<JsonView>,
    item: JsonView,
    after: Seq<JsonView>,
    anthropic: bool,
)
    requires
        as_text(get(Some(item), "type"@)) == Some("reasoning"@),
    ensures
        items_added(history, before.push(item) + after, anthropic) == items_added(
            history,
            before + after,
            anthropic,
        ),
    decreases after.len(),
{
    reveal_strlit("reasoning");
    reveal_strlit("message");
    reveal_strlit("function_call");
    reveal_strlit("function_call_output");
    assert("reasoning"@.len() != "message"@.len());
    assert("reasoning"@.len() != "function_call"@.len());
    assert("reasoning"@.len() != "function_call_output"@.len());
    if after.len() == 0 {
        assert((before.push(item) + after).drop_last() == before);
        assert(before + after == before);
    } else {
        assert((before.push(item) + after).drop_last() == before.push(item) + after.drop_last());
        assert((before + after).drop_last() == before + after.drop_last());
        lemma_reasoning_is_left_out(history, before, item, after.drop_last(), anthropic);
    }
}

/// Sampling settings and tools leave the messages alone.
pub proof fn lemma_shared_keeps_messages(fields: Fields, source: Fields, anthropic: bool)
    requires
        shared_fields(fields, source, anthropic) is Ok,
    ensures
        field(shared_fields(fields, source, anthropic)->Ok_0, "messages"@) == field(
            fields,
            "messages"@,
        ),
{
    reveal_strlit("messages");
    reveal_strlit("temperature");
    reveal_strlit("top_p");
    reveal_strlit("tools");
    reveal_strlit("tool_choice");
    assert("messages"@.len() == 8 && "temperature"@.len() == 11 && "top_p"@.len() == 5
        && "tools"@.len() == 5 && "tool_choice"@.len() == 11);
}

/// A request in the Messages protocol sends the whole conversation, part by part in its order,
/// and no two neighbouring messages in it could be one.
pub proof fn lemma_messages_alternate(protocol: Seq<char>, source: Fields, model: Model)
    requires
        model.protocol == Protocol::Messages,
        request_encoded(protocol, source, model) is Ok,
    ensures
        ({
            let told = conversation(source, true)->Ok_0.messages;
            &&& request_encoded(protocol, source, model) matches Ok(JsonView::Object(body))
            &&& field(body, "messages"@) matches Some(JsonView::Array(messages))
            &&& gathered(messages, "content"@) == gathered(told, "content"@)
            &&& forall|i: int|
                0 < i < messages.len() ==> !one_turn(messages[i - 1], #[trigger] messages[i])
        }),
{
    let history = conversation(source, true)->Ok_0;
    let own = messages_fields(source, model, history);
    lemma_shared_keeps_messages(own, source, true);
    lemma_turns_keep_parts(history.messages);
    lemma_turns_alternate(history.messages);
}

/// A request in Chat sends every tool call of the conversation, in its order.
pub proof fn lemma_chat_keeps_calls(protocol: Seq<char>, source: Fields, model: Model)
    requires
        model.protocol == Protocol::Chat,
        request_encoded(protocol, source, model) is Ok,
    ensures
        ({
            let told = conversation(source, false)->Ok_0.messages;
            &&& request_encoded(protocol, source, model) matches Ok(JsonView::Object(body))
            &&& field(body, "messages"@) matches Some(JsonView::Array(messages))
            &&& gathered(messages, "tool_calls"@) == gathered(told, "tool_calls"@)
        }),
{
    let history = conversation(source, false)->Ok_0;
    let own = chat_fields(source, model, history)->Ok_0;
    lemma_shared_keeps_messages(own, source, false);
    lemma_joined_calls_keep_calls(history.messages);
}

} // verus!
