//! What a translated request says, told from the request that came in.

use crate::catalog::{Model, Protocol};
use crate::error::ProviderErrorKind;
use crate::json::{as_text, field, get, parsed_json, Fields, JsonView};
use crate::request::content::{
    content_encoded, lemma_collected, part_encoded, part_results, text_part,
};
use crate::request::history::{item_added, items_added, message, HistoryView};
use crate::request::merge::{gathered, joined_calls, list, one_turn, turns, with_list};
use crate::request::{
    chat_fields, conversation, input_items, messages_fields, opening, request_encoded,
    shared_fields,
};
use crate::text::{lemma_occurrence, starts_with};
use vstd::prelude::*;

verus! {

/// Whether a value holds this text under a key.
pub open spec fn says(value: JsonView, key: Seq<char>, text: Seq<char>) -> bool {
    get(Some(value), key) == Some(JsonView::Text(text))
}

/// Whether a part of a message is told as it was given. A text keeps its text, by whatever name it
/// came. For Chat an image keeps its address and its detail, which is `auto` unless one is given.
/// For the Messages protocol an image is either a web address, which it keeps, or its bytes with
/// their type, from which the address it came with can be put together again.
pub open spec fn part_retold(given: JsonView, part: JsonView, anthropic: bool) -> bool {
    let kind = as_text(get(Some(given), "type"@));
    let address = as_text(get(Some(given), "image_url"@));
    if kind == Some("input_text"@) || kind == Some("output_text"@) || kind == Some("text"@) {
        &&& as_text(get(Some(given), "text"@)) matches Some(text)
        &&& says(part, "type"@, "text"@)
        &&& says(part, "text"@, text)
    } else if kind == Some("input_image"@) && !anthropic {
        &&& address matches Some(url)
        &&& says(part, "type"@, "image_url"@)
        &&& get(Some(part), "image_url"@) matches Some(image)
        &&& says(image, "url"@, url)
        &&& says(
            image,
            "detail"@,
            match as_text(get(Some(given), "detail"@)) {
                Some(detail) => detail,
                None => "auto"@,
            },
        )
    } else if kind == Some("input_image"@) {
        &&& address matches Some(url)
        &&& says(part, "type"@, "image"@)
        &&& get(Some(part), "source"@) matches Some(source)
        &&& if starts_with(url, "data:"@) {
            &&& says(source, "type"@, "base64"@)
            &&& as_text(get(Some(source), "media_type"@)) matches Some(media_type)
            &&& as_text(get(Some(source), "data"@)) matches Some(data)
            &&& "data:"@ + media_type + ";base64,"@ + data == url
        } else {
            &&& starts_with(url, "https://"@) || starts_with(url, "http://"@)
            &&& says(source, "type"@, "url"@)
            &&& says(source, "url"@, url)
        }
    } else {
        false
    }
}

/// Whether parts are the content of a message as it was given: a plain text as one text part, else
/// part by part in order.
pub open spec fn content_retold(given: JsonView, parts: Seq<JsonView>, anthropic: bool) -> bool {
    match given {
        JsonView::Text(text) => parts.len() == 1 && says(parts[0], "type"@, "text"@) && says(
            parts[0],
            "text"@,
            text,
        ),
        JsonView::Array(list) => parts.len() == list.len() && forall|i: int|
            0 <= i < list.len() ==> part_retold(list[i], #[trigger] parts[i], anthropic),
        _ => false,
    }
}

proof fn lemma_text_part(text: Seq<char>)
    ensures
        says(text_part(text), "type"@, "text"@),
        says(text_part(text), "text"@, text),
{
    reveal_strlit("type");
    reveal_strlit("text");
    assert("type"@[1] != "text"@[1]);
}

proof fn lemma_part_retold(given: JsonView, anthropic: bool)
    ensures
        match part_encoded(given, anthropic) {
            Ok(part) => part_retold(given, part, anthropic),
            Err(_) => true,
        },
{
    reveal_strlit("type");
    reveal_strlit("text");
    reveal_strlit("image_url");
    reveal_strlit("source");
    reveal_strlit("url");
    reveal_strlit("detail");
    reveal_strlit("media_type");
    reveal_strlit("data");
    assert("type"@[0] == 't' && "text"@[0] == 't' && "data"@[0] == 'd');
    assert("type"@[1] == 'y' && "text"@[1] == 'e');
    assert("type"@.len() == 4 && "data"@.len() == 4 && "image_url"@.len() == 9);
    assert("source"@.len() == 6 && "url"@.len() == 3 && "detail"@.len() == 6);
    assert("media_type"@.len() == 10);
    let kind = as_text(get(Some(given), "type"@));
    if let Some(text) = as_text(get(Some(given), "text"@)) {
        lemma_text_part(text);
    }
    if let Some(url) = as_text(get(Some(given), "image_url"@)) {
        if starts_with(url, "data:"@) {
            let rest = url.skip("data:"@.len() as int);
            lemma_occurrence(rest, ";base64,"@, 0);
            if let Some((media_type, data)) = crate::text::split_at_first(rest, ";base64,"@) {
                assert(url =~= "data:"@ + rest);
                assert(rest =~= media_type + ";base64,"@ + data);
                assert("data:"@ + media_type + ";base64,"@ + data =~= url);
            }
        }
    }
}

proof fn lemma_content_retold(given: JsonView, anthropic: bool)
    ensures
        match content_encoded(given, anthropic) {
            Ok(parts) => content_retold(given, parts, anthropic),
            Err(_) => true,
        },
{
    match given {
        JsonView::Text(text) => {
            lemma_text_part(text);
        },
        JsonView::Array(list) => {
            let results = part_results(list, anthropic);
            lemma_collected(results);
            if let Ok(parts) = content_encoded(given, anthropic) {
                assert forall|i: int| 0 <= i < list.len() implies part_retold(
                    list[i],
                    #[trigger] parts[i],
                    anthropic,
                ) by {
                    assert(results[i] == part_encoded(list[i], anthropic));
                    assert(results[i] == Ok::<JsonView, ProviderErrorKind>(parts[i]));
                    lemma_part_retold(list[i], anthropic);
                }
            }
        },
        _ => {},
    }
}

/// What a conversation in Chat is made of, one by one: something that somebody says, or a call of
/// the assistant.
#[verifier::ext_equal]
pub struct Beat {
    pub role: Option<JsonView>,
    pub content: Option<JsonView>,
    pub answers: Option<JsonView>,
    pub call: Option<JsonView>,
}

/// What a Chat message is made of: what it says, if it says anything, and then its calls.
pub open spec fn message_beats(message: JsonView) -> Seq<Beat> {
    let role = get(Some(message), "role"@);
    let content = get(Some(message), "content"@);
    let said = if content is Some && content != Some(JsonView::Null) {
        seq![
            Beat { role, content, answers: get(Some(message), "tool_call_id"@), call: None },
        ]
    } else {
        seq![]
    };
    let calls = match get(Some(message), "tool_calls"@) {
        Some(JsonView::Array(calls)) => calls,
        _ => seq![],
    };
    said + calls.map_values(
        |call: JsonView| Beat { role, content: None, answers: None, call: Some(call) },
    )
}

/// What Chat messages are made of, in their order.
pub open spec fn beats(messages: Seq<JsonView>) -> Seq<Beat>
    decreases messages.len(),
{
    if messages.len() == 0 {
        seq![]
    } else {
        beats(messages.drop_last()) + message_beats(messages.last())
    }
}

proof fn lemma_beats_push(messages: Seq<JsonView>, message: JsonView)
    ensures
        beats(messages.push(message)) == beats(messages) + message_beats(message),
{
    assert(messages.push(message).drop_last() =~= messages);
}

/// Whether a message that brings calls says nothing.
pub open spec fn calls_silently(message: JsonView) -> bool {
    list(message, "tool_calls"@) is Some ==> get(Some(message), "content"@) == Some(JsonView::Null)
}

/// The names of a message's fields differ.
pub proof fn lemma_message_keys()
    ensures
        "role"@.len() == 4,
        "type"@.len() == 4,
        "name"@.len() == 4,
        "role"@ != "type"@,
        "role"@ != "name"@,
        "type"@ != "name"@,
        "content"@.len() == 7,
        "tool_calls"@.len() == 10,
        "tool_call_id"@.len() == 12,
        "tool_use_id"@.len() == 11,
        "id"@.len() == 2,
        "function"@.len() == 8,
        "arguments"@.len() == 9,
        "input"@.len() == 5,
{
    reveal_strlit("role");
    reveal_strlit("type");
    reveal_strlit("name");
    reveal_strlit("content");
    reveal_strlit("tool_calls");
    reveal_strlit("tool_call_id");
    reveal_strlit("tool_use_id");
    reveal_strlit("id");
    reveal_strlit("function");
    reveal_strlit("arguments");
    reveal_strlit("input");
    assert("role"@[0] == 'r' && "type"@[0] == 't' && "name"@[0] == 'n');
}

/// Joining calls keeps everything that is said and called, in its order.
proof fn lemma_joined_beats(messages: Seq<JsonView>)
    requires
        forall|i: int| 0 <= i < messages.len() ==> calls_silently(#[trigger] messages[i]),
    ensures
        beats(joined_calls(messages)) == beats(messages),
    decreases messages.len(),
{
    if messages.len() > 0 {
        lemma_message_keys();
        let front = messages.drop_last();
        let next = messages.last();
        assert(calls_silently(messages[messages.len() - 1]));
        assert forall|i: int| 0 <= i < front.len() implies calls_silently(#[trigger] front[i]) by {
            assert(front[i] == messages[i]);
        }
        lemma_joined_beats(front);
        let before = joined_calls(front);
        if before.len() > 0 && crate::request::merge::continues_calls(before.last(), next) {
            let last = before.last();
            let rest = before.drop_last();
            let more = list(next, "tool_calls"@)->0;
            let old_calls = match list(last, "tool_calls"@) {
                Some(calls) => calls,
                None => seq![],
            };
            let all = match list(last, "tool_calls"@) {
                Some(calls) => calls + more,
                None => more,
            };
            let whole = with_list(last, "tool_calls"@, all);
            assert(all =~= old_calls + more);
            lemma_beats_push(rest, whole);
            assert(before =~= rest.push(last));
            lemma_beats_push(rest, last);
            assert(list(whole, "tool_calls"@) == Some(all));
            assert(get(Some(whole), "role"@) == get(Some(last), "role"@));
            assert(get(Some(whole), "content"@) == get(Some(last), "content"@));
            assert(get(Some(whole), "tool_call_id"@) == get(Some(last), "tool_call_id"@));
            assert(get(Some(last), "role"@) == get(Some(next), "role"@));
            assert(message_beats(whole) =~= message_beats(last) + message_beats(next));
            assert(beats(rest) + (message_beats(last) + message_beats(next)) =~= (beats(rest)
                + message_beats(last)) + message_beats(next));
        } else {
            lemma_beats_push(before, next);
        }
    }
}

/// What an item of the conversation is.
pub open spec fn item_kind(item: JsonView) -> Seq<char> {
    match get(Some(item), "type"@) {
        Some(JsonView::Text(kind)) => kind,
        _ => "message"@,
    }
}

/// Whether a beat is a message as it was given: by the same role, where a developer speaks as the
/// system, and with the same content.
pub open spec fn says_message(item: JsonView, beat: Beat) -> bool {
    &&& as_text(get(Some(item), "role"@)) matches Some(role)
    &&& role == "user"@ || role == "assistant"@ || role == "system"@ || role == "developer"@
    &&& beat.role == Some(
        JsonView::Text(
            if role == "developer"@ {
                "system"@
            } else {
                role
            },
        ),
    )
    &&& get(Some(item), "content"@) matches Some(given)
    &&& beat.content matches Some(JsonView::Array(parts))
    &&& content_retold(given, parts, false)
    &&& beat.answers is None
    &&& beat.call is None
}

/// Whether a beat is a call as it was given: by the assistant, with the same identifier, the same
/// name and the same arguments, letter by letter.
pub open spec fn says_call(item: JsonView, beat: Beat) -> bool {
    &&& as_text(get(Some(item), "call_id"@)) matches Some(id)
    &&& as_text(get(Some(item), "name"@)) matches Some(name)
    &&& as_text(get(Some(item), "arguments"@)) matches Some(arguments)
    &&& beat.role == Some(JsonView::Text("assistant"@))
    &&& beat.call matches Some(call)
    &&& is_call(call, id, name, arguments)
    &&& beat.content is None
}

/// Whether a value is a call of a function in Chat.
pub open spec fn is_call(
    call: JsonView,
    id: Seq<char>,
    name: Seq<char>,
    arguments: Seq<char>,
) -> bool {
    &&& says(call, "id"@, id)
    &&& says(call, "type"@, "function"@)
    &&& get(Some(call), "function"@) matches Some(function)
    &&& says(function, "name"@, name)
    &&& says(function, "arguments"@, arguments)
}

/// Whether a beat is the output of a call as it was given: for the call with the same identifier,
/// and with the same content; a plain text stays one.
pub open spec fn says_output(item: JsonView, beat: Beat) -> bool {
    &&& as_text(get(Some(item), "call_id"@)) matches Some(id)
    &&& beat.role == Some(JsonView::Text("tool"@))
    &&& beat.answers == Some(JsonView::Text(id))
    &&& get(Some(item), "output"@) matches Some(given)
    &&& match given {
        JsonView::Text(_) => beat.content == Some(given),
        _ => beat.content matches Some(JsonView::Array(parts)) && content_retold(
            given,
            parts,
            false,
        ),
    }
    &&& beat.call is None
}

/// Whether beats are the items of a conversation, one by one and in order; only the reasoning is
/// left out.
pub open spec fn retold_in_chat(items: Seq<JsonView>, told: Seq<Beat>) -> bool
    decreases items.len(),
{
    if items.len() == 0 {
        told.len() == 0
    } else {
        let item = items.last();
        let kind = item_kind(item);
        if kind == "reasoning"@ {
            retold_in_chat(items.drop_last(), told)
        } else {
            &&& told.len() > 0
            &&& retold_in_chat(items.drop_last(), told.drop_last())
            &&& if kind == "message"@ {
                says_message(item, told.last())
            } else if kind == "function_call"@ {
                says_call(item, told.last())
            } else {
                kind == "function_call_output"@ && says_output(item, told.last())
            }
        }
    }
}

/// The names of items and of roles differ.
pub proof fn lemma_item_kinds()
    ensures
        "message"@.len() == 7,
        "function_call"@.len() == 13,
        "function_call_output"@.len() == 20,
        "reasoning"@.len() == 9,
        "system"@.len() == 6,
        "developer"@.len() == 9,
        "user"@.len() == 4,
        "assistant"@.len() == 9,
        "developer"@ != "assistant"@,
        "tool"@.len() == 4,
{
    reveal_strlit("message");
    reveal_strlit("function_call");
    reveal_strlit("function_call_output");
    reveal_strlit("reasoning");
    reveal_strlit("system");
    reveal_strlit("developer");
    reveal_strlit("user");
    reveal_strlit("assistant");
    reveal_strlit("tool");
    assert("developer"@[0] != "assistant"@[0]);
}

proof fn lemma_chat_item(history: HistoryView, item: JsonView)
    requires
        item_added(history, item, false) is Ok,
    ensures
        ({
            let after = item_added(history, item, false)->Ok_0;
            let kind = item_kind(item);
            if kind == "reasoning"@ {
                after == history
            } else {
                let told = after.messages.last();
                let beat = message_beats(told)[0];
                &&& after.messages == history.messages.push(told)
                &&& message_beats(told).len() == 1
                &&& calls_silently(told)
                &&& kind == "message"@ ==> says_message(item, beat)
                &&& kind == "function_call"@ ==> says_call(item, beat)
                &&& kind == "function_call_output"@ ==> says_output(item, beat)
                &&& kind == "message"@ || kind == "function_call"@ || kind
                    == "function_call_output"@
            }
        }),
{
    lemma_message_keys();
    lemma_item_kinds();
    if let Some(given) = get(Some(item), "content"@) {
        lemma_content_retold(given, false);
    }
    if let Some(given) = get(Some(item), "output"@) {
        lemma_content_retold(given, false);
    }
    let after = item_added(history, item, false)->Ok_0;
    if item_kind(item) != "reasoning"@ {
        let told = after.messages.last();
        assert(after.messages =~= history.messages.push(told));
        if item_kind(item) == "function_call"@ {
            let calls = list(told, "tool_calls"@)->0;
            assert(calls.len() == 1);
            assert(message_beats(told) =~= seq![message_beats(told)[0]]);
        } else {
            assert(list(told, "tool_calls"@) is None);
            assert(message_beats(told) =~= seq![message_beats(told)[0]]);
        }
    }
}

proof fn lemma_chat_items(start: HistoryView, items: Seq<JsonView>)
    requires
        items_added(start, items, false) is Ok,
        forall|i: int|
            0 <= i < start.messages.len() ==> calls_silently(#[trigger] start.messages[i]),
    ensures
        ({
            let after = items_added(start, items, false)->Ok_0.messages;
            let told = beats(after).skip(beats(start.messages).len() as int);
            &&& beats(after) == beats(start.messages) + told
            &&& retold_in_chat(items, told)
            &&& forall|i: int| 0 <= i < after.len() ==> calls_silently(#[trigger] after[i])
        }),
    decreases items.len(),
{
    let first = beats(start.messages);
    if items.len() == 0 {
        assert(first.skip(first.len() as int) =~= Seq::<Beat>::empty());
        assert(first + Seq::<Beat>::empty() =~= first);
    } else {
        let item = items.last();
        lemma_item_kinds();
        lemma_chat_items(start, items.drop_last());
        let before = items_added(start, items.drop_last(), false)->Ok_0;
        lemma_chat_item(before, item);
        let after = items_added(start, items, false)->Ok_0;
        let told = beats(before.messages).skip(first.len() as int);
        if item_kind(item) != "reasoning"@ {
            let next = after.messages.last();
            let beat = message_beats(next)[0];
            lemma_beats_push(before.messages, next);
            assert(message_beats(next) =~= seq![beat]);
            let now = beats(after.messages).skip(first.len() as int);
            assert(now =~= told.push(beat));
            assert(now.drop_last() =~= told);
            assert(beats(after.messages) =~= first + now);
            assert forall|i: int| 0 <= i < after.messages.len() implies calls_silently(
                #[trigger] after.messages[i],
            ) by {
                if i < before.messages.len() {
                    assert(after.messages[i] == before.messages[i]);
                }
            }
        }
    }
}

proof fn lemma_chat_body_messages(source: Fields, model: Model, history: HistoryView)
    requires
        chat_fields(source, model, history) is Ok,
        shared_fields(chat_fields(source, model, history)->Ok_0, source, false) is Ok,
    ensures
        field(
            shared_fields(chat_fields(source, model, history)->Ok_0, source, false)->Ok_0,
            "messages"@,
        ) == Some(JsonView::Array(joined_calls(history.messages))),
{
    crate::request::lemma_shared_keeps_messages(
        chat_fields(source, model, history)->Ok_0,
        source,
        false,
    );
}

/// How many beats stand before the items: the instructions, where there are any.
pub open spec fn instructed(source: Fields) -> int {
    match field(source, "instructions"@) {
        None => 0,
        Some(JsonView::Null) => 0,
        Some(_) => 1,
    }
}

/// A request in Chat tells the whole conversation as it was given. The instructions stand first,
/// as words of the system. Then come the items, one by one and in order: messages with their
/// role and content, calls with their identifier, name and arguments, and outputs for the calls
/// that they answer. Only reasoning is left out. A plain text is a message of the user.
pub proof fn lemma_chat_retells_the_conversation(protocol: Seq<char>, source: Fields, model: Model)
    requires
        model.protocol == Protocol::Chat,
        request_encoded(protocol, source, model) is Ok,
    ensures
        ({
            let start = instructed(source);
            &&& request_encoded(protocol, source, model) matches Ok(JsonView::Object(body))
            &&& field(body, "messages"@) matches Some(JsonView::Array(messages))
            &&& start <= beats(messages).len()
            &&& start == 1 ==> {
                let first = beats(messages)[0];
                &&& field(source, "instructions"@) matches Some(JsonView::Text(text))
                &&& first.role == Some(JsonView::Text("system"@))
                &&& first.content == field(source, "instructions"@)
                &&& first.answers is None
                &&& first.call is None
            }
            &&& match field(source, "input"@) {
                Some(JsonView::Text(text)) => {
                    let last = beats(messages).last();
                    &&& beats(messages).len() == start + 1
                    &&& last.role == Some(JsonView::Text("user"@))
                    &&& last.content matches Some(JsonView::Array(parts))
                    &&& content_retold(JsonView::Text(text), parts, false)
                    &&& last.call is None
                },
                Some(JsonView::Array(items)) => retold_in_chat(items, beats(messages).skip(start)),
                _ => false,
            }
        }),
{
    lemma_message_keys();
    lemma_item_kinds();
    let history = conversation(source, false)->Ok_0;
    let begun = opening(source, false)->Ok_0;
    let items = input_items(source)->Ok_0;
    lemma_chat_body_messages(source, model, history);
    let none = Seq::<JsonView>::empty();
    assert(beats(none) =~= Seq::<Beat>::empty());
    if instructed(source) == 1 {
        let told = begun.messages[0];
        assert(begun.messages =~= none.push(told));
        lemma_beats_push(none, told);
        assert(list(told, "tool_calls"@) is None);
        assert(message_beats(told) =~= seq![message_beats(told)[0]]);
        assert(beats(begun.messages) =~= message_beats(told));
    } else {
        assert(begun.messages =~= none);
    }
    lemma_chat_items(begun, items);
    lemma_joined_beats(history.messages);
    let all = beats(history.messages);
    let start = instructed(source);
    assert(beats(begun.messages).len() == start);
    if let Some(JsonView::Text(text)) = field(source, "input"@) {
        let told = all.skip(start);
        let item = items[0];
        assert(items.drop_last() =~= none);
        assert(items.last() == item);
        assert(get(Some(item), "type"@) is None);
        assert(says_message(item, told.last()));
        assert(told.drop_last().len() == 0) by {
            assert(retold_in_chat(items.drop_last(), told.drop_last()));
        }
        assert(get(Some(item), "content"@) == Some(JsonView::Text(text)));
        assert(all.last() == told.last());
    }
}

/// The items that are calls, in their order.
pub open spec fn calls_among(items: Seq<JsonView>) -> Seq<JsonView>
    decreases items.len(),
{
    if items.len() == 0 {
        seq![]
    } else if item_kind(items.last()) == "function_call"@ {
        calls_among(items.drop_last()).push(items.last())
    } else {
        calls_among(items.drop_last())
    }
}

/// Whether a value is a call as it was given.
pub open spec fn call_retold(given: JsonView, call: JsonView) -> bool {
    &&& as_text(get(Some(given), "call_id"@)) matches Some(id)
    &&& as_text(get(Some(given), "name"@)) matches Some(name)
    &&& as_text(get(Some(given), "arguments"@)) matches Some(arguments)
    &&& is_call(call, id, name, arguments)
}

/// Whether values are the calls among the items as they were given, one by one.
pub open spec fn calls_retold(items: Seq<JsonView>, calls: Seq<JsonView>) -> bool {
    &&& calls.len() == calls_among(items).len()
    &&& forall|i: int|
        0 <= i < calls.len() ==> call_retold(calls_among(items)[i], #[trigger] calls[i])
}

/// The calls that beats hold.
pub open spec fn calls_of(told: Seq<Beat>) -> Seq<JsonView>
    decreases told.len(),
{
    if told.len() == 0 {
        seq![]
    } else {
        match told.last().call {
            Some(call) => calls_of(told.drop_last()).push(call),
            None => calls_of(told.drop_last()),
        }
    }
}

proof fn lemma_calls_of_push(told: Seq<Beat>, beat: Beat)
    ensures
        calls_of(told.push(beat)) == match beat.call {
            Some(call) => calls_of(told).push(call),
            None => calls_of(told),
        },
{
    assert(told.push(beat).drop_last() =~= told);
}

proof fn lemma_calls_of_concat(first: Seq<Beat>, second: Seq<Beat>)
    ensures
        calls_of(first + second) == calls_of(first) + calls_of(second),
    decreases second.len(),
{
    if second.len() == 0 {
        assert(first + second =~= first);
        assert(calls_of(first) + calls_of(second) =~= calls_of(first));
    } else {
        let front = second.drop_last();
        lemma_calls_of_concat(first, front);
        assert(first + second =~= (first + front).push(second.last()));
        lemma_calls_of_push(first + front, second.last());
        assert(calls_of(first + second) =~= calls_of(first) + calls_of(second));
    }
}

proof fn lemma_calls_of_message(message: JsonView)
    ensures
        calls_of(message_beats(message)) == match list(message, "tool_calls"@) {
            Some(calls) => calls,
            None => seq![],
        },
{
    let role = get(Some(message), "role"@);
    let calls = match list(message, "tool_calls"@) {
        Some(calls) => calls,
        None => seq![],
    };
    let made = calls.map_values(
        |call: JsonView| Beat { role, content: None, answers: None, call: Some(call) },
    );
    let said = message_beats(message).take(message_beats(message).len() - made.len());
    assert(message_beats(message) =~= said + made);
    lemma_calls_of_concat(said, made);
    lemma_calls_of_made(calls, role);
    if said.len() > 0 {
        assert(said.drop_last() =~= Seq::<Beat>::empty());
        assert(calls_of(said.drop_last()) =~= Seq::<JsonView>::empty());
    }
    assert(calls_of(said) =~= Seq::<JsonView>::empty());
    assert(calls_of(said) + calls =~= calls);
}

proof fn lemma_calls_of_made(calls: Seq<JsonView>, role: Option<JsonView>)
    ensures
        calls_of(
            calls.map_values(
                |call: JsonView| Beat { role, content: None, answers: None, call: Some(call) },
            ),
        ) == calls,
    decreases calls.len(),
{
    let make = |call: JsonView| Beat { role, content: None, answers: None, call: Some(call) };
    let made = calls.map_values(make);
    if calls.len() == 0 {
        assert(calls_of(made) =~= calls);
    } else {
        lemma_calls_of_made(calls.drop_last(), role);
        assert(made.drop_last() =~= calls.drop_last().map_values(make));
        assert(calls_of(made) =~= calls);
    }
}

proof fn lemma_calls_of_messages(messages: Seq<JsonView>)
    ensures
        calls_of(beats(messages)) == gathered(messages, "tool_calls"@),
    decreases messages.len(),
{
    if messages.len() > 0 {
        lemma_calls_of_messages(messages.drop_last());
        lemma_calls_of_message(messages.last());
        lemma_calls_of_concat(beats(messages.drop_last()), message_beats(messages.last()));
    }
}

proof fn lemma_retold_calls(items: Seq<JsonView>, told: Seq<Beat>)
    requires
        retold_in_chat(items, told),
    ensures
        calls_retold(items, calls_of(told)),
    decreases items.len(),
{
    if items.len() > 0 {
        lemma_item_kinds();
        let item = items.last();
        let front = items.drop_last();
        if item_kind(item) == "reasoning"@ {
            lemma_retold_calls(front, told);
        } else {
            lemma_retold_calls(front, told.drop_last());
            let before = calls_of(told.drop_last());
            let calls = calls_of(told);
            if item_kind(item) == "function_call"@ {
                assert(calls == before.push(told.last().call->0));
                assert(calls_among(items) == calls_among(front).push(item));
                assert forall|i: int| 0 <= i < calls.len() implies call_retold(
                    calls_among(items)[i],
                    #[trigger] calls[i],
                ) by {
                    if i < before.len() {
                        assert(calls[i] == before[i]);
                        assert(calls_among(items)[i] == calls_among(front)[i]);
                    }
                }
            } else {
                assert(told.last().call is None);
                assert(calls == before);
                assert(calls_among(items) == calls_among(front));
            }
        }
    }
}

/// Every call of the conversation is sent to a Chat model, in order, with the identifier, the name
/// and the arguments that it came with, and no other call is.
pub proof fn lemma_chat_calls_are_retold(
    protocol: Seq<char>,
    source: Fields,
    model: Model,
    items: Seq<JsonView>,
)
    requires
        model.protocol == Protocol::Chat,
        request_encoded(protocol, source, model) is Ok,
        field(source, "input"@) == Some(JsonView::Array(items)),
    ensures
        request_encoded(protocol, source, model) matches Ok(JsonView::Object(body)) && field(
            body,
            "messages"@,
        ) matches Some(JsonView::Array(messages)) && calls_retold(
            items,
            gathered(messages, "tool_calls"@),
        ),
{
    lemma_chat_retells_the_conversation(protocol, source, model);
    let body = request_encoded(protocol, source, model)->Ok_0->Object_0;
    let messages = field(body, "messages"@)->0->Array_0;
    let all = beats(messages);
    let start = instructed(source);
    lemma_retold_calls(items, all.skip(start));
    lemma_calls_of_messages(messages);
    let before = all.take(start);
    assert(all =~= before + all.skip(start));
    lemma_calls_of_concat(before, all.skip(start));
    if start == 1 {
        assert(before.drop_last() =~= Seq::<Beat>::empty());
        assert(calls_of(before.drop_last()) =~= Seq::<JsonView>::empty());
        assert(before.last() == all[0]);
    }
    assert(calls_of(before) =~= Seq::<JsonView>::empty());
    assert(calls_of(before) + calls_of(all.skip(start)) =~= calls_of(all.skip(start)));
}

/// What messages of the Messages protocol say, part by part, each with the role that says it.
pub open spec fn said_in(messages: Seq<JsonView>) -> Seq<(Option<JsonView>, JsonView)>
    decreases messages.len(),
{
    if messages.len() == 0 {
        seq![]
    } else {
        said_in(messages.drop_last()) + message_parts(messages.last())
    }
}

/// What one message says.
pub open spec fn message_parts(message: JsonView) -> Seq<(Option<JsonView>, JsonView)> {
    let role = get(Some(message), "role"@);
    match get(Some(message), "content"@) {
        Some(JsonView::Array(parts)) => parts.map_values(|part: JsonView| (role, part)),
        _ => seq![],
    }
}

proof fn lemma_said_push(messages: Seq<JsonView>, message: JsonView)
    ensures
        said_in(messages.push(message)) == said_in(messages) + message_parts(message),
{
    assert(messages.push(message).drop_last() =~= messages);
}

/// Joining turns keeps every part with its role, in its order.
proof fn lemma_said_in_turns(messages: Seq<JsonView>)
    requires
        forall|i: int|
            0 <= i < messages.len() ==> as_text(
                get(Some(#[trigger] messages[i]), "role"@),
            ) is Some,
    ensures
        said_in(turns(messages)) == said_in(messages),
    decreases messages.len(),
{
    if messages.len() > 0 {
        lemma_message_keys();
        let front = messages.drop_last();
        let next = messages.last();
        assert(as_text(get(Some(messages[messages.len() - 1]), "role"@)) is Some);
        assert forall|i: int| 0 <= i < front.len() implies as_text(
            get(Some(#[trigger] front[i]), "role"@),
        ) is Some by {
            assert(front[i] == messages[i]);
        }
        lemma_said_in_turns(front);
        let before = turns(front);
        if before.len() > 0 && one_turn(before.last(), next) {
            let last = before.last();
            let rest = before.drop_last();
            let first = list(last, "content"@)->0;
            let second = list(next, "content"@)->0;
            let whole = with_list(last, "content"@, first + second);
            lemma_said_push(rest, whole);
            lemma_said_push(rest, last);
            assert(before =~= rest.push(last));
            assert(list(whole, "content"@) == Some(first + second));
            assert(get(Some(whole), "role"@) == get(Some(last), "role"@));
            assert(get(Some(last), "role"@) == get(Some(next), "role"@));
            assert(message_parts(whole) =~= message_parts(last) + message_parts(next));
            assert(said_in(rest) + (message_parts(last) + message_parts(next)) =~= (said_in(rest)
                + message_parts(last)) + message_parts(next));
        } else {
            lemma_said_push(before, next);
        }
    }
}

/// Whether parts are said by this role, and are the content that was given.
pub open spec fn spoken_by(
    said: Seq<(Option<JsonView>, JsonView)>,
    role: Seq<char>,
    given: JsonView,
) -> bool {
    &&& content_retold(
        given,
        said.map_values(|one: (Option<JsonView>, JsonView)| one.1),
        true,
    )
    &&& forall|i: int| 0 <= i < said.len() ==> (#[trigger] said[i]).0 == Some(JsonView::Text(role))
}

/// How many parts a content has.
pub open spec fn part_count(given: JsonView) -> int {
    match given {
        JsonView::Text(_) => 1,
        JsonView::Array(parts) => parts.len() as int,
        _ => 0,
    }
}

/// Whether a part is a call as it was given: said by the assistant, with the same identifier and
/// name, and with the object that the arguments stand for.
pub open spec fn uses_tool(item: JsonView, said: (Option<JsonView>, JsonView)) -> bool {
    &&& as_text(get(Some(item), "call_id"@)) matches Some(id)
    &&& as_text(get(Some(item), "name"@)) matches Some(name)
    &&& as_text(get(Some(item), "arguments"@)) matches Some(arguments)
    &&& said.0 == Some(JsonView::Text("assistant"@))
    &&& says(said.1, "type"@, "tool_use"@)
    &&& says(said.1, "id"@, id)
    &&& says(said.1, "name"@, name)
    &&& parsed_json(arguments) matches Some(JsonView::Object(_))
    &&& get(Some(said.1), "input"@) == parsed_json(arguments)
}

/// Whether a part is the output of a call as it was given: said by the user, for the call with the
/// same identifier, and with the same content.
pub open spec fn gives_result(item: JsonView, said: (Option<JsonView>, JsonView)) -> bool {
    &&& as_text(get(Some(item), "call_id"@)) matches Some(id)
    &&& get(Some(item), "output"@) matches Some(given)
    &&& said.0 == Some(JsonView::Text("user"@))
    &&& says(said.1, "type"@, "tool_result"@)
    &&& says(said.1, "tool_use_id"@, id)
    &&& get(Some(said.1), "content"@) matches Some(JsonView::Array(parts))
    &&& content_retold(given, parts, true)
}

/// Whether parts and system parts are the items of a conversation, one by one and in order; only
/// the reasoning is left out. What the system or a developer says stands apart from the others.
pub open spec fn retold_in_messages(
    items: Seq<JsonView>,
    said: Seq<(Option<JsonView>, JsonView)>,
    system: Seq<JsonView>,
) -> bool
    decreases items.len(),
{
    if items.len() == 0 {
        said.len() == 0 && system.len() == 0
    } else {
        let item = items.last();
        let front = items.drop_last();
        let kind = item_kind(item);
        if kind == "reasoning"@ {
            retold_in_messages(front, said, system)
        } else if kind == "message"@ {
            &&& as_text(get(Some(item), "role"@)) matches Some(role)
            &&& get(Some(item), "content"@) matches Some(given)
            &&& if role == "system"@ || role == "developer"@ {
                let from = system.len() - part_count(given);
                &&& 0 <= from
                &&& content_retold(given, system.skip(from), true)
                &&& retold_in_messages(front, said, system.take(from))
            } else {
                let from = said.len() - part_count(given);
                &&& role == "user"@ || role == "assistant"@
                &&& 0 <= from
                &&& spoken_by(said.skip(from), role, given)
                &&& retold_in_messages(front, said.take(from), system)
            }
        } else if kind == "function_call"@ {
            &&& said.len() > 0
            &&& uses_tool(item, said.last())
            &&& retold_in_messages(front, said.drop_last(), system)
        } else {
            &&& kind == "function_call_output"@
            &&& said.len() > 0
            &&& gives_result(item, said.last())
            &&& retold_in_messages(front, said.drop_last(), system)
        }
    }
}

proof fn lemma_messages_item(history: HistoryView, item: JsonView)
    requires
        item_added(history, item, true) is Ok,
    ensures
        ({
            let after = item_added(history, item, true)->Ok_0;
            let kind = item_kind(item);
            let role = as_text(get(Some(item), "role"@));
            let given = get(Some(item), "content"@);
            let told = after.messages.last();
            if kind == "reasoning"@ {
                after == history
            } else if kind == "message"@ && (role == Some("system"@) || role == Some(
                "developer"@,
            )) {
                &&& given is Some
                &&& after.messages == history.messages
                &&& after.system.len() == history.system.len() + part_count(given->0)
                &&& after.system.take(history.system.len() as int) == history.system
                &&& content_retold(
                    given->0,
                    after.system.skip(history.system.len() as int),
                    true,
                )
            } else {
                &&& after.system == history.system
                &&& after.messages == history.messages.push(told)
                &&& as_text(get(Some(told), "role"@)) is Some
                &&& kind == "message"@ ==> {
                    &&& role == Some("user"@) || role == Some("assistant"@)
                    &&& given is Some
                    &&& message_parts(told).len() == part_count(given->0)
                    &&& spoken_by(message_parts(told), role->0, given->0)
                }
                &&& kind == "function_call"@ ==> message_parts(told).len() == 1 && uses_tool(
                    item,
                    message_parts(told)[0],
                )
                &&& kind == "function_call_output"@ ==> message_parts(told).len() == 1
                    && gives_result(item, message_parts(told)[0])
                &&& kind == "message"@ || kind == "function_call"@ || kind
                    == "function_call_output"@
            }
        }),
{
    lemma_message_keys();
    lemma_item_kinds();
    let after = item_added(history, item, true)->Ok_0;
    let kind = item_kind(item);
    let role = as_text(get(Some(item), "role"@));
    if let Some(given) = get(Some(item), "content"@) {
        lemma_content_retold(given, true);
        if let Ok(parts) = content_encoded(given, true) {
            assert((history.system + parts).take(history.system.len() as int) =~= history.system);
            assert((history.system + parts).skip(history.system.len() as int) =~= parts);
            if kind == "message"@ && role != Some("system"@) && role != Some("developer"@) {
                let told = after.messages.last();
                assert(get(Some(told), "content"@) == Some(JsonView::Array(parts)));
                assert(message_parts(told).map_values(
                    |one: (Option<JsonView>, JsonView)| one.1,
                ) =~= parts);
            }
        }
    }
    if let Some(given) = get(Some(item), "output"@) {
        lemma_content_retold(given, true);
    }
    if kind != "reasoning"@ {
        let told = after.messages.last();
        if after.messages.len() > history.messages.len() {
            assert(after.messages =~= history.messages.push(told));
        }
    }
}

proof fn lemma_messages_items(start: HistoryView, items: Seq<JsonView>)
    requires
        items_added(start, items, true) is Ok,
        start.messages.len() == 0,
    ensures
        ({
            let after = items_added(start, items, true)->Ok_0;
            let said = said_in(after.messages);
            let apart = after.system.skip(start.system.len() as int);
            &&& after.system.len() >= start.system.len()
            &&& after.system.take(start.system.len() as int) == start.system
            &&& retold_in_messages(items, said, apart)
            &&& forall|i: int|
                0 <= i < after.messages.len() ==> as_text(
                    get(Some(#[trigger] after.messages[i]), "role"@),
                ) is Some
        }),
    decreases items.len(),
{
    let count = start.system.len() as int;
    if items.len() == 0 {
        assert(start.system.take(count) =~= start.system);
    } else {
        let item = items.last();
        lemma_item_kinds();
        lemma_messages_items(start, items.drop_last());
        let before = items_added(start, items.drop_last(), true)->Ok_0;
        lemma_messages_item(before, item);
        let after = items_added(start, items, true)->Ok_0;
        let kind = item_kind(item);
        let role = as_text(get(Some(item), "role"@));
        let earlier = said_in(before.messages);
        let aside = before.system.skip(count);
        if kind == "reasoning"@ {
        } else if kind == "message"@ && (role == Some("system"@) || role == Some("developer"@)) {
            let given = get(Some(item), "content"@)->0;
            let apart = after.system.skip(count);
            let from = before.system.len() - count;
            assert(apart.len() - part_count(given) == from);
            assert(apart.skip(from) =~= after.system.skip(before.system.len() as int));
            assert(apart.take(from) =~= aside) by {
                assert forall|i: int| 0 <= i < from implies #[trigger] apart[i] == aside[i] by {
                    assert(after.system.take(before.system.len() as int)[count + i]
                        == before.system[count + i]);
                }
            }
            assert(after.system.take(count) =~= start.system) by {
                assert forall|i: int| 0 <= i < count implies #[trigger] after.system[i]
                    == start.system[i] by {
                    assert(after.system.take(before.system.len() as int)[i] == before.system[i]);
                    assert(before.system.take(count)[i] == start.system[i]);
                }
            }
        } else {
            let told = after.messages.last();
            let parts = message_parts(told);
            lemma_said_push(before.messages, told);
            let said = said_in(after.messages);
            assert(said =~= earlier + parts);
            let from = said.len() - parts.len();
            assert(said.skip(from) =~= parts);
            assert(said.take(from) =~= earlier);
            if kind != "message"@ {
                assert(said.last() == parts[0]);
                assert(said.drop_last() =~= earlier);
            }
            assert forall|i: int| 0 <= i < after.messages.len() implies as_text(
                get(Some(#[trigger] after.messages[i]), "role"@),
            ) is Some by {
                if i < before.messages.len() {
                    assert(after.messages[i] == before.messages[i]);
                }
            }
        }
    }
}

/// The names of settings differ.
pub proof fn lemma_body_keys()
    ensures
        "model"@.len() == 5,
        "top_p"@.len() == 5,
        "tools"@.len() == 5,
        "model"@ != "top_p"@,
        "model"@ != "tools"@,
        "top_p"@ != "tools"@,
        "stream"@.len() == 6,
        "system"@.len() == 6,
        "stream"@ != "system"@,
        "max_tokens"@.len() == 10,
        "messages"@.len() == 8,
        "stream_options"@.len() == 14,
        "reasoning_effort"@.len() == 16,
        "response_format"@.len() == 15,
        "parallel_tool_calls"@.len() == 19,
        "temperature"@.len() == 11,
        "tool_choice"@.len() == 11,
        "temperature"@ != "tool_choice"@,
{
    reveal_strlit("model");
    reveal_strlit("top_p");
    reveal_strlit("tools");
    reveal_strlit("stream");
    reveal_strlit("system");
    reveal_strlit("max_tokens");
    reveal_strlit("messages");
    reveal_strlit("stream_options");
    reveal_strlit("reasoning_effort");
    reveal_strlit("response_format");
    reveal_strlit("parallel_tool_calls");
    reveal_strlit("temperature");
    reveal_strlit("tool_choice");
    assert("model"@[0] == 'm' && "top_p"@[0] == 't' && "tools"@[0] == 't');
    assert("top_p"@[2] == 'p' && "tools"@[2] == 'o');
    assert("stream"@[1] == 't' && "system"@[1] == 'y');
    assert("temperature"@[1] == 'e' && "tool_choice"@[1] == 'o');
}

/// The system parts of a body.
pub open spec fn system_of(body: Fields) -> Seq<JsonView> {
    match field(body, "system"@) {
        Some(JsonView::Array(parts)) => parts,
        _ => seq![],
    }
}

/// A request in the Messages protocol tells the whole conversation as it was given. Instructions,
/// and what the system or a developer says, stand apart, the instructions first. The rest is told
/// part by part, each said by the role that it came from: messages with their content, calls with
/// their identifier, name and the object that their arguments stand for, and outputs for the calls
/// that they answer. Only reasoning is left out. A plain text is a message of the user.
pub proof fn lemma_messages_retell_the_conversation(
    protocol: Seq<char>,
    source: Fields,
    model: Model,
)
    requires
        model.protocol == Protocol::Messages,
        request_encoded(protocol, source, model) is Ok,
    ensures
        ({
            let start = instructed(source);
            &&& request_encoded(protocol, source, model) matches Ok(JsonView::Object(body))
            &&& field(body, "messages"@) matches Some(JsonView::Array(messages))
            &&& field(body, "system"@) is None || system_of(body).len() > 0
            &&& start <= system_of(body).len()
            &&& start == 1 ==> {
                &&& field(source, "instructions"@) matches Some(JsonView::Text(text))
                &&& content_retold(JsonView::Text(text), system_of(body).take(1), true)
            }
            &&& match field(source, "input"@) {
                Some(JsonView::Text(text)) => {
                    &&& system_of(body).len() == start
                    &&& spoken_by(said_in(messages), "user"@, JsonView::Text(text))
                },
                Some(JsonView::Array(items)) => retold_in_messages(
                    items,
                    said_in(messages),
                    system_of(body).skip(start),
                ),
                _ => false,
            }
        }),
{
    lemma_message_keys();
    lemma_item_kinds();
    lemma_body_keys();
    let history = conversation(source, true)->Ok_0;
    let begun = opening(source, true)->Ok_0;
    let items = input_items(source)->Ok_0;
    let own = messages_fields(source, model, history);
    let body = shared_fields(own, source, true)->Ok_0;
    crate::request::lemma_shared_keeps_messages(own, source, true);
    assert(field(body, "system"@) == field(own, "system"@));
    assert(system_of(body) =~= history.system);
    lemma_messages_items(begun, items);
    lemma_said_in_turns(history.messages);
    let start = instructed(source);
    assert(begun.system.len() == start);
    if start == 1 {
        lemma_text_part(field(source, "instructions"@)->0->Text_0);
        assert(history.system.take(1)[0] == begun.system[0]);
    }
    if let Some(JsonView::Text(text)) = field(source, "input"@) {
        let item = items[0];
        let said = said_in(history.messages);
        assert(items.drop_last() =~= Seq::<JsonView>::empty());
        assert(items.last() == item);
        assert(get(Some(item), "type"@) is None);
        assert(get(Some(item), "role"@) == Some(JsonView::Text("user"@)));
        assert(get(Some(item), "content"@) == Some(JsonView::Text(text)));
        let from = said.len() - 1;
        assert(retold_in_messages(
            items.drop_last(),
            said.take(from),
            history.system.skip(start),
        ));
        assert(said.skip(0) =~= said);
    }
}

/// Whether a message says nothing only where it brings calls of the assistant.
pub open spec fn silent_only_to_call(message: JsonView) -> bool {
    get(Some(message), "content"@) == Some(JsonView::Null) ==> list(
        message,
        "tool_calls"@,
    ) is Some && as_text(get(Some(message), "role"@)) == Some("assistant"@)
}

proof fn lemma_chat_silence(start: HistoryView, items: Seq<JsonView>)
    requires
        items_added(start, items, false) is Ok,
        forall|i: int|
            0 <= i < start.messages.len() ==> silent_only_to_call(#[trigger] start.messages[i]),
    ensures
        ({
            let after = items_added(start, items, false)->Ok_0.messages;
            forall|i: int| 0 <= i < after.len() ==> silent_only_to_call(#[trigger] after[i])
        }),
    decreases items.len(),
{
    if items.len() > 0 {
        lemma_message_keys();
        lemma_item_kinds();
        lemma_chat_silence(start, items.drop_last());
        let before = items_added(start, items.drop_last(), false)->Ok_0;
        let after = items_added(start, items, false)->Ok_0;
        assert forall|i: int| 0 <= i < after.messages.len() implies silent_only_to_call(
            #[trigger] after.messages[i],
        ) by {
            if i < before.messages.len() {
                assert(after.messages[i] == before.messages[i]);
            }
        }
    }
}

/// Whether a message only brings calls.
pub open spec fn only_calls(message: JsonView) -> bool {
    get(Some(message), "content"@) == Some(JsonView::Null)
}

proof fn lemma_joined_stand_together(messages: Seq<JsonView>)
    requires
        forall|i: int| 0 <= i < messages.len() ==> silent_only_to_call(#[trigger] messages[i]),
    ensures
        forall|i: int|
            0 < i < joined_calls(messages).len() && only_calls(#[trigger] joined_calls(messages)[i])
                ==> as_text(get(Some(joined_calls(messages)[i - 1]), "role"@)) != Some(
                "assistant"@,
            ),
    decreases messages.len(),
{
    if messages.len() > 0 {
        lemma_message_keys();
        let front = messages.drop_last();
        let next = messages.last();
        assert(silent_only_to_call(messages[messages.len() - 1]));
        assert forall|i: int| 0 <= i < front.len() implies silent_only_to_call(
            #[trigger] front[i],
        ) by {
            assert(front[i] == messages[i]);
        }
        lemma_joined_stand_together(front);
        let before = joined_calls(front);
        let after = joined_calls(messages);
        assert forall|i: int| 0 < i < after.len() && only_calls(#[trigger] after[i]) implies as_text(
            get(Some(after[i - 1]), "role"@),
        ) != Some("assistant"@) by {
            if i < before.len() {
                assert(get(Some(after[i]), "content"@) == get(Some(before[i]), "content"@));
                assert(only_calls(before[i]));
                assert(after[i - 1] == before[i - 1]);
            }
        }
    }
}

/// Calls that follow the assistant's words, or other calls, stand in one message with them: in a
/// Chat request no message that only brings calls follows a message of the assistant.
pub proof fn lemma_chat_calls_stand_with_their_turn(
    protocol: Seq<char>,
    source: Fields,
    model: Model,
)
    requires
        model.protocol == Protocol::Chat,
        request_encoded(protocol, source, model) is Ok,
    ensures
        request_encoded(protocol, source, model) matches Ok(JsonView::Object(body)) && field(
            body,
            "messages"@,
        ) matches Some(JsonView::Array(messages)) && forall|i: int|
            0 < i < messages.len() && only_calls(#[trigger] messages[i]) ==> as_text(
                get(Some(messages[i - 1]), "role"@),
            ) != Some("assistant"@),
{
    lemma_message_keys();
    let history = conversation(source, false)->Ok_0;
    let begun = opening(source, false)->Ok_0;
    lemma_chat_body_messages(source, model, history);
    lemma_chat_silence(begun, input_items(source)->Ok_0);
    lemma_joined_stand_together(history.messages);
}

} // verus!
