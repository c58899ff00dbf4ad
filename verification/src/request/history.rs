//! The conversation: from the items of a Responses request to the messages of another protocol.

use crate::error::ProviderErrorKind;
use crate::json::{
    as_text, get, items_view, lemma_items_view, lemma_items_view_append, lemma_items_view_push,
    lone, parsed_json, single, Json, JsonObject, JsonView,
};
use crate::request::content::{content, content_encoded, required, required_text, yields};
use crate::text::same_text;
use vstd::prelude::*;

verus! {

/// The messages so far, and the system parts that stand apart from them.
#[verifier::ext_equal]
pub struct HistoryView {
    pub messages: Seq<JsonView>,
    pub system: Seq<JsonView>,
}

pub struct History {
    pub messages: Vec<Json>,
    pub system: Vec<Json>,
}

impl History {
    pub open spec fn view(&self) -> HistoryView {
        HistoryView {
            messages: items_view(self.messages@),
            system: items_view(self.system@),
        }
    }
}

pub open spec fn message(role: Seq<char>, content: JsonView) -> JsonView {
    JsonView::Object(single("role"@, JsonView::Text(role)).insert("content"@, content))
}

/// The history with one more message.
pub open spec fn with_message(history: HistoryView, message: JsonView) -> HistoryView {
    HistoryView { messages: history.messages.push(message), ..history }
}

/// A message item. In the Messages protocol the parts of a system or developer message stand
/// apart from the conversation; in Chat a developer message is a system message.
pub open spec fn message_added(history: HistoryView, item: JsonView, anthropic: bool) -> Result<
    HistoryView,
    ProviderErrorKind,
> {
    match (required_text(item, "role"@), get(Some(item), "content"@)) {
        (Ok(role), Some(value)) => match content_encoded(value, anthropic) {
            Err(kind) => Err(kind),
            Ok(parts) => if anthropic && (role == "system"@ || role == "developer"@) {
                Ok(HistoryView { system: history.system + parts, ..history })
            } else if role == "developer"@ {
                Ok(with_message(history, message("system"@, JsonView::Array(parts))))
            } else if role == "user"@ || role == "assistant"@ || role == "system"@ {
                Ok(with_message(history, message(role, JsonView::Array(parts))))
            } else {
                Err(ProviderErrorKind::InvalidRequest)
            },
        },
        _ => Err(ProviderErrorKind::InvalidRequest),
    }
}

/// A function call as the Messages protocol writes it; its arguments have to be an object.
pub open spec fn tool_use(id: Seq<char>, name: Seq<char>, arguments: Option<JsonView>) -> Result<
    JsonView,
    ProviderErrorKind,
> {
    match arguments {
        Some(JsonView::Object(fields)) => Ok(
            message(
                "assistant"@,
                JsonView::Array(
                    seq![
                        JsonView::Object(
                            single("type"@, JsonView::Text("tool_use"@)).insert(
                                "id"@,
                                JsonView::Text(id),
                            ).insert("name"@, JsonView::Text(name)).insert(
                                "input"@,
                                JsonView::Object(fields),
                            ),
                        ),
                    ],
                ),
            ),
        ),
        _ => Err(ProviderErrorKind::InvalidRequest),
    }
}

/// A function call as Chat writes it; its arguments stay text.
pub open spec fn chat_call(id: Seq<char>, name: Seq<char>, arguments: Seq<char>) -> JsonView {
    let function = JsonView::Object(
        single("name"@, JsonView::Text(name)).insert("arguments"@, JsonView::Text(arguments)),
    );
    let call = JsonView::Object(
        single("id"@, JsonView::Text(id)).insert("type"@, JsonView::Text("function"@)).insert(
            "function"@,
            function,
        ),
    );
    JsonView::Object(
        single("role"@, JsonView::Text("assistant"@)).insert("content"@, JsonView::Null).insert(
            "tool_calls"@,
            JsonView::Array(seq![call]),
        ),
    )
}

pub open spec fn call_added(history: HistoryView, item: JsonView, anthropic: bool) -> Result<
    HistoryView,
    ProviderErrorKind,
> {
    match (
        required_text(item, "call_id"@),
        required_text(item, "name"@),
        required_text(item, "arguments"@),
    ) {
        (Ok(id), Ok(name), Ok(arguments)) => if anthropic {
            match tool_use(id, name, parsed_json(arguments)) {
                Ok(message) => Ok(with_message(history, message)),
                Err(kind) => Err(kind),
            }
        } else {
            Ok(with_message(history, chat_call(id, name, arguments)))
        },
        _ => Err(ProviderErrorKind::InvalidRequest),
    }
}

/// The output of a function call. Chat takes a plain text as it stands.
pub open spec fn output_added(history: HistoryView, item: JsonView, anthropic: bool) -> Result<
    HistoryView,
    ProviderErrorKind,
> {
    match (required_text(item, "call_id"@), get(Some(item), "output"@)) {
        (Ok(id), Some(output)) => if anthropic {
            match content_encoded(output, true) {
                Err(kind) => Err(kind),
                Ok(parts) => Ok(
                    with_message(
                        history,
                        message(
                            "user"@,
                            JsonView::Array(
                                seq![
                                    JsonView::Object(
                                        single("type"@, JsonView::Text("tool_result"@)).insert(
                                            "tool_use_id"@,
                                            JsonView::Text(id),
                                        ).insert("content"@, JsonView::Array(parts)),
                                    ),
                                ],
                            ),
                        ),
                    ),
                ),
            }
        } else {
            let content = match output {
                JsonView::Text(_) => Ok(output),
                _ => match content_encoded(output, false) {
                    Err(kind) => Err(kind),
                    Ok(parts) => Ok(JsonView::Array(parts)),
                },
            };
            match content {
                Err(kind) => Err(kind),
                Ok(content) => Ok(
                    with_message(
                        history,
                        JsonView::Object(
                            single("role"@, JsonView::Text("tool"@)).insert(
                                "tool_call_id"@,
                                JsonView::Text(id),
                            ).insert("content"@, content),
                        ),
                    ),
                ),
            }
        },
        _ => Err(ProviderErrorKind::InvalidRequest),
    }
}

/// One more item of the request. An item without a type is a message. A reasoning item is left
/// out: it cannot be replayed as another protocol's signed block.
pub open spec fn item_added(history: HistoryView, item: JsonView, anthropic: bool) -> Result<
    HistoryView,
    ProviderErrorKind,
> {
    let kind = match as_text(get(Some(item), "type"@)) {
        Some(kind) => kind,
        None => "message"@,
    };
    if kind == "message"@ {
        message_added(history, item, anthropic)
    } else if kind == "function_call"@ {
        call_added(history, item, anthropic)
    } else if kind == "function_call_output"@ {
        output_added(history, item, anthropic)
    } else if kind == "reasoning"@ {
        Ok(history)
    } else {
        Err(ProviderErrorKind::Unsupported)
    }
}

/// The history after all items, in their order; the first item that is refused decides the
/// error.
pub open spec fn items_added(history: HistoryView, items: Seq<JsonView>, anthropic: bool) -> Result<
    HistoryView,
    ProviderErrorKind,
>
    decreases items.len(),
{
    if items.len() == 0 {
        Ok(history)
    } else {
        match items_added(history, items.drop_last(), anthropic) {
            Err(kind) => Err(kind),
            Ok(before) => item_added(before, items.last(), anthropic),
        }
    }
}

/// An error among the first items is the error of all of them.
proof fn lemma_items_prefix(
    history: HistoryView,
    items: Seq<JsonView>,
    anthropic: bool,
    count: int,
)
    requires
        0 <= count <= items.len(),
        items_added(history, items.take(count), anthropic) is Err,
    ensures
        items_added(history, items, anthropic) == items_added(
            history,
            items.take(count),
            anthropic,
        ),
    decreases items.len(),
{
    if count < items.len() {
        assert(items.drop_last().take(count) == items.take(count));
        lemma_items_prefix(history, items.drop_last(), anthropic, count);
    } else {
        assert(items.take(count) == items);
    }
}

pub fn encode_message(role: &str, content: Json) -> (encoded: Json)
    ensures
        encoded@ == message(role@, content@),
{
    Json::object(JsonObject::new().with("role", Json::text(role)).with("content", content))
}

/// A function call for the Messages protocol, from what its arguments were read as.
pub fn encode_tool_use(id: &str, name: &str, arguments: Option<Json>) -> (encoded: Result<
    Json,
    ProviderErrorKind,
>)
    ensures
        yields(
            encoded,
            tool_use(
                id@,
                name@,
                match arguments {
                    Some(json) => Some(json@),
                    None => None,
                },
            ),
        ),
{
    match arguments {
        Some(Json::Object(input)) => {
            let call = JsonObject::new().with("type", Json::text("tool_use")).with(
                "id",
                Json::text(id),
            ).with("name", Json::text(name)).with("input", Json::object(input));
            Ok(encode_message("assistant", lone(Json::object(call))))
        },
        _ => Err(ProviderErrorKind::InvalidRequest),
    }
}

fn encode_chat_call(id: &str, name: &str, arguments: &str) -> (encoded: Json)
    ensures
        encoded@ == chat_call(id@, name@, arguments@),
{
    let function = JsonObject::new().with("name", Json::text(name)).with(
        "arguments",
        Json::text(arguments),
    );
    let call = JsonObject::new().with("id", Json::text(id)).with(
        "type",
        Json::text("function"),
    ).with("function", Json::object(function));
    Json::object(
        JsonObject::new().with("role", Json::text("assistant")).with("content", Json::Null).with(
            "tool_calls",
            lone(Json::object(call)),
        ),
    )
}

impl History {
    pub fn new() -> (history: History)
        ensures
            history@ == (HistoryView { messages: seq![], system: seq![] }),
    {
        History { messages: Vec::new(), system: Vec::new() }
    }

    pub fn push(&mut self, message: Json)
        ensures
            final(self)@ == with_message(old(self)@, message@),
    {
        proof {
            lemma_items_view_push(self.messages@, message);
        }
        self.messages.push(message);
    }

    fn add_message(&mut self, item: &Json, anthropic: bool) -> (added: Result<
        (),
        ProviderErrorKind,
    >)
        ensures
            match message_added(old(self)@, item@, anthropic) {
                Ok(next) => added is Ok && final(self)@ == next,
                Err(kind) => added == Err::<(), ProviderErrorKind>(kind),
            },
    {
        let role = required(item, "role")?;
        let value = match item.get("content") {
            Some(value) => value,
            None => return Err(ProviderErrorKind::InvalidRequest),
        };
        let mut parts = content(value, anthropic)?;
        if anthropic && (same_text(role, "system") || same_text(role, "developer")) {
            proof {
                lemma_items_view_append(self.system@, parts@);
            }
            self.system.append(&mut parts);
            return Ok(());
        }
        if same_text(role, "developer") {
            self.push(encode_message("system", Json::array(parts)));
            return Ok(());
        }
        if !same_text(role, "user") && !same_text(role, "assistant") && !same_text(role, "system") {
            return Err(ProviderErrorKind::InvalidRequest);
        }
        self.push(encode_message(role, Json::array(parts)));
        Ok(())
    }

    fn add_call(&mut self, item: &Json, anthropic: bool) -> (added: Result<(), ProviderErrorKind>)
        ensures
            match call_added(old(self)@, item@, anthropic) {
                Ok(next) => added is Ok && final(self)@ == next,
                Err(kind) => added == Err::<(), ProviderErrorKind>(kind),
            },
    {
        let id = required(item, "call_id")?;
        let name = required(item, "name")?;
        let arguments = required(item, "arguments")?;
        if anthropic {
            let message = encode_tool_use(id, name, Json::parse(arguments))?;
            self.push(message);
        } else {
            self.push(encode_chat_call(id, name, arguments));
        }
        Ok(())
    }

    fn add_output(&mut self, item: &Json, anthropic: bool) -> (added: Result<
        (),
        ProviderErrorKind,
    >)
        ensures
            match output_added(old(self)@, item@, anthropic) {
                Ok(next) => added is Ok && final(self)@ == next,
                Err(kind) => added == Err::<(), ProviderErrorKind>(kind),
            },
    {
        let id = required(item, "call_id")?;
        let output = match item.get("output") {
            Some(output) => output,
            None => return Err(ProviderErrorKind::InvalidRequest),
        };
        if anthropic {
            let parts = content(output, true)?;
            let result = JsonObject::new().with("type", Json::text("tool_result")).with(
                "tool_use_id",
                Json::text(id),
            ).with("content", Json::array(parts));
            self.push(encode_message("user", lone(Json::object(result))));
            return Ok(());
        }
        let content = match output {
            Json::Text(text) => Json::text(text.as_str()),
            _ => Json::array(content(output, false)?),
        };
        self.push(
            Json::object(
                JsonObject::new().with("role", Json::text("tool")).with(
                    "tool_call_id",
                    Json::text(id),
                ).with("content", content),
            ),
        );
        Ok(())
    }

    /// Adds one item of the request.
    pub fn add_item(&mut self, item: &Json, anthropic: bool) -> (added: Result<
        (),
        ProviderErrorKind,
    >)
        ensures
            match item_added(old(self)@, item@, anthropic) {
                Ok(next) => added is Ok && final(self)@ == next,
                Err(kind) => added == Err::<(), ProviderErrorKind>(kind),
            },
    {
        let kind = match item.text_at("type") {
            Some(kind) => kind,
            None => "message",
        };
        if same_text(kind, "message") {
            self.add_message(item, anthropic)
        } else if same_text(kind, "function_call") {
            self.add_call(item, anthropic)
        } else if same_text(kind, "function_call_output") {
            self.add_output(item, anthropic)
        } else if same_text(kind, "reasoning") {
            Ok(())
        } else {
            Err(ProviderErrorKind::Unsupported)
        }
    }

    /// Adds all items of the request in their order.
    pub fn add_items(&mut self, items: &Vec<Json>, anthropic: bool) -> (added: Result<
        (),
        ProviderErrorKind,
    >)
        ensures
            match items_added(old(self)@, items_view(items@), anthropic) {
                Ok(next) => added is Ok && final(self)@ == next,
                Err(kind) => added == Err::<(), ProviderErrorKind>(kind),
            },
    {
        let ghost values = items_view(items@);
        let ghost start = self@;
        proof {
            lemma_items_view(items@);
            assert(values.take(0) == Seq::<JsonView>::empty());
        }
        let mut i: usize = 0;
        while i < items.len()
            invariant
                i <= items.len(),
                start == old(self)@,
                values == items_view(items@),
                values.len() == items.len(),
                forall|j: int| 0 <= j < items.len() ==> #[trigger] values[j] == items@[j]@,
                items_added(start, values.take(i as int), anthropic) == Ok::<_, ProviderErrorKind>(
                    self@,
                ),
            decreases items.len() - i,
        {
            proof {
                assert(values.take(i + 1).drop_last() == values.take(i as int));
                assert(values[i as int] == items@[i as int]@);
            }
            match self.add_item(&items[i], anthropic) {
                Ok(()) => {},
                Err(kind) => {
                    proof {
                        lemma_items_prefix(start, values, anthropic, i + 1);
                    }
                    return Err(kind);
                },
            }
            i += 1;
        }
        assert(values.take(i as int) == values);
        Ok(())
    }
}

} // verus!
