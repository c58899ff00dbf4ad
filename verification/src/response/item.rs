//! The output items of an answer and the events that report them.

use crate::event::ContentKind;
use crate::json::{lone, single, Fields, Json, JsonObject, JsonView, NumberView};
use vstd::prelude::*;

verus! {

/// An output item as far as it is known.
#[derive(Debug, PartialEq)]
pub struct Item {
    pub kind: ContentKind,
    pub id: String,
    pub call_id: String,
    pub name: String,
    pub text: String,
    pub added: bool,
}

#[verifier::ext_equal]
pub struct ItemView {
    pub kind: ContentKind,
    pub id: Seq<char>,
    pub call_id: Seq<char>,
    pub name: Seq<char>,
    pub text: Seq<char>,
    pub added: bool,
}

impl Item {
    pub open spec fn view(&self) -> ItemView {
        ItemView {
            kind: self.kind,
            id: self.id@,
            call_id: self.call_id@,
            name: self.name@,
            text: self.text@,
            added: self.added,
        }
    }
}

/// An event to send: its name, and its fields, which repeat the name as the type.
pub struct Wire {
    pub event: String,
    pub data: JsonObject,
}

#[verifier::ext_equal]
pub struct WireView {
    pub event: Seq<char>,
    pub data: Fields,
}

impl Wire {
    pub open spec fn view(&self) -> WireView {
        WireView { event: self.event@, data: self.data@ }
    }
}

pub open spec fn wires_view(wires: Seq<Wire>) -> Seq<WireView> {
    wires.map_values(|wire: Wire| wire.view())
}

pub fn push_wire(wires: &mut Vec<Wire>, wire: Wire)
    ensures
        wires_view(final(wires)@) == wires_view(old(wires)@).push(wire@),
{
    wires.push(wire);
    assert(wires_view(wires@) =~= wires_view(old(wires)@).push(wire@));
}

pub open spec fn wire(event: Seq<char>, fields: Fields) -> WireView {
    WireView { event, data: fields.insert("type"@, JsonView::Text(event)) }
}

pub fn make_wire(event: &str, fields: JsonObject) -> (made: Wire)
    ensures
        made@ == wire(event@, fields@),
{
    Wire { event: event.to_owned(), data: fields.with("type", Json::text(event)) }
}

pub open spec fn number(value: u64) -> JsonView {
    JsonView::Number(NumberView::Unsigned(value))
}

/// A part of a reasoning summary.
pub open spec fn summary_part(text: Seq<char>) -> JsonView {
    JsonView::Object(
        single("type"@, JsonView::Text("summary_text"@)).insert("text"@, JsonView::Text(text)),
    )
}

/// A part of a message.
pub open spec fn output_part(text: Seq<char>) -> JsonView {
    JsonView::Object(
        single("type"@, JsonView::Text("output_text"@)).insert(
            "text"@,
            JsonView::Text(text),
        ).insert("annotations"@, JsonView::Array(seq![])),
    )
}

/// The item as an output item of the Responses protocol.
pub open spec fn item_value(item: ItemView, completed: bool) -> JsonView {
    let status = JsonView::Text(
        if completed {
            "completed"@
        } else {
            "in_progress"@
        },
    );
    let named = single("id"@, JsonView::Text(item.id));
    match item.kind {
        ContentKind::ToolCall => JsonView::Object(
            named.insert("type"@, JsonView::Text("function_call"@)).insert(
                "status"@,
                status,
            ).insert("call_id"@, JsonView::Text(item.call_id)).insert(
                "name"@,
                JsonView::Text(item.name),
            ).insert("arguments"@, JsonView::Text(item.text)),
        ),
        ContentKind::Reasoning => JsonView::Object(
            named.insert("type"@, JsonView::Text("reasoning"@)).insert(
                "summary"@,
                JsonView::Array(seq![summary_part(item.text)]),
            ),
        ),
        ContentKind::Text => JsonView::Object(
            named.insert("type"@, JsonView::Text("message"@)).insert(
                "role"@,
                JsonView::Text("assistant"@),
            ).insert("status"@, status).insert(
                "content"@,
                JsonView::Array(seq![output_part(item.text)]),
            ),
        ),
    }
}

/// Which item an event is about.
pub open spec fn about(index: u32, item: ItemView) -> Fields {
    single("item_id"@, JsonView::Text(item.id)).insert("output_index"@, number(index as u64))
}

/// The item appears.
pub open spec fn item_added_wire(index: u32, item: ItemView) -> WireView {
    wire(
        "response.output_item.added"@,
        single("output_index"@, number(index as u64)).insert("item"@, item_value(item, false)),
    )
}

/// The item's only part appears, still empty.
pub open spec fn part_added_wire(index: u32, item: ItemView) -> WireView {
    if item.kind == ContentKind::Reasoning {
        wire(
            "response.reasoning_summary_part.added"@,
            about(index, item).insert("part"@, summary_part(""@)).insert("summary_index"@, number(0)),
        )
    } else {
        wire(
            "response.content_part.added"@,
            about(index, item).insert("part"@, output_part(""@)).insert("content_index"@, number(0)),
        )
    }
}

/// The item's text grows.
pub open spec fn text_delta_wire(
    index: u32,
    item: ItemView,
    text: Seq<char>,
    reasoning: bool,
) -> WireView {
    let grown = about(index, item).insert("delta"@, JsonView::Text(text));
    if reasoning {
        wire("response.reasoning_summary_text.delta"@, grown.insert("summary_index"@, number(0)))
    } else {
        wire("response.output_text.delta"@, grown.insert("content_index"@, number(0)))
    }
}

/// The arguments of a call grow.
pub open spec fn arguments_delta_wire(index: u32, item: ItemView, text: Seq<char>) -> WireView {
    wire(
        "response.function_call_arguments.delta"@,
        about(index, item).insert("delta"@, JsonView::Text(text)),
    )
}

/// The item's text is complete.
pub open spec fn text_done_wire(index: u32, item: ItemView) -> WireView {
    let text = JsonView::Text(item.text);
    match item.kind {
        ContentKind::ToolCall => wire(
            "response.function_call_arguments.done"@,
            about(index, item).insert("arguments"@, text),
        ),
        ContentKind::Reasoning => wire(
            "response.reasoning_summary_text.done"@,
            about(index, item).insert("summary_index"@, number(0)).insert("text"@, text),
        ),
        ContentKind::Text => wire(
            "response.output_text.done"@,
            about(index, item).insert("content_index"@, number(0)).insert("text"@, text),
        ),
    }
}

/// The item's only part is complete.
pub open spec fn part_done_wire(index: u32, item: ItemView) -> WireView {
    if item.kind == ContentKind::Reasoning {
        wire(
            "response.reasoning_summary_part.done"@,
            about(index, item).insert("summary_index"@, number(0)).insert(
                "part"@,
                summary_part(item.text),
            ),
        )
    } else {
        wire(
            "response.content_part.done"@,
            about(index, item).insert("content_index"@, number(0)).insert(
                "part"@,
                output_part(item.text),
            ),
        )
    }
}

/// The item is complete.
pub open spec fn item_done_wire(index: u32, item: ItemView) -> WireView {
    wire(
        "response.output_item.done"@,
        single("output_index"@, number(index as u64)).insert("item"@, item_value(item, true)),
    )
}

/// All events that close an item. A call has no part of its own.
pub open spec fn item_closed(index: u32, item: ItemView) -> Seq<WireView> {
    if item.kind == ContentKind::ToolCall {
        seq![text_done_wire(index, item), item_done_wire(index, item)]
    } else {
        seq![text_done_wire(index, item), part_done_wire(index, item), item_done_wire(index, item)]
    }
}

fn make_summary_part(text: &str) -> (part: Json)
    ensures
        part@ == summary_part(text@),
{
    Json::object(
        JsonObject::new().with("type", Json::text("summary_text")).with("text", Json::text(text)),
    )
}

fn make_output_part(text: &str) -> (part: Json)
    ensures
        part@ == output_part(text@),
{
    Json::object(
        JsonObject::new().with("type", Json::text("output_text")).with(
            "text",
            Json::text(text),
        ).with("annotations", Json::array(Vec::new())),
    )
}

impl Item {
    /// The item as an output item of the Responses protocol.
    pub fn value(&self, completed: bool) -> (value: Json)
        ensures
            value@ == item_value(self@, completed),
    {
        let status = if completed {
            Json::text("completed")
        } else {
            Json::text("in_progress")
        };
        let named = JsonObject::new().with("id", Json::text(self.id.as_str()));
        let text = self.text.as_str();
        match self.kind {
            ContentKind::ToolCall => Json::object(
                named.with("type", Json::text("function_call")).with("status", status).with(
                    "call_id",
                    Json::text(self.call_id.as_str()),
                ).with("name", Json::text(self.name.as_str())).with("arguments", Json::text(text)),
            ),
            ContentKind::Reasoning => Json::object(
                named.with("type", Json::text("reasoning")).with(
                    "summary",
                    lone(make_summary_part(text)),
                ),
            ),
            ContentKind::Text => Json::object(
                named.with("type", Json::text("message")).with(
                    "role",
                    Json::text("assistant"),
                ).with("status", status).with("content", lone(make_output_part(text))),
            ),
        }
    }

    fn about(&self, index: u32) -> (fields: JsonObject)
        ensures
            fields@ == about(index, self@),
    {
        JsonObject::new().with("item_id", Json::text(self.id.as_str())).with(
            "output_index",
            Json::unsigned(index as u64),
        )
    }

    pub fn added_wire(&self, index: u32) -> (made: Wire)
        ensures
            made@ == item_added_wire(index, self@),
    {
        make_wire(
            "response.output_item.added",
            JsonObject::new().with("output_index", Json::unsigned(index as u64)).with(
                "item",
                self.value(false),
            ),
        )
    }

    pub fn part_added_wire(&self, index: u32) -> (made: Wire)
        ensures
            made@ == part_added_wire(index, self@),
    {
        if self.kind == ContentKind::Reasoning {
            make_wire(
                "response.reasoning_summary_part.added",
                self.about(index).with("part", make_summary_part("")).with(
                    "summary_index",
                    Json::unsigned(0),
                ),
            )
        } else {
            make_wire(
                "response.content_part.added",
                self.about(index).with("part", make_output_part("")).with(
                    "content_index",
                    Json::unsigned(0),
                ),
            )
        }
    }

    pub fn text_delta_wire(&self, index: u32, text: &str, reasoning: bool) -> (made: Wire)
        ensures
            made@ == text_delta_wire(index, self@, text@, reasoning),
    {
        let grown = self.about(index).with("delta", Json::text(text));
        if reasoning {
            make_wire(
                "response.reasoning_summary_text.delta",
                grown.with("summary_index", Json::unsigned(0)),
            )
        } else {
            make_wire(
                "response.output_text.delta",
                grown.with("content_index", Json::unsigned(0)),
            )
        }
    }

    pub fn arguments_delta_wire(&self, index: u32, text: &str) -> (made: Wire)
        ensures
            made@ == arguments_delta_wire(index, self@, text@),
    {
        make_wire(
            "response.function_call_arguments.delta",
            self.about(index).with("delta", Json::text(text)),
        )
    }

    fn text_done_wire(&self, index: u32) -> (made: Wire)
        ensures
            made@ == text_done_wire(index, self@),
    {
        let text = Json::text(self.text.as_str());
        match self.kind {
            ContentKind::ToolCall => make_wire(
                "response.function_call_arguments.done",
                self.about(index).with("arguments", text),
            ),
            ContentKind::Reasoning => make_wire(
                "response.reasoning_summary_text.done",
                self.about(index).with("summary_index", Json::unsigned(0)).with("text", text),
            ),
            ContentKind::Text => make_wire(
                "response.output_text.done",
                self.about(index).with("content_index", Json::unsigned(0)).with("text", text),
            ),
        }
    }

    fn part_done_wire(&self, index: u32) -> (made: Wire)
        ensures
            made@ == part_done_wire(index, self@),
    {
        if self.kind == ContentKind::Reasoning {
            make_wire(
                "response.reasoning_summary_part.done",
                self.about(index).with("summary_index", Json::unsigned(0)).with(
                    "part",
                    make_summary_part(self.text.as_str()),
                ),
            )
        } else {
            make_wire(
                "response.content_part.done",
                self.about(index).with("content_index", Json::unsigned(0)).with(
                    "part",
                    make_output_part(self.text.as_str()),
                ),
            )
        }
    }

    /// Adds the events that close the item.
    pub fn close(&self, index: u32, wires: &mut Vec<Wire>)
        ensures
            wires_view(final(wires)@) == wires_view(old(wires)@) + item_closed(index, self@),
    {
        push_wire(wires, self.text_done_wire(index));
        if self.kind != ContentKind::ToolCall {
            push_wire(wires, self.part_done_wire(index));
        }
        push_wire(
            wires,
            make_wire(
                "response.output_item.done",
                JsonObject::new().with("output_index", Json::unsigned(index as u64)).with(
                    "item",
                    self.value(true),
                ),
            ),
        );
        assert(wires_view(wires@) =~= wires_view(old(wires)@) + item_closed(index, self@));
    }
}

} // verus!
