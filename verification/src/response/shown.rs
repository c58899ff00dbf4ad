//! What the client is shown of an answer: which events report what, and what stands in them.

use crate::event::{
    ContentKind, FactView, FinishReason, MetaView, ProviderEventView, Usage,
};
use crate::json::{field, get, JsonView, NumberView};
use crate::response::item::{
    item_added_wire, item_closed, item_done_wire, item_value, output_part, part_added_wire,
    part_done_wire, summary_part, text_done_wire, ItemView, WireView,
};
use crate::response::laws::{
    announced_once, call_told, gathered_text, is_as_told, kind_told,
    lemma_completion_repeats_everything, ordered, sound,
};
use crate::response::{
    empty_writer, fact_encoded, facts_encoded, has_item, item_at, items_closed, numbered, observed,
    output_values, snapshot_value, usage_value, wires_sent, WriterView,
};
use crate::text::{byte_length, decimal_text};
use vstd::prelude::*;

verus! {

/// Whether a value holds this text under a key.
pub open spec fn says(value: JsonView, key: Seq<char>, text: Seq<char>) -> bool {
    get(Some(value), key) == Some(JsonView::Text(text))
}

/// Whether a value holds this number under a key.
pub open spec fn counts(value: JsonView, key: Seq<char>, number: u64) -> bool {
    get(Some(value), key) == Some(JsonView::Number(NumberView::Unsigned(number)))
}

/// Whether a value is a part of this type with this text.
pub open spec fn is_part(value: JsonView, kind: Seq<char>, text: Seq<char>) -> bool {
    says(value, "type"@, kind) && says(value, "text"@, text)
}

/// Whether a value is an output item as the client knows them: a call with its identifier, its
/// name and its arguments; a reasoning with its text as the only part of its summary; a message
/// of the assistant with its text as the only part of its content.
pub open spec fn shows(value: JsonView, item: ItemView, text: Seq<char>, status: Seq<char>) -> bool {
    &&& says(value, "id"@, item.id)
    &&& match item.kind {
        ContentKind::ToolCall => {
            &&& says(value, "type"@, "function_call"@)
            &&& says(value, "status"@, status)
            &&& says(value, "call_id"@, item.call_id)
            &&& says(value, "name"@, item.name)
            &&& says(value, "arguments"@, text)
        },
        ContentKind::Reasoning => {
            &&& says(value, "type"@, "reasoning"@)
            &&& get(Some(value), "summary"@) matches Some(JsonView::Array(parts))
            &&& parts.len() == 1
            &&& is_part(parts[0], "summary_text"@, text)
        },
        ContentKind::Text => {
            &&& says(value, "type"@, "message"@)
            &&& says(value, "role"@, "assistant"@)
            &&& says(value, "status"@, status)
            &&& get(Some(value), "content"@) matches Some(JsonView::Array(parts))
            &&& parts.len() == 1
            &&& is_part(parts[0], "output_text"@, text)
            &&& get(Some(parts[0]), "annotations"@) == Some(JsonView::Array(seq![]))
        },
    }
}

proof fn lemma_part(text: Seq<char>)
    ensures
        is_part(summary_part(text), "summary_text"@, text),
        is_part(output_part(text), "output_text"@, text),
        get(Some(output_part(text)), "annotations"@) == Some(JsonView::Array(seq![])),
{
    reveal_strlit("type");
    reveal_strlit("text");
    reveal_strlit("annotations");
    assert("type"@[1] != "text"@[1]);
    assert("type"@.len() == 4 && "text"@.len() == 4 && "annotations"@.len() == 11);
}

/// An item is shown as what it is, with all its text, whether it still grows or is complete.
pub proof fn lemma_item_is_shown(item: ItemView, completed: bool)
    ensures
        shows(
            item_value(item, completed),
            item,
            item.text,
            if completed {
                "completed"@
            } else {
                "in_progress"@
            },
        ),
{
    reveal_strlit("id");
    reveal_strlit("type");
    reveal_strlit("status");
    reveal_strlit("call_id");
    reveal_strlit("name");
    reveal_strlit("arguments");
    reveal_strlit("summary");
    reveal_strlit("role");
    reveal_strlit("content");
    assert("id"@.len() == 2 && "type"@.len() == 4 && "status"@.len() == 6 && "call_id"@.len() == 7);
    assert("name"@.len() == 4 && "arguments"@.len() == 9 && "summary"@.len() == 7);
    assert("role"@.len() == 4 && "content"@.len() == 7);
    assert("type"@[0] == 't' && "name"@[0] == 'n' && "role"@[0] == 'r');
    lemma_part(item.text);
}

/// Whether an event repeats its name as its type.
pub open spec fn is_event(wire: WireView, name: Seq<char>) -> bool {
    wire.event == name && field(wire.data, "type"@) == Some(JsonView::Text(name))
}

/// Whether an event is about the item at this index: by its place, and by the identifier that the
/// item is shown with.
pub open spec fn concerns(wire: WireView, index: u32, item: ItemView) -> bool {
    counts(JsonView::Object(wire.data), "output_index"@, index as u64) && says(
        JsonView::Object(wire.data),
        "item_id"@,
        item.id,
    )
}

/// Whether an event shows the item at this index.
pub open spec fn presents(
    wire: WireView,
    name: Seq<char>,
    index: u32,
    item: ItemView,
    text: Seq<char>,
    status: Seq<char>,
) -> bool {
    &&& is_event(wire, name)
    &&& counts(JsonView::Object(wire.data), "output_index"@, index as u64)
    &&& field(wire.data, "item"@) matches Some(value)
    &&& shows(value, item, text, status)
}

/// Whether an event brings a piece of an item's text.
pub open spec fn brings(
    wire: WireView,
    name: Seq<char>,
    index: u32,
    item: ItemView,
    text: Seq<char>,
) -> bool {
    is_event(wire, name) && concerns(wire, index, item) && says(
        JsonView::Object(wire.data),
        "delta"@,
        text,
    )
}

/// Whether an event is about the only part of an item.
pub open spec fn is_about_part(
    wire: WireView,
    name: Seq<char>,
    index: u32,
    item: ItemView,
    text: Seq<char>,
) -> bool {
    let data = JsonView::Object(wire.data);
    &&& is_event(wire, name)
    &&& concerns(wire, index, item)
    &&& field(wire.data, "part"@) matches Some(part)
    &&& if item.kind == ContentKind::Reasoning {
        counts(data, "summary_index"@, 0) && is_part(part, "summary_text"@, text)
    } else {
        counts(data, "content_index"@, 0) && is_part(part, "output_text"@, text)
    }
}

proof fn lemma_event_keys()
    ensures
        "type"@.len() == 4,
        "item"@.len() == 4,
        "part"@.len() == 4,
        "text"@.len() == 4,
        "type"@ != "item"@,
        "type"@ != "part"@,
        "type"@ != "text"@,
        "part"@ != "text"@,
        "item_id"@.len() == 7,
        "output_index"@.len() == 12,
        "delta"@.len() == 5,
        "arguments"@.len() == 9,
        "summary_index"@.len() == 13,
        "content_index"@.len() == 13,
        "summary_index"@ != "content_index"@,
        "response"@.len() == 8,
        "sequence_number"@.len() == 15,
{
    reveal_strlit("type");
    reveal_strlit("item");
    reveal_strlit("part");
    reveal_strlit("text");
    reveal_strlit("item_id");
    reveal_strlit("output_index");
    reveal_strlit("delta");
    reveal_strlit("arguments");
    reveal_strlit("summary_index");
    reveal_strlit("content_index");
    reveal_strlit("response");
    reveal_strlit("sequence_number");
    assert("type"@[0] == 't' && "item"@[0] == 'i' && "part"@[0] == 'p' && "text"@[0] == 't');
    assert("type"@[1] == 'y' && "text"@[1] == 'e');
    assert("summary_index"@[0] == 's' && "content_index"@[0] == 'c');
}

proof fn lemma_item_events(index: u32, item: ItemView)
    ensures
        presents(
            item_added_wire(index, item),
            "response.output_item.added"@,
            index,
            item,
            item.text,
            "in_progress"@,
        ),
        presents(
            item_done_wire(index, item),
            "response.output_item.done"@,
            index,
            item,
            item.text,
            "completed"@,
        ),
        is_about_part(
            part_added_wire(index, item),
            if item.kind == ContentKind::Reasoning {
                "response.reasoning_summary_part.added"@
            } else {
                "response.content_part.added"@
            },
            index,
            item,
            ""@,
        ),
        is_about_part(
            part_done_wire(index, item),
            if item.kind == ContentKind::Reasoning {
                "response.reasoning_summary_part.done"@
            } else {
                "response.content_part.done"@
            },
            index,
            item,
            item.text,
        ),
{
    lemma_event_keys();
    lemma_item_is_shown(item, false);
    lemma_item_is_shown(item, true);
    lemma_part(""@);
    lemma_part(item.text);
}

/// Whether a value is an answer as a whole, with this standing.
pub open spec fn is_answer(
    value: JsonView,
    meta: MetaView,
    status: Seq<char>,
    usage: Usage,
    reason: Option<Seq<char>>,
) -> bool {
    &&& says(value, "id"@, meta.response_id)
    &&& says(value, "object"@, "response"@)
    &&& says(value, "model"@, meta.model)
    &&& says(value, "status"@, status)
    &&& get(Some(value), "error"@) == Some(JsonView::Null)
    &&& match reason {
        Some(reason) => get(Some(value), "incomplete_details"@) matches Some(details) && says(
            details,
            "reason"@,
            reason,
        ),
        None => get(Some(value), "incomplete_details"@) == Some(JsonView::Null),
    }
    &&& get(Some(value), "usage"@) matches Some(told) && reports(told, usage)
}

/// Whether a counter is told: its number, or `null` where it is not known.
pub open spec fn tells_counter(value: JsonView, key: Seq<char>, counter: Option<u64>) -> bool {
    match counter {
        Some(counter) => counts(value, key, counter),
        None => get(Some(value), key) == Some(JsonView::Null),
    }
}

/// Whether a value reports the counters: none while neither input nor output is known, and then
/// both, their total as reported or else as their sum, and the cached and the reasoning part,
/// which are 0 where nothing is known of them.
pub open spec fn reports(value: JsonView, usage: Usage) -> bool {
    if usage.input_tokens is None && usage.output_tokens is None {
        value == JsonView::Null
    } else {
        &&& tells_counter(value, "input_tokens"@, usage.input_tokens)
        &&& tells_counter(value, "output_tokens"@, usage.output_tokens)
        &&& usage.total_tokens is Some ==> tells_counter(value, "total_tokens"@, usage.total_tokens)
        &&& usage.total_tokens is None ==> match (usage.input_tokens, usage.output_tokens) {
            (Some(input), Some(output)) => if input + output <= u64::MAX {
                counts(value, "total_tokens"@, (input + output) as u64)
            } else {
                get(Some(value), "total_tokens"@) == Some(JsonView::Null)
            },
            _ => get(Some(value), "total_tokens"@) == Some(JsonView::Null),
        }
        &&& get(Some(value), "input_tokens_details"@) matches Some(details) && counts(
            details,
            "cached_tokens"@,
            if usage.cached_tokens is Some {
                usage.cached_tokens->0
            } else {
                0
            },
        )
        &&& get(Some(value), "output_tokens_details"@) matches Some(details) && counts(
            details,
            "reasoning_tokens"@,
            if usage.reasoning_tokens is Some {
                usage.reasoning_tokens->0
            } else {
                0
            },
        )
    }
}

proof fn lemma_usage_is_reported(usage: Usage)
    ensures
        reports(usage_value(usage), usage),
{
    reveal_strlit("input_tokens");
    reveal_strlit("output_tokens");
    reveal_strlit("total_tokens");
    reveal_strlit("input_tokens_details");
    reveal_strlit("output_tokens_details");
    assert("input_tokens"@.len() == 12 && "output_tokens"@.len() == 13);
    assert("total_tokens"@.len() == 12 && "input_tokens"@[0] != "total_tokens"@[0]);
    assert("input_tokens_details"@.len() == 20 && "output_tokens_details"@.len() == 21);
}

/// What the client calls the reason why an answer is not whole.
pub open spec fn cut_off(reason: Option<FinishReason>) -> Option<Seq<char>> {
    match reason {
        Some(FinishReason::Length) => Some("max_output_tokens"@),
        Some(FinishReason::ContentFilter) => Some("content_filter"@),
        _ => None,
    }
}

proof fn lemma_answer_keys()
    ensures
        "id"@.len() == 2,
        "object"@.len() == 6,
        "model"@.len() == 5,
        "status"@.len() == 6,
        "output"@.len() == 6,
        "usage"@.len() == 5,
        "error"@.len() == 5,
        "incomplete_details"@.len() == 18,
        "object"@ != "status"@,
        "object"@ != "output"@,
        "status"@ != "output"@,
        "model"@ != "usage"@,
        "model"@ != "error"@,
        "usage"@ != "error"@,
{
    reveal_strlit("id");
    reveal_strlit("object");
    reveal_strlit("model");
    reveal_strlit("status");
    reveal_strlit("output");
    reveal_strlit("usage");
    reveal_strlit("error");
    reveal_strlit("incomplete_details");
    assert("object"@[0] == 'o' && "object"@[1] == 'b' && "status"@[0] == 's');
    assert("output"@[0] == 'o' && "output"@[1] == 'u');
    assert("model"@[0] == 'm' && "usage"@[0] == 'u' && "error"@[0] == 'e');
}

proof fn lemma_snapshot(
    meta: MetaView,
    items: Seq<(u32, ItemView)>,
    usage: Usage,
    completed: bool,
    reason: Option<FinishReason>,
)
    ensures
        is_answer(
            snapshot_value(meta, items, usage, completed, reason),
            meta,
            if !completed {
                "in_progress"@
            } else if cut_off(reason) is Some {
                "incomplete"@
            } else {
                "completed"@
            },
            usage,
            cut_off(reason),
        ),
        get(
            Some(snapshot_value(meta, items, usage, completed, reason)),
            "output"@,
        ) matches Some(JsonView::Array(output)) && output == output_values(items, completed),
{
    lemma_answer_keys();
    lemma_usage_is_reported(usage);
}

/// What the client is told of a fact, at once and in this order. The beginning shows the answer
/// as it will be named. A message or a reasoning appears with its still empty part; a call
/// appears with the first fact that names it, under the identifier and the name of that fact.
/// A text that is added is told by itself, under the event of its kind. Counters are told later.
pub proof fn lemma_fact_is_told(writer: WriterView, fact: FactView)
    requires
        sound(writer),
        observed(writer, fact).ok,
    ensures
        ({
            let seen = observed(writer, fact);
            let wires = seen.wires;
            match fact {
                FactView::Started(meta) => {
                    &&& wires.len() == 1
                    &&& is_event(wires[0], "response.created"@)
                    &&& field(wires[0].data, "response"@) matches Some(answer)
                    &&& is_answer(answer, meta, "in_progress"@, writer.usage, None)
                    &&& seen.writer == (WriterView { meta: Some(meta), ..writer })
                },
                FactView::ContentAdded(index, kind) => {
                    &&& writer.meta is Some
                    &&& has_item(seen.writer.items, index)
                    &&& item_at(seen.writer.items, index).kind == kind
                    &&& item_at(seen.writer.items, index).id == "item_"@
                        + writer.meta->0.response_id + "_"@ + decimal_text(index as nat)
                    &&& item_at(seen.writer.items, index).text == ""@
                    &&& if kind == ContentKind::ToolCall {
                        wires.len() == 0
                    } else {
                        let item = item_at(seen.writer.items, index);
                        &&& wires.len() == 2
                        &&& presents(
                            wires[0],
                            "response.output_item.added"@,
                            index,
                            item,
                            ""@,
                            "in_progress"@,
                        )
                        &&& is_about_part(
                            wires[1],
                            if kind == ContentKind::Reasoning {
                                "response.reasoning_summary_part.added"@
                            } else {
                                "response.content_part.added"@
                            },
                            index,
                            item,
                            ""@,
                        )
                    }
                },
                FactView::TextDelta(index, text) => {
                    &&& has_item(writer.items, index)
                    &&& wires.len() == 1
                    &&& brings(
                        wires[0],
                        "response.output_text.delta"@,
                        index,
                        item_at(writer.items, index),
                        text,
                    )
                    &&& counts(JsonView::Object(wires[0].data), "content_index"@, 0)
                },
                FactView::ReasoningDelta(index, text) => {
                    &&& has_item(writer.items, index)
                    &&& wires.len() == 1
                    &&& brings(
                        wires[0],
                        "response.reasoning_summary_text.delta"@,
                        index,
                        item_at(writer.items, index),
                        text,
                    )
                    &&& counts(JsonView::Object(wires[0].data), "summary_index"@, 0)
                },
                FactView::ToolCallDelta(index, id, name, text) => {
                    let before = item_at(writer.items, index);
                    &&& has_item(writer.items, index)
                    &&& if before.added {
                        &&& wires.len() == 1
                        &&& brings(
                            wires[0],
                            "response.function_call_arguments.delta"@,
                            index,
                            before,
                            text,
                        )
                    } else {
                        &&& name is Some
                        &&& wires.len() == 2
                        &&& presents(
                            wires[0],
                            "response.output_item.added"@,
                            index,
                            ItemView { call_id: id, name: name->0, ..before },
                            before.text,
                            "in_progress"@,
                        )
                        &&& brings(
                            wires[1],
                            "response.function_call_arguments.delta"@,
                            index,
                            before,
                            text,
                        )
                    }
                },
                FactView::Usage(_) => wires.len() == 0,
                FactView::Completed(_) => writer.meta is Some && seen.writer == writer,
            }
        }),
{
    lemma_event_keys();
    match fact {
        FactView::Started(meta) => {
            lemma_snapshot(meta, writer.items, writer.usage, false, None);
        },
        FactView::ContentAdded(index, kind) => {
            let meta = writer.meta->0;
            let item = ItemView {
                kind,
                id: crate::response::item_id(meta, index),
                call_id: ""@,
                name: ""@,
                text: ""@,
                added: kind != ContentKind::ToolCall,
            };
            crate::response::laws::lemma_with_item(writer.items, index, item);
            lemma_item_events(index, item);
        },
        FactView::ToolCallDelta(index, id, name, text) => {
            let before = item_at(writer.items, index);
            if let Some(name) = name {
                let shown = ItemView { call_id: id, name, added: true, ..before };
                lemma_item_events(index, shown);
            }
        },
        _ => {},
    }
}

/// Which event reports that an item's text is complete.
pub open spec fn text_done_name(kind: ContentKind) -> Seq<char> {
    match kind {
        ContentKind::ToolCall => "response.function_call_arguments.done"@,
        ContentKind::Reasoning => "response.reasoning_summary_text.done"@,
        ContentKind::Text => "response.output_text.done"@,
    }
}

/// Whether the events from `at` on close an item: its whole text, then its part unless it is a
/// call, then the item itself.
pub open spec fn closes(wires: Seq<WireView>, at: int, index: u32, item: ItemView) -> bool {
    let last = if item.kind == ContentKind::ToolCall {
        at + 1
    } else {
        at + 2
    };
    &&& 0 <= at
    &&& last < wires.len()
    &&& is_event(wires[at], text_done_name(item.kind))
    &&& concerns(wires[at], index, item)
    &&& says(
        JsonView::Object(wires[at].data),
        if item.kind == ContentKind::ToolCall {
            "arguments"@
        } else {
            "text"@
        },
        item.text,
    )
    &&& item.kind != ContentKind::ToolCall ==> is_about_part(
        wires[at + 1],
        if item.kind == ContentKind::Reasoning {
            "response.reasoning_summary_part.done"@
        } else {
            "response.content_part.done"@
        },
        index,
        item,
        item.text,
    )
    &&& presents(
        wires[last],
        "response.output_item.done"@,
        index,
        item,
        item.text,
        "completed"@,
    )
}

proof fn lemma_item_closes(before: Seq<WireView>, index: u32, item: ItemView)
    ensures
        closes(before + item_closed(index, item), before.len() as int, index, item),
{
    lemma_event_keys();
    lemma_item_events(index, item);
    let wires = before + item_closed(index, item);
    let at = before.len() as int;
    assert(wires[at] == text_done_wire(index, item));
    if item.kind == ContentKind::ToolCall {
        assert(wires[at + 1] == item_done_wire(index, item));
    } else {
        assert(wires[at + 1] == part_done_wire(index, item));
        assert(wires[at + 2] == item_done_wire(index, item));
    }
}

proof fn lemma_closes_prefix(
    wires: Seq<WireView>,
    more: Seq<WireView>,
    at: int,
    index: u32,
    item: ItemView,
)
    requires
        closes(wires, at, index, item),
    ensures
        closes(wires + more, at, index, item),
{
    let all = wires + more;
    assert(all[at] == wires[at]);
    assert(all[at + 1] == wires[at + 1]);
    if item.kind != ContentKind::ToolCall {
        assert(all[at + 2] == wires[at + 2]);
    }
}

proof fn lemma_items_close(items: Seq<(u32, ItemView)>, place: int) -> (at: int)
    requires
        0 <= place < items.len(),
    ensures
        closes(items_closed(items), at, items[place].0, items[place].1),
    decreases items.len(),
{
    let front = items.drop_last();
    let (index, item) = items.last();
    if place == items.len() - 1 {
        lemma_item_closes(items_closed(front), index, item);
        items_closed(front).len() as int
    } else {
        let at = lemma_items_close(front, place);
        lemma_closes_prefix(
            items_closed(front),
            item_closed(index, item),
            at,
            items[place].0,
            items[place].1,
        );
        at
    }
}

/// The end of an answer closes every item and then shows the whole answer: under the name and the
/// model that it began with, with its standing, its counters, and each item as it was shown when
/// it was closed.
pub proof fn lemma_end_is_told(writer: WriterView, meta: MetaView, place: int)
    requires
        writer.meta is Some,
    ensures
        ({
            let wires = observed(writer, FactView::Completed(meta)).wires;
            let reason = cut_off(meta.finish_reason);
            &&& wires.len() > 0
            &&& is_event(
                wires.last(),
                if reason is Some {
                    "response.incomplete"@
                } else {
                    "response.completed"@
                },
            )
            &&& field(wires.last().data, "response"@) matches Some(answer)
            &&& is_answer(
                answer,
                writer.meta->0,
                if reason is Some {
                    "incomplete"@
                } else {
                    "completed"@
                },
                writer.usage,
                reason,
            )
            &&& get(Some(answer), "output"@) matches Some(JsonView::Array(output))
            &&& output.len() == writer.items.len()
            &&& 0 <= place < writer.items.len() ==> {
                let (index, item) = writer.items[place];
                &&& shows(output[place], item, item.text, "completed"@)
                &&& exists|at: int| #[trigger] closes(wires, at, index, item)
            }
        }),
{
    lemma_event_keys();
    let seen = observed(writer, FactView::Completed(meta));
    lemma_snapshot(writer.meta->0, writer.items, writer.usage, true, meta.finish_reason);
    if 0 <= place < writer.items.len() {
        let (index, item) = writer.items[place];
        lemma_item_is_shown(item, true);
        let at = lemma_items_close(writer.items, place);
        let closing = items_closed(writer.items);
        assert(seen.wires =~= closing + seq![seen.wires.last()]);
        lemma_closes_prefix(closing, seq![seen.wires.last()], at, index, item);
        assert(output_values(writer.items, true)[place] == item_value(item, true));
    }
}

/// What stands in the closing answer, from the facts alone: an item for each announced one, of
/// the announced kind and with all the text that the facts brought. A call that was told of
/// carries the identifier and the name that it was first told with, and its arguments are what
/// was gathered of them. The events that close the item show the same.
pub proof fn lemma_closing_answer_tells_the_facts(facts: Seq<FactView>, meta: MetaView, place: int)
    requires
        announced_once(facts),
        facts_encoded(empty_writer(), facts, seq![]).ok,
        facts_encoded(empty_writer(), facts, seq![]).writer.meta is Some,
    ensures
        ({
            let writer = facts_encoded(empty_writer(), facts, seq![]).writer;
            let wires = observed(writer, FactView::Completed(meta)).wires;
            &&& ordered(writer.items)
            &&& field(wires.last().data, "response"@) matches Some(answer)
            &&& get(Some(answer), "output"@) matches Some(JsonView::Array(output))
            &&& output.len() == writer.items.len()
            &&& 0 <= place < output.len() ==> {
                let index = writer.items[place].0;
                let text = gathered_text(facts, index);
                let value = output[place];
                let item = writer.items[place].1;
                &&& is_as_told(item, facts, index)
                &&& exists|at: int| #[trigger] closes(wires, at, index, item)
                &&& match kind_told(facts, index) {
                    Some(ContentKind::ToolCall) => {
                        &&& says(value, "type"@, "function_call"@)
                        &&& says(value, "arguments"@, text)
                        &&& call_told(facts, index) matches Some((id, name)) ==> says(
                            value,
                            "call_id"@,
                            id,
                        ) && says(value, "name"@, name)
                    },
                    Some(ContentKind::Reasoning) => {
                        &&& says(value, "type"@, "reasoning"@)
                        &&& get(Some(value), "summary"@) matches Some(JsonView::Array(parts))
                        &&& parts.len() == 1
                        &&& is_part(parts[0], "summary_text"@, text)
                    },
                    Some(ContentKind::Text) => {
                        &&& says(value, "type"@, "message"@)
                        &&& says(value, "role"@, "assistant"@)
                        &&& get(Some(value), "content"@) matches Some(JsonView::Array(parts))
                        &&& parts.len() == 1
                        &&& is_part(parts[0], "output_text"@, text)
                    },
                    None => false,
                }
            }
        }),
{
    let writer = facts_encoded(empty_writer(), facts, seq![]).writer;
    lemma_completion_repeats_everything(facts, meta, place);
    lemma_end_is_told(writer, meta, place);
    if 0 <= place < writer.items.len() {
        assert(is_as_told(writer.items[place].1, facts, writer.items[place].0));
    }
}

/// Every event that a fact is told with reaches the client as it is, in order, with nothing added
/// but its number; no event reaches it that is not told.
pub proof fn lemma_events_are_sent_as_they_are(
    writer: WriterView,
    wires: Seq<WireView>,
    fact: Option<FactView>,
    closing: bool,
    events: Seq<ProviderEventView>,
)
    ensures
        ({
            let done = wires_sent(writer, wires, fact, closing, events);
            &&& events.len() <= done.events.len() <= events.len() + wires.len()
            &&& done.ok <==> done.events.len() == events.len() + wires.len()
            &&& forall|i: int| 0 <= i < events.len() ==> #[trigger] done.events[i] == events[i]
            &&& forall|i: int|
                events.len() <= i < done.events.len() ==> carries(
                    #[trigger] done.events[i],
                    wires[i - events.len()],
                    (writer.sequence + (i - events.len())) as u64,
                )
        }),
    decreases wires.len(),
{
    lemma_event_keys();
    if wires.len() > 0 && writer.sequence < u64::MAX {
        let wire = numbered(wires[0], writer.sequence);
        let counted = WriterView { sequence: (writer.sequence + 1) as u64, ..writer };
        let event;
        if fact is Some && (!closing || wires.len() == 1) {
            event = ProviderEventView { canonical: writer.pending.push(fact->0), wire };
            lemma_events_are_sent_as_they_are(
                WriterView { pending: seq![], ..counted },
                wires.drop_first(),
                None,
                closing,
                events.push(event),
            );
        } else {
            event = ProviderEventView { canonical: seq![], wire };
            lemma_events_are_sent_as_they_are(
                counted,
                wires.drop_first(),
                fact,
                closing,
                events.push(event),
            );
        }
        let done = wires_sent(writer, wires, fact, closing, events);
        assert forall|i: int| 0 <= i < events.len() implies #[trigger] done.events[i]
            == events[i] by {
            assert(done.events[i] == events.push(event)[i]);
        }
        assert forall|i: int| events.len() <= i < done.events.len() implies carries(
            #[trigger] done.events[i],
            wires[i - events.len()],
            (writer.sequence + (i - events.len())) as u64,
        ) by {
            if i == events.len() {
                assert(done.events[i] == events.push(event)[i]);
            } else {
                assert(wires.drop_first()[i - events.len() - 1] == wires[i - events.len()]);
            }
        }
    }
}

/// Whether an event for the client carries a told one with its number.
pub open spec fn carries(event: ProviderEventView, wire: WireView, sequence: u64) -> bool {
    &&& event.wire.event == Some(wire.event)
    &&& event.wire.id is None
    &&& event.wire.retry is None
    &&& counts(event.wire.data, "sequence_number"@, sequence)
    &&& forall|key: Seq<char>|
        key != "sequence_number"@ ==> #[trigger] get(Some(event.wire.data), key) == field(
            wire.data,
            key,
        )
}

/// Which facts fit an answer. A beginning and counters always do. A piece of content and the end
/// need a beginning. Text needs a piece of content that takes it and room for it, and a call must
/// be named by the first fact that tells of it.
pub proof fn lemma_which_facts_fit(writer: WriterView, fact: FactView)
    ensures
        observed(writer, fact).ok <==> match fact {
            FactView::Started(_) | FactView::Usage(_) => true,
            FactView::ContentAdded(_, _) | FactView::Completed(_) => writer.meta is Some,
            FactView::TextDelta(index, text) | FactView::ReasoningDelta(index, text) => has_item(
                writer.items,
                index,
            ) && writer.bytes + byte_length(text) <= 33_554_432,
            FactView::ToolCallDelta(index, _, name, text) => has_item(writer.items, index)
                && writer.bytes + byte_length(text) <= 33_554_432 && (item_at(
                writer.items,
                index,
            ).added || name is Some),
        },
{
}

/// How a fact that fits goes out: with all the events that it is told with, numbered on, and with
/// whatever waited for an event. The fact itself goes with the first of them, and the end with the
/// last. A fact without an event of its own waits.
pub proof fn lemma_fact_goes_out(
    writer: WriterView,
    fact: FactView,
    events: Seq<ProviderEventView>,
)
    requires
        observed(writer, fact).ok,
        writer.sequence + observed(writer, fact).wires.len() <= u64::MAX,
    ensures
        ({
            let wires = observed(writer, fact).wires;
            let done = fact_encoded(writer, fact, events);
            let told = done.events.skip(events.len() as int);
            &&& done.ok
            &&& done.events.len() == events.len() + wires.len()
            &&& done.events.take(events.len() as int) == events
            &&& forall|i: int|
                0 <= i < wires.len() ==> carries(
                    #[trigger] told[i],
                    wires[i],
                    (writer.sequence + i) as u64,
                )
            &&& wires.len() == 0 ==> done.writer.pending == writer.pending.push(fact)
            &&& wires.len() > 0 ==> {
                let at = if fact is Completed {
                    wires.len() - 1
                } else {
                    0
                };
                &&& done.writer.pending.len() == 0
                &&& told[at].canonical == writer.pending.push(fact)
                &&& forall|i: int|
                    0 <= i < wires.len() && i != at ==> (#[trigger] told[i]).canonical.len() == 0
            }
        }),
{
    let seen = observed(writer, fact);
    let done = fact_encoded(writer, fact, events);
    assert(seen.writer.sequence == writer.sequence);
    assert(seen.writer.pending == writer.pending);
    if seen.wires.len() > 0 {
        lemma_events_are_sent_as_they_are(
            seen.writer,
            seen.wires,
            Some(fact),
            fact is Completed,
            events,
        );
        lemma_one_event_carries_the_fact(
            seen.writer,
            seen.wires,
            Some(fact),
            fact is Completed,
            events,
        );
        assert(done.events.take(events.len() as int) =~= events);
        let told = done.events.skip(events.len() as int);
        assert forall|i: int| 0 <= i < seen.wires.len() implies carries(
            #[trigger] told[i],
            seen.wires[i],
            (writer.sequence + i) as u64,
        ) by {
            assert(told[i] == done.events[events.len() + i]);
        }
    } else {
        assert(done.events.take(events.len() as int) =~= events);
    }
}

proof fn lemma_one_event_carries_the_fact(
    writer: WriterView,
    wires: Seq<WireView>,
    fact: Option<FactView>,
    closing: bool,
    events: Seq<ProviderEventView>,
)
    requires
        wires.len() > 0 || fact is None,
        writer.sequence + wires.len() <= u64::MAX,
    ensures
        ({
            let done = wires_sent(writer, wires, fact, closing, events);
            let at = if closing {
                wires.len() - 1
            } else {
                0
            };
            &&& done.ok
            &&& fact is Some ==> done.writer.pending.len() == 0 && done.events[events.len()
                + at].canonical == writer.pending.push(fact->0)
            &&& fact is None ==> done.writer.pending == writer.pending
            &&& forall|i: int|
                events.len() <= i < done.events.len() && (fact is None || i != events.len() + at)
                    ==> (#[trigger] done.events[i]).canonical.len() == 0
        }),
    decreases wires.len(),
{
    lemma_events_are_sent_as_they_are(writer, wires, fact, closing, events);
    if wires.len() > 0 {
        let wire = numbered(wires[0], writer.sequence);
        let counted = WriterView { sequence: (writer.sequence + 1) as u64, ..writer };
        let rest = wires.drop_first();
        if fact is Some && (!closing || wires.len() == 1) {
            let event = ProviderEventView { canonical: writer.pending.push(fact->0), wire };
            let emptied = WriterView { pending: seq![], ..counted };
            lemma_one_event_carries_the_fact(emptied, rest, None, closing, events.push(event));
            lemma_events_are_sent_as_they_are(emptied, rest, None, closing, events.push(event));
            let done = wires_sent(emptied, rest, None, closing, events.push(event));
            assert(done.events[events.len() as int] == events.push(event)[events.len() as int]);
        } else {
            let event = ProviderEventView { canonical: seq![], wire };
            lemma_one_event_carries_the_fact(counted, rest, fact, closing, events.push(event));
            lemma_events_are_sent_as_they_are(counted, rest, fact, closing, events.push(event));
            let done = wires_sent(counted, rest, fact, closing, events.push(event));
            assert(done.events[events.len() as int] == events.push(event)[events.len() as int]);
        }
    }
}

} // verus!
