//! Writes an answer as events of the Responses protocol.

pub mod item;
pub mod laws;
pub mod shown;

use crate::error::{broken_protocol, protocol, ProviderError};
use crate::event::{
    events_view, facts_view, merged, no_usage, push_event, push_fact, ContentKind, FactView,
    FinishReason, GatewayEvent, MetaView, ProviderEvent, ProviderEventView, ResponseMeta, Usage,
    WireEvent, WireEventView,
};
use crate::json::{items_view, lemma_items_view_push, single, Json, JsonObject, JsonView};
use crate::response::item::{
    arguments_delta_wire, item_added_wire, item_closed, item_value, make_wire, number,
    part_added_wire, push_wire, text_delta_wire, wire, wires_view, Item, ItemView, Wire, WireView,
};
use crate::text::{byte_length, count_bytes, decimal, decimal_text};
use vstd::prelude::*;

verus! {

/// How many bytes of text an answer may hold. The closing snapshot repeats all of it, so an
/// answer beyond the limit fails; it is never cut short and called complete.
pub const TEXT_LIMIT: usize = 33_554_432;

/// The answer as far as it has been written.
pub struct ResponseWriter {
    pub meta: Option<ResponseMeta>,
    /// The output items in the order of their indices.
    pub items: Vec<(u32, Item)>,
    pub usage: Usage,
    /// The number of the next event.
    pub sequence: u64,
    /// How many bytes of text the items have been given.
    pub bytes: usize,
    /// Facts that no event has carried yet.
    pub pending_facts: Vec<GatewayEvent>,
}

#[verifier::ext_equal]
pub struct WriterView {
    pub meta: Option<MetaView>,
    pub items: Seq<(u32, ItemView)>,
    pub usage: Usage,
    pub sequence: u64,
    pub bytes: usize,
    pub pending: Seq<FactView>,
}

pub open spec fn entries_view(items: Seq<(u32, Item)>) -> Seq<(u32, ItemView)> {
    items.map_values(|entry: (u32, Item)| (entry.0, entry.1.view()))
}

pub open spec fn meta_view(meta: Option<ResponseMeta>) -> Option<MetaView> {
    match meta {
        Some(meta) => Some(meta@),
        None => None,
    }
}

impl ResponseWriter {
    pub open spec fn view(&self) -> WriterView {
        WriterView {
            meta: meta_view(self.meta),
            items: entries_view(self.items@),
            usage: self.usage,
            sequence: self.sequence,
            bytes: self.bytes,
            pending: facts_view(self.pending_facts@),
        }
    }
}

/// An answer of which nothing has been written.
pub open spec fn empty_writer() -> WriterView {
    WriterView {
        meta: None,
        items: seq![],
        usage: no_usage(),
        sequence: 0,
        bytes: 0,
        pending: seq![],
    }
}

/// The place of an index among items that stand in the order of their indices: that of the first
/// item from `at` on whose index is not smaller.
pub open spec fn place_from(items: Seq<(u32, ItemView)>, index: u32, at: int) -> int
    decreases items.len() - at,
{
    if at >= items.len() || items[at].0 >= index {
        at
    } else {
        place_from(items, index, at + 1)
    }
}

pub open spec fn place(items: Seq<(u32, ItemView)>, index: u32) -> int {
    place_from(items, index, 0)
}

/// Whether there is an item with this index.
pub open spec fn has_item(items: Seq<(u32, ItemView)>, index: u32) -> bool {
    place(items, index) < items.len() && items[place(items, index)].0 == index
}

/// The item with this index.
pub open spec fn item_at(items: Seq<(u32, ItemView)>, index: u32) -> ItemView {
    items[place(items, index)].1
}

/// The items with one of them set.
pub open spec fn with_item(items: Seq<(u32, ItemView)>, index: u32, item: ItemView) -> Seq<
    (u32, ItemView),
> {
    if has_item(items, index) {
        items.update(place(items, index), (index, item))
    } else {
        items.insert(place(items, index), (index, item))
    }
}

/// A counter as JSON, `null` where it is not known.
pub open spec fn counter_value(counter: Option<u64>) -> JsonView {
    match counter {
        Some(counter) => number(counter),
        None => JsonView::Null,
    }
}

/// The total as reported, else the sum of what went in and what came out.
pub open spec fn total_tokens(usage: Usage) -> Option<u64> {
    match (usage.total_tokens, usage.input_tokens, usage.output_tokens) {
        (Some(total), _, _) => Some(total),
        (None, Some(input), Some(output)) => if input + output <= u64::MAX {
            Some((input + output) as u64)
        } else {
            None
        },
        _ => None,
    }
}

pub open spec fn known(counter: Option<u64>) -> u64 {
    match counter {
        Some(counter) => counter,
        None => 0,
    }
}

/// The counters in the words of the Responses protocol; `null` while neither the input nor the
/// output is known.
pub open spec fn usage_value(usage: Usage) -> JsonView {
    if usage.input_tokens is None && usage.output_tokens is None {
        JsonView::Null
    } else {
        JsonView::Object(
            single("input_tokens"@, counter_value(usage.input_tokens)).insert(
                "output_tokens"@,
                counter_value(usage.output_tokens),
            ).insert("total_tokens"@, counter_value(total_tokens(usage))).insert(
                "input_tokens_details"@,
                JsonView::Object(single("cached_tokens"@, number(known(usage.cached_tokens)))),
            ).insert(
                "output_tokens_details"@,
                JsonView::Object(single("reasoning_tokens"@, number(known(usage.reasoning_tokens)))),
            ),
        )
    }
}

/// What the Responses protocol calls the reason why an answer is not whole.
pub open spec fn incomplete_reason(reason: Option<FinishReason>) -> Option<Seq<char>> {
    match reason {
        Some(FinishReason::Length) => Some("max_output_tokens"@),
        Some(FinishReason::ContentFilter) => Some("content_filter"@),
        _ => None,
    }
}

pub open spec fn output_values(items: Seq<(u32, ItemView)>, completed: bool) -> Seq<JsonView> {
    items.map_values(|entry: (u32, ItemView)| item_value(entry.1, completed))
}

/// The answer as a whole.
pub open spec fn snapshot_value(
    meta: MetaView,
    items: Seq<(u32, ItemView)>,
    usage: Usage,
    completed: bool,
    reason: Option<FinishReason>,
) -> JsonView {
    let status = if !completed {
        "in_progress"@
    } else if incomplete_reason(reason) is Some {
        "incomplete"@
    } else {
        "completed"@
    };
    let details = match incomplete_reason(reason) {
        Some(reason) => JsonView::Object(single("reason"@, JsonView::Text(reason))),
        None => JsonView::Null,
    };
    JsonView::Object(
        single("id"@, JsonView::Text(meta.response_id)).insert(
            "object"@,
            JsonView::Text("response"@),
        ).insert("model"@, JsonView::Text(meta.model)).insert(
            "status"@,
            JsonView::Text(status),
        ).insert("output"@, JsonView::Array(output_values(items, completed))).insert(
            "usage"@,
            usage_value(usage),
        ).insert("error"@, JsonView::Null).insert("incomplete_details"@, details),
    )
}

/// What comes of one fact: the answer after it, the events that report it, and whether it fits.
#[verifier::ext_equal]
pub struct Observed {
    pub writer: WriterView,
    pub wires: Seq<WireView>,
    pub ok: bool,
}

pub open spec fn refused(writer: WriterView) -> Observed {
    Observed { writer, wires: seq![], ok: false }
}

/// An answer that has counted so many more bytes of text, if there is room for them.
pub open spec fn reserved(writer: WriterView, bytes: nat) -> Option<WriterView> {
    if writer.bytes + bytes <= TEXT_LIMIT {
        Some(WriterView { bytes: (writer.bytes + bytes) as usize, ..writer })
    } else {
        None
    }
}

/// The identifier of an output item.
pub open spec fn item_id(meta: MetaView, index: u32) -> Seq<char> {
    "item_"@ + meta.response_id + "_"@ + decimal_text(index as nat)
}

pub open spec fn content_observed(writer: WriterView, index: u32, kind: ContentKind) -> Observed {
    match writer.meta {
        None => refused(writer),
        Some(meta) => {
            let item = ItemView {
                kind,
                id: item_id(meta, index),
                call_id: ""@,
                name: ""@,
                text: ""@,
                added: kind != ContentKind::ToolCall,
            };
            Observed {
                writer: WriterView { items: with_item(writer.items, index, item), ..writer },
                wires: if item.added {
                    seq![item_added_wire(index, item), part_added_wire(index, item)]
                } else {
                    seq![]
                },
                ok: true,
            }
        },
    }
}

/// Text that still fits is counted, even where there is no item to take it.
pub open spec fn text_observed(
    writer: WriterView,
    index: u32,
    text: Seq<char>,
    reasoning: bool,
) -> Observed {
    if writer.bytes + byte_length(text) > TEXT_LIMIT {
        refused(writer)
    } else {
        let counted = WriterView { bytes: (writer.bytes + byte_length(text)) as usize, ..writer };
        if !has_item(writer.items, index) {
            refused(counted)
        } else {
            let before = item_at(writer.items, index);
            let item = ItemView { text: before.text + text, ..before };
            Observed {
                writer: WriterView { items: with_item(writer.items, index, item), ..counted },
                wires: seq![text_delta_wire(index, item, text, reasoning)],
                ok: true,
            }
        }
    }
}

/// A call appears to the client with the first fact that names it.
pub open spec fn call_observed(
    writer: WriterView,
    index: u32,
    call_id: Seq<char>,
    name: Option<Seq<char>>,
    arguments: Seq<char>,
) -> Observed {
    if writer.bytes + byte_length(arguments) > TEXT_LIMIT {
        refused(writer)
    } else {
        let counted = WriterView {
            bytes: (writer.bytes + byte_length(arguments)) as usize,
            ..writer
        };
        if !has_item(writer.items, index) {
            refused(counted)
        } else {
            let before = item_at(writer.items, index);
            let item = ItemView { text: before.text + arguments, ..before };
            if before.added {
                Observed {
                    writer: WriterView { items: with_item(writer.items, index, item), ..counted },
                    wires: seq![arguments_delta_wire(index, item, arguments)],
                    ok: true,
                }
            } else {
                let called = ItemView { call_id, ..before };
                match name {
                    None => refused(
                        WriterView { items: with_item(writer.items, index, called), ..counted },
                    ),
                    Some(name) => {
                        let shown = ItemView { name, added: true, ..called };
                        let grown = ItemView { text: shown.text + arguments, ..shown };
                        Observed {
                            writer: WriterView {
                                items: with_item(writer.items, index, grown),
                                ..counted
                            },
                            wires: seq![
                                item_added_wire(index, shown),
                                arguments_delta_wire(index, grown, arguments),
                            ],
                            ok: true,
                        }
                    },
                }
            }
        }
    }
}

/// The events that close all items, in the order of their indices.
pub open spec fn items_closed(items: Seq<(u32, ItemView)>) -> Seq<WireView>
    decreases items.len(),
{
    if items.len() == 0 {
        seq![]
    } else {
        items_closed(items.drop_last()) + item_closed(items.last().0, items.last().1)
    }
}

pub open spec fn completed_observed(writer: WriterView, meta: MetaView) -> Observed {
    match writer.meta {
        None => refused(writer),
        Some(started) => {
            let event = if incomplete_reason(meta.finish_reason) is Some {
                "response.incomplete"@
            } else {
                "response.completed"@
            };
            Observed {
                writer,
                wires: items_closed(writer.items).push(
                    wire(
                        event,
                        single(
                            "response"@,
                            snapshot_value(
                                started,
                                writer.items,
                                writer.usage,
                                true,
                                meta.finish_reason,
                            ),
                        ),
                    ),
                ),
                ok: true,
            }
        },
    }
}

/// What comes of one fact.
pub open spec fn observed(writer: WriterView, fact: FactView) -> Observed {
    match fact {
        FactView::Started(meta) => Observed {
            writer: WriterView { meta: Some(meta), ..writer },
            wires: seq![
                wire(
                    "response.created"@,
                    single(
                        "response"@,
                        snapshot_value(meta, writer.items, writer.usage, false, None),
                    ),
                ),
            ],
            ok: true,
        },
        FactView::ContentAdded(index, kind) => content_observed(writer, index, kind),
        FactView::TextDelta(index, text) => text_observed(writer, index, text, false),
        FactView::ReasoningDelta(index, text) => text_observed(writer, index, text, true),
        FactView::ToolCallDelta(index, call_id, name, arguments) => call_observed(
            writer,
            index,
            call_id,
            name,
            arguments,
        ),
        FactView::Usage(usage) => Observed {
            writer: WriterView { usage: merged(writer.usage, usage), ..writer },
            wires: seq![],
            ok: true,
        },
        FactView::Completed(meta) => completed_observed(writer, meta),
    }
}

/// What comes of several facts: the answer after them, the events for the client, and whether
/// all went well.
#[verifier::ext_equal]
pub struct Encoded {
    pub writer: WriterView,
    pub events: Seq<ProviderEventView>,
    pub ok: bool,
}

/// An event with its number.
pub open spec fn numbered(wire: WireView, sequence: u64) -> WireEventView {
    WireEventView {
        event: Some(wire.event),
        data: JsonView::Object(wire.data.insert("sequence_number"@, number(sequence))),
        id: None,
        retry: None,
    }
}

/// Sends the events of one fact. The first of them carries the fact and whatever waited for an
/// event; the closing fact goes with the last one.
pub open spec fn wires_sent(
    writer: WriterView,
    wires: Seq<WireView>,
    fact: Option<FactView>,
    closing: bool,
    events: Seq<ProviderEventView>,
) -> Encoded
    decreases wires.len(),
{
    if wires.len() == 0 {
        Encoded { writer, events, ok: true }
    } else if writer.sequence == u64::MAX {
        Encoded { writer, events, ok: false }
    } else {
        let wire = numbered(wires[0], writer.sequence);
        let counted = WriterView { sequence: (writer.sequence + 1) as u64, ..writer };
        if fact is Some && (!closing || wires.len() == 1) {
            wires_sent(
                WriterView { pending: seq![], ..counted },
                wires.drop_first(),
                None,
                closing,
                events.push(ProviderEventView { canonical: writer.pending.push(fact->0), wire }),
            )
        } else {
            wires_sent(
                counted,
                wires.drop_first(),
                fact,
                closing,
                events.push(ProviderEventView { canonical: seq![], wire }),
            )
        }
    }
}

/// One fact. Without an event of its own it waits for the next one.
pub open spec fn fact_encoded(
    writer: WriterView,
    fact: FactView,
    events: Seq<ProviderEventView>,
) -> Encoded {
    let seen = observed(writer, fact);
    if !seen.ok {
        Encoded { writer: seen.writer, events, ok: false }
    } else if seen.wires.len() == 0 {
        Encoded {
            writer: WriterView { pending: seen.writer.pending.push(fact), ..seen.writer },
            events,
            ok: true,
        }
    } else {
        wires_sent(seen.writer, seen.wires, Some(fact), fact is Completed, events)
    }
}

/// All facts in their order, up to the first that fails.
pub open spec fn facts_encoded(
    writer: WriterView,
    facts: Seq<FactView>,
    events: Seq<ProviderEventView>,
) -> Encoded
    decreases facts.len(),
{
    if facts.len() == 0 {
        Encoded { writer, events, ok: true }
    } else {
        let first = fact_encoded(writer, facts[0], events);
        if !first.ok {
            first
        } else {
            facts_encoded(first.writer, facts.drop_first(), first.events)
        }
    }
}

fn make_counter(counter: Option<u64>) -> (value: Json)
    ensures
        value@ == counter_value(counter),
{
    match counter {
        Some(counter) => Json::unsigned(counter),
        None => Json::Null,
    }
}

fn known_counter(counter: Option<u64>) -> (value: u64)
    ensures
        value == known(counter),
{
    match counter {
        Some(counter) => counter,
        None => 0,
    }
}

fn total(usage: &Usage) -> (total: Option<u64>)
    ensures
        total == total_tokens(*usage),
{
    match (usage.total_tokens, usage.input_tokens, usage.output_tokens) {
        (Some(total), _, _) => Some(total),
        (None, Some(input), Some(output)) => input.checked_add(output),
        _ => None,
    }
}

fn make_usage(usage: &Usage) -> (value: Json)
    ensures
        value@ == usage_value(*usage),
{
    if usage.input_tokens.is_none() && usage.output_tokens.is_none() {
        return Json::Null;
    }
    Json::object(
        JsonObject::new().with("input_tokens", make_counter(usage.input_tokens)).with(
            "output_tokens",
            make_counter(usage.output_tokens),
        ).with("total_tokens", make_counter(total(usage))).with(
            "input_tokens_details",
            Json::object(
                JsonObject::new().with(
                    "cached_tokens",
                    Json::unsigned(known_counter(usage.cached_tokens)),
                ),
            ),
        ).with(
            "output_tokens_details",
            Json::object(
                JsonObject::new().with(
                    "reasoning_tokens",
                    Json::unsigned(known_counter(usage.reasoning_tokens)),
                ),
            ),
        ),
    )
}

fn make_incomplete_reason(reason: Option<FinishReason>) -> (name: Option<&'static str>)
    ensures
        crate::json::view_text(name) == incomplete_reason(reason),
{
    match reason {
        Some(FinishReason::Length) => Some("max_output_tokens"),
        Some(FinishReason::ContentFilter) => Some("content_filter"),
        _ => None,
    }
}

fn make_id(meta: &ResponseMeta, index: u32) -> (id: String)
    ensures
        id@ == item_id(meta@, index),
{
    let mut id = "item_".to_owned();
    id.append(meta.response_id.as_str());
    id.append("_");
    id.append(decimal(index as u64).as_str());
    id
}

impl ResponseWriter {
    pub fn new() -> (writer: ResponseWriter)
        ensures
            writer@ == empty_writer(),
    {
        let writer = ResponseWriter {
            meta: None,
            items: Vec::new(),
            usage: Usage::new(),
            sequence: 0,
            bytes: 0,
            pending_facts: Vec::new(),
        };
        assert(writer@.items =~= seq![]);
        assert(writer@.pending =~= seq![]);
        writer
    }

    fn output(&self, completed: bool) -> (output: Vec<Json>)
        ensures
            items_view(output@) == output_values(self@.items, completed),
    {
        let mut output: Vec<Json> = Vec::new();
        let ghost values = output_values(self@.items, completed);
        let mut i: usize = 0;
        while i < self.items.len()
            invariant
                i <= self.items.len(),
                values == output_values(self@.items, completed),
                items_view(output@) == values.take(i as int),
            decreases self.items.len() - i,
        {
            let value = self.items[i].1.value(completed);
            proof {
                lemma_items_view_push(output@, value);
                assert(values.take(i + 1) =~= values.take(i as int).push(values[i as int]));
            }
            output.push(value);
            i += 1;
        }
        assert(values.take(i as int) =~= values);
        output
    }

    fn snapshot(&self, meta: &ResponseMeta, completed: bool, reason: Option<FinishReason>) -> (value:
        Json)
        ensures
            value@ == snapshot_value(meta@, self@.items, self.usage, completed, reason),
    {
        let incomplete = make_incomplete_reason(reason);
        let status = if !completed {
            "in_progress"
        } else if incomplete.is_some() {
            "incomplete"
        } else {
            "completed"
        };
        let details = match incomplete {
            Some(reason) => Json::object(JsonObject::new().with("reason", Json::text(reason))),
            None => Json::Null,
        };
        Json::object(
            JsonObject::new().with("id", Json::text(meta.response_id.as_str())).with(
                "object",
                Json::text("response"),
            ).with("model", Json::text(meta.model.as_str())).with(
                "status",
                Json::text(status),
            ).with("output", Json::array(self.output(completed))).with(
                "usage",
                make_usage(&self.usage),
            ).with("error", Json::Null).with("incomplete_details", details),
        )
    }

    /// The place of an index among the items.
    fn find(&self, index: u32) -> (at: usize)
        ensures
            at == place(self@.items, index),
            at <= self.items.len(),
    {
        let mut at: usize = 0;
        while at < self.items.len()
            invariant
                at <= self.items.len(),
                place(self@.items, index) == place_from(self@.items, index, at as int),
            decreases self.items.len() - at,
        {
            if self.items[at].0 >= index {
                return at;
            }
            at += 1;
        }
        at
    }

    /// Counts text, if it still fits.
    pub fn reserve(&mut self, bytes: usize) -> (room: Result<(), ProviderError>)
        ensures
            match reserved(old(self)@, bytes as nat) {
                Some(writer) => room is Ok && final(self)@ == writer,
                None => room == Err::<(), ProviderError>(broken_protocol()) && final(self)@ == old(
                    self,
                )@,
            },
    {
        match self.bytes.checked_add(bytes) {
            Some(total) => if total <= TEXT_LIMIT {
                self.bytes = total;
                Ok(())
            } else {
                Err(protocol())
            },
            None => Err(protocol()),
        }
    }

    fn add_content(&mut self, index: u32, kind: ContentKind) -> (wires: Option<Vec<Wire>>)
        ensures
            matches_observed(wires, content_observed(old(self)@, index, kind)),
            final(self)@ == content_observed(old(self)@, index, kind).writer,
    {
        let id = match &self.meta {
            Some(meta) => make_id(meta, index),
            None => return None,
        };
        let item = Item {
            kind,
            id,
            call_id: "".to_owned(),
            name: "".to_owned(),
            text: "".to_owned(),
            added: kind != ContentKind::ToolCall,
        };
        let mut wires: Vec<Wire> = Vec::new();
        assert(wires_view(wires@) =~= seq![]);
        if item.added {
            push_wire(&mut wires, item.added_wire(index));
            push_wire(&mut wires, item.part_added_wire(index));
        }
        let at: usize = self.find(index);
        let ghost before = self@.items;
        if at < self.items.len() && self.items[at].0 == index {
            self.items.set(at, (index, item));
        } else {
            self.items.insert(at, (index, item));
        }
        assert(self@.items =~= with_item(before, index, item@));
        assert(wires_view(wires@) =~= content_observed(old(self)@, index, kind).wires);
        Some(wires)
    }

    fn add_text(&mut self, index: u32, text: &str, reasoning: bool) -> (wires: Option<Vec<Wire>>)
        ensures
            matches_observed(wires, text_observed(old(self)@, index, text@, reasoning)),
            final(self)@ == text_observed(old(self)@, index, text@, reasoning).writer,
    {
        if self.reserve(count_bytes(text)).is_err() {
            return None;
        }
        let at: usize = self.find(index);
        if at >= self.items.len() || self.items[at].0 != index {
            return None;
        }
        let ghost before = self@.items;
        self.items[at].1.text.append(text);
        let item = &self.items[at].1;
        assert(self@.items =~= with_item(before, index, item@));
        let mut wires: Vec<Wire> = Vec::new();
        push_wire(&mut wires, item.text_delta_wire(index, text, reasoning));
        assert(wires_view(wires@) =~= seq![text_delta_wire(index, item@, text@, reasoning)]);
        Some(wires)
    }

    fn add_call(
        &mut self,
        index: u32,
        call_id: &str,
        name: Option<&str>,
        arguments: &str,
    ) -> (wires: Option<Vec<Wire>>)
        ensures
            ({
                let seen = call_observed(
                    old(self)@,
                    index,
                    call_id@,
                    crate::json::view_text(name),
                    arguments@,
                );
                matches_observed(wires, seen) && final(self)@ == seen.writer
            }),
    {
        if self.reserve(count_bytes(arguments)).is_err() {
            return None;
        }
        let at: usize = self.find(index);
        if at >= self.items.len() || self.items[at].0 != index {
            return None;
        }
        let ghost before = self@.items;
        let mut wires: Vec<Wire> = Vec::new();
        assert(wires_view(wires@) =~= seq![]);
        if !self.items[at].1.added {
            self.items[at].1.call_id = call_id.to_owned();
            let name = match name {
                Some(name) => name,
                None => {
                    assert(self@.items =~= with_item(before, index, self.items@[at as int].1@));
                    return None;
                },
            };
            self.items[at].1.name = name.to_owned();
            self.items[at].1.added = true;
            push_wire(&mut wires, self.items[at].1.added_wire(index));
        }
        self.items[at].1.text.append(arguments);
        let item = &self.items[at].1;
        assert(self@.items =~= with_item(before, index, item@));
        push_wire(&mut wires, item.arguments_delta_wire(index, arguments));
        assert(wires_view(wires@) =~= call_observed(
            old(self)@,
            index,
            call_id@,
            crate::json::view_text(name),
            arguments@,
        ).wires);
        Some(wires)
    }

    fn complete(&self, meta: &ResponseMeta) -> (wires: Option<Vec<Wire>>)
        ensures
            matches_observed(wires, completed_observed(self@, meta@)),
    {
        let started = match &self.meta {
            Some(started) => started,
            None => return None,
        };
        let mut wires: Vec<Wire> = Vec::new();
        let ghost items = self@.items;
        let mut i: usize = 0;
        assert(wires_view(wires@) =~= seq![]);
        while i < self.items.len()
            invariant
                i <= self.items.len(),
                items == self@.items,
                wires_view(wires@) == items_closed(items.take(i as int)),
            decreases self.items.len() - i,
        {
            assert(items.take(i + 1).drop_last() =~= items.take(i as int));
            self.items[i].1.close(self.items[i].0, &mut wires);
            i += 1;
        }
        assert(items.take(i as int) =~= items);
        let event = if make_incomplete_reason(meta.finish_reason).is_some() {
            "response.incomplete"
        } else {
            "response.completed"
        };
        let snapshot = self.snapshot(started, true, meta.finish_reason);
        push_wire(
            &mut wires,
            make_wire(event, JsonObject::new().with("response", snapshot)),
        );
        Some(wires)
    }

    /// Takes in one fact and gives back the events that report it.
    pub fn observe(&mut self, fact: &GatewayEvent) -> (wires: Result<Vec<Wire>, ProviderError>)
        ensures
            ({
                let seen = observed(old(self)@, fact@);
                &&& final(self)@ == seen.writer
                &&& if seen.ok {
                    wires matches Ok(wires) && wires_view(wires@) == seen.wires
                } else {
                    wires == Err::<Vec<Wire>, ProviderError>(broken_protocol())
                }
            }),
    {
        let wires = match fact {
            GatewayEvent::Started(meta) => {
                self.meta = Some(meta.clone());
                let mut wires: Vec<Wire> = Vec::new();
                let snapshot = self.snapshot(meta, false, None);
                push_wire(
                    &mut wires,
                    make_wire("response.created", JsonObject::new().with("response", snapshot)),
                );
                Some(wires)
            },
            GatewayEvent::ContentAdded { index, kind } => self.add_content(*index, *kind),
            GatewayEvent::TextDelta { content_index, text } => self.add_text(
                *content_index,
                text.as_str(),
                false,
            ),
            GatewayEvent::ReasoningDelta { content_index, text } => self.add_text(
                *content_index,
                text.as_str(),
                true,
            ),
            GatewayEvent::ToolCallDelta { content_index, call_id, name, arguments_delta } => {
                let name = match name {
                    Some(name) => Some(name.as_str()),
                    None => None,
                };
                self.add_call(*content_index, call_id.as_str(), name, arguments_delta.as_str())
            },
            GatewayEvent::Usage(usage) => {
                self.usage.merge(usage);
                let wires: Vec<Wire> = Vec::new();
                assert(wires_view(wires@) =~= seq![]);
                Some(wires)
            },
            GatewayEvent::Completed(meta) => self.complete(meta),
        };
        match wires {
            Some(wires) => Ok(wires),
            None => Err(protocol()),
        }
    }

    fn send(
        &mut self,
        wires: Vec<Wire>,
        fact: GatewayEvent,
        events: &mut Vec<ProviderEvent>,
    ) -> (sent: bool)
        ensures
            ({
                let done = wires_sent(
                    old(self)@,
                    wires_view(wires@),
                    Some(fact@),
                    fact@ is Completed,
                    events_view(old(events)@),
                );
                &&& final(self)@ == done.writer
                &&& events_view(final(events)@) == done.events
                &&& sent == done.ok
            }),
    {
        let ghost goal = wires_sent(
            self@,
            wires_view(wires@),
            Some(fact@),
            fact@ is Completed,
            events_view(events@),
        );
        let closing = match &fact {
            GatewayEvent::Completed(_) => true,
            _ => false,
        };
        let mut queue = wires;
        let mut carried = Some(fact);
        while queue.len() > 0
            invariant
                goal == wires_sent(
                    old(self)@,
                    wires_view(wires@),
                    Some(fact@),
                    fact@ is Completed,
                    events_view(old(events)@),
                ),
                goal == wires_sent(
                    self@,
                    wires_view(queue@),
                    match carried {
                        Some(fact) => Some(fact@),
                        None => None,
                    },
                    closing,
                    events_view(events@),
                ),
            decreases queue.len(),
        {
            let ghost rest = wires_view(queue@);
            let last = queue.len() == 1;
            if self.sequence == u64::MAX {
                return false;
            }
            let wire = queue.remove(0);
            assert(wires_view(queue@) =~= rest.drop_first());
            let data = wire.data.with("sequence_number", Json::unsigned(self.sequence));
            self.sequence += 1;
            let mut canonical: Vec<GatewayEvent> = Vec::new();
            assert(facts_view(canonical@) =~= seq![]);
            if !closing || last {
                if let Some(fact) = carried {
                    let ghost waiting = facts_view(self.pending_facts@);
                    canonical.append(&mut self.pending_facts);
                    assert(facts_view(canonical@) =~= waiting);
                    assert(facts_view(self.pending_facts@) =~= seq![]);
                    push_fact(&mut canonical, fact);
                }
                carried = None;
            }
            push_event(
                events,
                ProviderEvent {
                    canonical,
                    wire: WireEvent {
                        event: Some(wire.event),
                        data: Json::object(data),
                        id: None,
                        retry: None,
                    },
                },
            );
        }
        true
    }

    /// Takes in facts and gives back the events for the client. Each fact goes out with exactly
    /// one event; one that no event reports waits for the next.
    pub fn encode(&mut self, facts: Vec<GatewayEvent>) -> (events: Result<
        Vec<ProviderEvent>,
        ProviderError,
    >)
        ensures
            ({
                let done = facts_encoded(old(self)@, facts_view(facts@), seq![]);
                &&& final(self)@ == done.writer
                &&& if done.ok {
                    events matches Ok(events) && events_view(events@) == done.events
                } else {
                    events == Err::<Vec<ProviderEvent>, ProviderError>(broken_protocol())
                }
            }),
    {
        let ghost goal = facts_encoded(self@, facts_view(facts@), seq![]);
        let mut queue = facts;
        let mut events: Vec<ProviderEvent> = Vec::new();
        assert(events_view(events@) =~= seq![]);
        while queue.len() > 0
            invariant
                goal == facts_encoded(old(self)@, facts_view(facts@), seq![]),
                goal == facts_encoded(self@, facts_view(queue@), events_view(events@)),
            decreases queue.len(),
        {
            let ghost rest = facts_view(queue@);
            let fact = queue.remove(0);
            assert(facts_view(queue@) =~= rest.drop_first());
            assert(rest[0] == fact@);
            let wires = self.observe(&fact)?;
            if wires.len() == 0 {
                push_fact(&mut self.pending_facts, fact);
            } else if !self.send(wires, fact, &mut events) {
                return Err(protocol());
            }
        }
        Ok(events)
    }
}

/// Whether events are the ones that a fact is reported with.
pub open spec fn matches_observed(wires: Option<Vec<Wire>>, seen: Observed) -> bool {
    match wires {
        Some(wires) => seen.ok && wires_view(wires@) == seen.wires,
        None => !seen.ok,
    }
}

} // verus!
