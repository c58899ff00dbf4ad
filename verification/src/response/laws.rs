//! What holds of every answer, however it is cut into facts.

use crate::event::{ContentKind, FactView, FinishReason, MetaView, ProviderEventView};
use crate::json::{field, get, JsonView};
use crate::response::item::{
    item_closed, item_done_wire, part_done_wire, text_done_wire, ItemView, WireView,
};
use crate::response::{
    empty_writer, fact_encoded, facts_encoded, has_item, item_at, items_closed, observed,
    output_values, place, place_from, refused, reserved, wires_sent, with_item, WriterView,
    TEXT_LIMIT,
};
use crate::text::byte_length;
use vstd::prelude::*;

verus! {

/// Whether an event carries this number.
pub open spec fn has_number(event: ProviderEventView, sequence: int) -> bool {
    event.wire.data matches JsonView::Object(data) && field(data, "sequence_number"@) matches Some(
        JsonView::Number(crate::json::NumberView::Unsigned(given)),
    ) && given == sequence
}

/// Whether the events after the first `from` carry consecutive numbers from `sequence` on.
pub open spec fn numbered_from(events: Seq<ProviderEventView>, from: int, sequence: int) -> bool {
    forall|i: int|
        from <= i < events.len() ==> has_number(#[trigger] events[i], sequence + (i - from))
}

proof fn lemma_wires_numbered(
    writer: WriterView,
    wires: Seq<WireView>,
    fact: Option<FactView>,
    closing: bool,
    events: Seq<ProviderEventView>,
)
    ensures
        ({
            let done = wires_sent(writer, wires, fact, closing, events);
            &&& events.is_prefix_of(done.events)
            &&& numbered_from(done.events, events.len() as int, writer.sequence as int)
            &&& done.writer.sequence == writer.sequence + (done.events.len() - events.len())
            &&& done.ok ==> done.events.len() == events.len() + wires.len()
        }),
    decreases wires.len(),
{
    if wires.len() > 0 && writer.sequence < u64::MAX {
        let wire = crate::response::numbered(wires[0], writer.sequence);
        let counted = WriterView { sequence: (writer.sequence + 1) as u64, ..writer };
        let event;
        if fact is Some && (!closing || wires.len() == 1) {
            event = ProviderEventView { canonical: writer.pending.push(fact->0), wire };
            lemma_wires_numbered(
                WriterView { pending: seq![], ..counted },
                wires.drop_first(),
                None,
                closing,
                events.push(event),
            );
        } else {
            event = ProviderEventView { canonical: seq![], wire };
            lemma_wires_numbered(counted, wires.drop_first(), fact, closing, events.push(event));
        }
        let done = wires_sent(writer, wires, fact, closing, events);
        assert(events.push(event).is_prefix_of(done.events));
        assert(done.events[events.len() as int] == events.push(event)[events.len() as int]);
        assert(has_number(event, writer.sequence as int));
        assert(events =~= done.events.subrange(0, events.len() as int));
    }
}

proof fn lemma_fact_numbered(writer: WriterView, fact: FactView, events: Seq<ProviderEventView>)
    ensures
        ({
            let done = fact_encoded(writer, fact, events);
            &&& events.is_prefix_of(done.events)
            &&& numbered_from(done.events, events.len() as int, writer.sequence as int)
            &&& done.writer.sequence == writer.sequence + (done.events.len() - events.len())
        }),
{
    let seen = observed(writer, fact);
    assert(seen.writer.sequence == writer.sequence);
    if seen.ok && seen.wires.len() > 0 {
        lemma_wires_numbered(seen.writer, seen.wires, Some(fact), fact is Completed, events);
    }
}

/// The events that facts are reported with are numbered without a gap from the writer's next
/// number on, and the writer goes on with the number after the last.
pub proof fn lemma_numbers_run_on(
    writer: WriterView,
    facts: Seq<FactView>,
    events: Seq<ProviderEventView>,
)
    ensures
        ({
            let done = facts_encoded(writer, facts, events);
            &&& events.is_prefix_of(done.events)
            &&& numbered_from(done.events, events.len() as int, writer.sequence as int)
            &&& done.writer.sequence == writer.sequence + (done.events.len() - events.len())
        }),
    decreases facts.len(),
{
    if facts.len() > 0 {
        let first = fact_encoded(writer, facts[0], events);
        lemma_fact_numbered(writer, facts[0], events);
        if first.ok {
            lemma_numbers_run_on(first.writer, facts.drop_first(), first.events);
            let done = facts_encoded(writer, facts, events);
            assert forall|i: int| events.len() <= i < done.events.len() implies has_number(
                #[trigger] done.events[i],
                writer.sequence + (i - events.len()),
            ) by {
                if i < first.events.len() {
                    assert(done.events[i] == first.events[i]);
                }
            }
            assert(events =~= done.events.subrange(0, events.len() as int));
        }
    }
}

/// All facts that events carry, in their order.
pub open spec fn carried(events: Seq<ProviderEventView>) -> Seq<FactView>
    decreases events.len(),
{
    if events.len() == 0 {
        seq![]
    } else {
        carried(events.drop_last()) + events.last().canonical
    }
}

proof fn lemma_carried_push(events: Seq<ProviderEventView>, event: ProviderEventView)
    ensures
        carried(events.push(event)) == carried(events) + event.canonical,
{
    assert(events.push(event).drop_last() == events);
}

/// What is known of by the client's events or still waits for one.
pub open spec fn accounted(events: Seq<ProviderEventView>, pending: Seq<FactView>) -> Seq<FactView> {
    carried(events) + pending
}

proof fn lemma_wires_carry(
    writer: WriterView,
    wires: Seq<WireView>,
    fact: Option<FactView>,
    closing: bool,
    events: Seq<ProviderEventView>,
)
    requires
        wires.len() > 0 || fact is None,
    ensures
        ({
            let done = wires_sent(writer, wires, fact, closing, events);
            done.ok ==> accounted(done.events, done.writer.pending) == accounted(
                events,
                writer.pending,
            ) + (match fact {
                Some(fact) => seq![fact],
                None => seq![],
            })
        }),
    decreases wires.len(),
{
    let before = accounted(events, writer.pending);
    assert(before + Seq::<FactView>::empty() == before);
    if wires.len() > 0 && writer.sequence < u64::MAX {
        let wire = crate::response::numbered(wires[0], writer.sequence);
        let counted = WriterView { sequence: (writer.sequence + 1) as u64, ..writer };
        if fact is Some && (!closing || wires.len() == 1) {
            let event = ProviderEventView { canonical: writer.pending.push(fact->0), wire };
            let emptied = WriterView { pending: seq![], ..counted };
            lemma_carried_push(events, event);
            lemma_wires_carry(emptied, wires.drop_first(), None, closing, events.push(event));
            assert(accounted(events.push(event), emptied.pending) =~= before + seq![fact->0]);
            assert(accounted(events.push(event), emptied.pending) + Seq::<FactView>::empty()
                =~= accounted(events.push(event), emptied.pending));
        } else {
            let event = ProviderEventView { canonical: seq![], wire };
            lemma_carried_push(events, event);
            lemma_wires_carry(counted, wires.drop_first(), fact, closing, events.push(event));
            assert(accounted(events.push(event), counted.pending) =~= before);
        }
    }
}

proof fn lemma_fact_carried(writer: WriterView, fact: FactView, events: Seq<ProviderEventView>)
    ensures
        ({
            let done = fact_encoded(writer, fact, events);
            done.ok ==> accounted(done.events, done.writer.pending) == accounted(
                events,
                writer.pending,
            ).push(fact)
        }),
{
    let seen = observed(writer, fact);
    assert(seen.writer.pending == writer.pending);
    let before = accounted(events, writer.pending);
    assert(before + seq![fact] =~= before.push(fact));
    if seen.ok && seen.wires.len() > 0 {
        lemma_wires_carry(seen.writer, seen.wires, Some(fact), fact is Completed, events);
    } else {
        assert(accounted(events, writer.pending.push(fact)) =~= before.push(fact));
    }
}

/// Every fact goes out exactly once and in order: what the events carry, followed by what still
/// waits, grows by exactly the facts taken in.
pub proof fn lemma_facts_go_out_once(
    writer: WriterView,
    facts: Seq<FactView>,
    events: Seq<ProviderEventView>,
)
    requires
        facts_encoded(writer, facts, events).ok,
    ensures
        ({
            let done = facts_encoded(writer, facts, events);
            accounted(done.events, done.writer.pending) == accounted(events, writer.pending)
                + facts
        }),
    decreases facts.len(),
{
    let before = accounted(events, writer.pending);
    if facts.len() == 0 {
        assert(before + facts =~= before);
    } else {
        let first = fact_encoded(writer, facts[0], events);
        lemma_fact_carried(writer, facts[0], events);
        lemma_facts_go_out_once(first.writer, facts.drop_first(), first.events);
        assert(before.push(facts[0]) + facts.drop_first() =~= before + facts);
    }
}

/// Whether the items stand in the order of their indices, each index once.
pub open spec fn ordered(items: Seq<(u32, ItemView)>) -> bool {
    forall|i: int, j: int| 0 <= i < j < items.len() ==> items[i].0 < items[j].0
}

/// What every writer keeps: ordered items, and no more text than the limit.
pub open spec fn sound(writer: WriterView) -> bool {
    ordered(writer.items) && writer.bytes <= TEXT_LIMIT
}

proof fn lemma_place(items: Seq<(u32, ItemView)>, index: u32, at: int)
    requires
        ordered(items),
        0 <= at <= items.len(),
        forall|i: int| 0 <= i < at ==> items[i].0 < index,
    ensures
        ({
            let found = place_from(items, index, at);
            &&& at <= found <= items.len()
            &&& forall|i: int| 0 <= i < found ==> items[i].0 < index
            &&& forall|i: int| found <= i < items.len() ==> items[i].0 >= index
        }),
    decreases items.len() - at,
{
    if at < items.len() && items[at].0 < index {
        lemma_place(items, index, at + 1);
    }
}

/// An item is found wherever it stands.
proof fn lemma_found(items: Seq<(u32, ItemView)>, index: u32, at: int)
    requires
        ordered(items),
        0 <= at < items.len(),
        items[at].0 == index,
    ensures
        place(items, index) == at,
        has_item(items, index),
        item_at(items, index) == items[at].1,
{
    lemma_place(items, index, 0);
}

/// An item that is set is there, and the items stay in order.
pub proof fn lemma_with_item(items: Seq<(u32, ItemView)>, index: u32, item: ItemView)
    requires
        ordered(items),
    ensures
        ordered(with_item(items, index, item)),
        has_item(with_item(items, index, item), index),
        item_at(with_item(items, index, item), index) == item,
{
    lemma_place(items, index, 0);
    let at = place(items, index);
    let after = with_item(items, index, item);
    assert(after[at] == (index, item));
    assert forall|i: int, j: int| 0 <= i < j < after.len() implies after[i].0 < after[j].0 by {
        if !has_item(items, index) {
            let before_i = if i < at { i } else { i - 1 };
            let before_j = if j < at { j } else { j - 1 };
            if i != at {
                assert(after[i] == items[before_i]);
            }
            if j != at {
                assert(after[j] == items[before_j]);
            }
        }
    }
    lemma_found(after, index, at);
}

/// Setting one item leaves every other one as it was.
proof fn lemma_other_item(items: Seq<(u32, ItemView)>, index: u32, item: ItemView, other: u32)
    requires
        ordered(items),
        other != index,
        has_item(items, other),
    ensures
        has_item(with_item(items, index, item), other),
        item_at(with_item(items, index, item), other) == item_at(items, other),
{
    lemma_place(items, index, 0);
    lemma_place(items, other, 0);
    lemma_with_item(items, index, item);
    let at = place(items, index);
    let from = place(items, other);
    let after = with_item(items, index, item);
    let to = if has_item(items, index) || from < at { from } else { from + 1 };
    assert(after[to] == items[from]);
    lemma_found(after, other, to);
}

proof fn lemma_observed_sound(writer: WriterView, fact: FactView)
    requires
        sound(writer),
    ensures
        sound(observed(writer, fact).writer),
{
    match fact {
        FactView::ContentAdded(index, kind) => {
            if let Some(meta) = writer.meta {
                let item = ItemView {
                    kind,
                    id: crate::response::item_id(meta, index),
                    call_id: ""@,
                    name: ""@,
                    text: ""@,
                    added: kind != crate::event::ContentKind::ToolCall,
                };
                lemma_with_item(writer.items, index, item);
            }
        },
        FactView::TextDelta(index, text) | FactView::ReasoningDelta(index, text) => {
            let before = item_at(writer.items, index);
            lemma_with_item(
                writer.items,
                index,
                ItemView { text: before.text + text, ..before },
            );
        },
        FactView::ToolCallDelta(index, call_id, name, arguments) => {
            let before = item_at(writer.items, index);
            let called = ItemView { call_id, ..before };
            lemma_with_item(
                writer.items,
                index,
                ItemView { text: before.text + arguments, ..before },
            );
            lemma_with_item(writer.items, index, called);
            if let Some(name) = name {
                let shown = ItemView { name, added: true, ..called };
                lemma_with_item(
                    writer.items,
                    index,
                    ItemView { text: shown.text + arguments, ..shown },
                );
            }
        },
        _ => {},
    }
}

pub proof fn lemma_wires_keep(
    writer: WriterView,
    wires: Seq<WireView>,
    fact: Option<FactView>,
    closing: bool,
    events: Seq<ProviderEventView>,
)
    ensures
        ({
            let done = wires_sent(writer, wires, fact, closing, events);
            done.writer.items == writer.items && done.writer.bytes == writer.bytes
                && done.writer.meta == writer.meta && done.writer.usage == writer.usage
        }),
    decreases wires.len(),
{
    if wires.len() > 0 && writer.sequence < u64::MAX {
        let wire = crate::response::numbered(wires[0], writer.sequence);
        let counted = WriterView { sequence: (writer.sequence + 1) as u64, ..writer };
        if fact is Some && (!closing || wires.len() == 1) {
            let event = ProviderEventView { canonical: writer.pending.push(fact->0), wire };
            lemma_wires_keep(
                WriterView { pending: seq![], ..counted },
                wires.drop_first(),
                None,
                closing,
                events.push(event),
            );
        } else {
            let event = ProviderEventView { canonical: seq![], wire };
            lemma_wires_keep(counted, wires.drop_first(), fact, closing, events.push(event));
        }
    }
}

/// Whatever facts a writer takes in, and whether or not they fit, its items stay in order and
/// its text within the limit.
pub proof fn lemma_writer_stays_sound(
    writer: WriterView,
    facts: Seq<FactView>,
    events: Seq<ProviderEventView>,
)
    requires
        sound(writer),
    ensures
        sound(facts_encoded(writer, facts, events).writer),
    decreases facts.len(),
{
    if facts.len() > 0 {
        let seen = observed(writer, facts[0]);
        lemma_observed_sound(writer, facts[0]);
        lemma_wires_keep(
            seen.writer,
            seen.wires,
            Some(facts[0]),
            facts[0] is Completed,
            events,
        );
        let first = fact_encoded(writer, facts[0], events);
        if first.ok {
            lemma_writer_stays_sound(first.writer, facts.drop_first(), first.events);
        }
    }
}

/// The text that a fact adds to an item.
pub open spec fn added_text(fact: FactView, index: u32) -> Seq<char> {
    match fact {
        FactView::TextDelta(at, text) if at == index => text,
        FactView::ReasoningDelta(at, text) if at == index => text,
        FactView::ToolCallDelta(at, _, _, text) if at == index => text,
        _ => seq![],
    }
}

/// The text that facts add to an item, put together.
pub open spec fn gathered_text(facts: Seq<FactView>, index: u32) -> Seq<char>
    decreases facts.len(),
{
    if facts.len() == 0 {
        seq![]
    } else {
        added_text(facts[0], index) + gathered_text(facts.drop_first(), index)
    }
}

/// Whether a fact makes an item anew.
pub open spec fn renews(fact: FactView, index: u32) -> bool {
    fact matches FactView::ContentAdded(at, _) && at == index
}

proof fn lemma_fact_text(writer: WriterView, fact: FactView, index: u32)
    requires
        sound(writer),
        has_item(writer.items, index),
        !renews(fact, index),
        observed(writer, fact).ok,
    ensures
        has_item(observed(writer, fact).writer.items, index),
        item_at(observed(writer, fact).writer.items, index).text == item_at(
            writer.items,
            index,
        ).text + added_text(fact, index),
        ({
            let before = item_at(writer.items, index);
            let after = item_at(observed(writer, fact).writer.items, index);
            &&& after.kind == before.kind
            &&& after.id == before.id
            &&& match fact {
                FactView::ToolCallDelta(at, id, name, _) if at == index && !before.added => {
                    after.added && after.call_id == id && Some(after.name) == name
                },
                _ => after.added == before.added && after.call_id == before.call_id && after.name
                    == before.name,
            }
        }),
{
    let text = item_at(writer.items, index).text;
    assert(text + Seq::<char>::empty() =~= text);
    match fact {
        FactView::ContentAdded(at, kind) => {
            if let Some(meta) = writer.meta {
                let item = ItemView {
                    kind,
                    id: crate::response::item_id(meta, at),
                    call_id: ""@,
                    name: ""@,
                    text: ""@,
                    added: kind != crate::event::ContentKind::ToolCall,
                };
                lemma_other_item(writer.items, at, item, index);
            }
        },
        FactView::TextDelta(at, text) | FactView::ReasoningDelta(at, text) => {
            let before = item_at(writer.items, at);
            let item = ItemView { text: before.text + text, ..before };
            lemma_with_item(writer.items, at, item);
            if at != index {
                lemma_other_item(writer.items, at, item, index);
            }
        },
        FactView::ToolCallDelta(at, call_id, name, arguments) => {
            let before = item_at(writer.items, at);
            let item = if before.added {
                ItemView { text: before.text + arguments, ..before }
            } else {
                let shown = ItemView { call_id, name: name->0, added: true, ..before };
                ItemView { text: shown.text + arguments, ..shown }
            };
            assert(observed(writer, fact).writer.items == with_item(writer.items, at, item));
            lemma_with_item(writer.items, at, item);
            if at != index {
                lemma_other_item(writer.items, at, item, index);
            }
        },
        _ => {},
    }
}

/// An item's text is exactly what the facts have added to it: nothing is lost, doubled or cut.
pub proof fn lemma_text_is_whole(
    writer: WriterView,
    facts: Seq<FactView>,
    events: Seq<ProviderEventView>,
    index: u32,
)
    requires
        sound(writer),
        has_item(writer.items, index),
        forall|i: int| 0 <= i < facts.len() ==> !renews(#[trigger] facts[i], index),
        facts_encoded(writer, facts, events).ok,
    ensures
        has_item(facts_encoded(writer, facts, events).writer.items, index),
        item_at(facts_encoded(writer, facts, events).writer.items, index).text == item_at(
            writer.items,
            index,
        ).text + gathered_text(facts, index),
    decreases facts.len(),
{
    let text = item_at(writer.items, index).text;
    if facts.len() == 0 {
        assert(text + gathered_text(facts, index) =~= text);
    } else {
        let seen = observed(writer, facts[0]);
        let first = fact_encoded(writer, facts[0], events);
        lemma_fact_text(writer, facts[0], index);
        lemma_observed_sound(writer, facts[0]);
        lemma_wires_keep(
            seen.writer,
            seen.wires,
            Some(facts[0]),
            facts[0] is Completed,
            events,
        );
        assert forall|i: int| 0 <= i < facts.drop_first().len() implies !renews(
            #[trigger] facts.drop_first()[i],
            index,
        ) by {
            assert(facts.drop_first()[i] == facts[i + 1]);
        }
        lemma_text_is_whole(first.writer, facts.drop_first(), first.events, index);
        assert((text + added_text(facts[0], index)) + gathered_text(facts.drop_first(), index)
            =~= text + gathered_text(facts, index));
    }
}

/// More facts, more text.
pub proof fn lemma_gathered_text_push(facts: Seq<FactView>, fact: FactView, index: u32)
    ensures
        gathered_text(facts.push(fact), index) == gathered_text(facts, index) + added_text(
            fact,
            index,
        ),
    decreases facts.len(),
{
    let more = facts.push(fact);
    if facts.len() == 0 {
        assert(more.drop_first() =~= Seq::<FactView>::empty());
        assert(gathered_text(more.drop_first(), index) =~= Seq::<char>::empty());
        assert(more[0] == fact);
        assert(gathered_text(more, index) =~= added_text(fact, index));
        assert(gathered_text(facts, index) + added_text(fact, index) =~= added_text(fact, index));
    } else {
        lemma_gathered_text_push(facts.drop_first(), fact, index);
        assert(more.drop_first() =~= facts.drop_first().push(fact));
        assert(gathered_text(more, index) =~= gathered_text(facts, index) + added_text(
            fact,
            index,
        ));
    }
}

/// Setting one item brings in no other one.
proof fn lemma_no_other_item(items: Seq<(u32, ItemView)>, index: u32, item: ItemView, other: u32)
    requires
        ordered(items),
        other != index,
        !has_item(items, other),
    ensures
        !has_item(with_item(items, index, item), other),
{
    let after = with_item(items, index, item);
    lemma_with_item(items, index, item);
    lemma_place(items, index, 0);
    if has_item(after, other) {
        lemma_place(after, other, 0);
        let at = place(items, index);
        let to = place(after, other);
        let from = if has_item(items, index) || to < at { to } else { to - 1 };
        assert(after[to].0 == other);
        assert(items[from] == after[to]);
        lemma_found(items, other, from);
    }
}

/// Whether there are items for exactly the first `count` indices.
pub open spec fn holds_first(items: Seq<(u32, ItemView)>, count: int) -> bool {
    forall|index: u32| #[trigger] has_item(items, index) <==> index < count
}

/// As what facts have announced an item, if they have.
pub open spec fn kind_told(facts: Seq<FactView>, index: u32) -> Option<ContentKind>
    decreases facts.len(),
{
    if facts.len() == 0 {
        None
    } else {
        match facts.last() {
            FactView::ContentAdded(at, kind) if at == index => Some(kind),
            _ => kind_told(facts.drop_last(), index),
        }
    }
}

/// The identifier and the name that the first fact of a call gives it.
pub open spec fn call_told(facts: Seq<FactView>, index: u32) -> Option<(Seq<char>, Seq<char>)>
    decreases facts.len(),
{
    if facts.len() == 0 {
        None
    } else {
        match call_told(facts.drop_last(), index) {
            Some(call) => Some(call),
            None => match facts.last() {
                FactView::ToolCallDelta(at, id, Some(name), _) if at == index => Some((id, name)),
                _ => None,
            },
        }
    }
}

/// Whether an item is what facts have told of it: of the announced kind, with exactly the text
/// that they brought, and as a call with the identifier and the name that it was first told with.
pub open spec fn is_as_told(item: ItemView, facts: Seq<FactView>, index: u32) -> bool {
    &&& item.text == gathered_text(facts, index)
    &&& kind_told(facts, index) == Some(item.kind)
    &&& item.kind == ContentKind::ToolCall ==> call_told(facts, index) == if item.added {
        Some((item.call_id, item.name))
    } else {
        None
    }
    &&& item.kind != ContentKind::ToolCall ==> item.added
}

/// Whether facts have told nothing of an item.
pub open spec fn untold(facts: Seq<FactView>, index: u32) -> bool {
    &&& gathered_text(facts, index) == Seq::<char>::empty()
    &&& kind_told(facts, index) is None
    &&& call_told(facts, index) is None
}

/// Whether each item is exactly what facts have told of it.
pub open spec fn tells(items: Seq<(u32, ItemView)>, facts: Seq<FactView>) -> bool {
    forall|index: u32|
        (#[trigger] has_item(items, index) ==> is_as_told(item_at(items, index), facts, index)) && (
        !has_item(items, index) ==> untold(facts, index))
}

/// A fact that fits keeps the items telling all that was told, and adds the item that it
/// announces, as long as no item is announced twice.
pub proof fn lemma_observed_tells(writer: WriterView, fact: FactView, facts: Seq<FactView>)
    requires
        sound(writer),
        tells(writer.items, facts),
        observed(writer, fact).ok,
        fact matches FactView::ContentAdded(index, _) ==> !has_item(writer.items, index),
    ensures
        sound(observed(writer, fact).writer),
        forall|index: u32| #[trigger]
            has_item(observed(writer, fact).writer.items, index) <==> has_item(writer.items, index)
                || renews(fact, index),
        tells(observed(writer, fact).writer.items, facts.push(fact)),
{
    lemma_observed_sound(writer, fact);
    let before = writer.items;
    let after = observed(writer, fact).writer.items;
    assert forall|index: u32|
        (has_item(after, index) <==> has_item(before, index) || renews(fact, index)) && (
        #[trigger] has_item(after, index) ==> is_as_told(
            item_at(after, index),
            facts.push(fact),
            index,
        )) && (!has_item(after, index) ==> untold(facts.push(fact), index)) by {
        lemma_gathered_text_push(facts, fact, index);
        assert(facts.push(fact).drop_last() =~= facts);
        let told = gathered_text(facts, index);
        assert(told + Seq::<char>::empty() =~= told);
        if renews(fact, index) {
            if let FactView::ContentAdded(at, kind) = fact {
                if let Some(meta) = writer.meta {
                    let item = ItemView {
                        kind,
                        id: crate::response::item_id(meta, at),
                        call_id: ""@,
                        name: ""@,
                        text: ""@,
                        added: kind != crate::event::ContentKind::ToolCall,
                    };
                    lemma_with_item(before, at, item);
                    reveal_strlit("");
                    assert(""@ =~= Seq::<char>::empty());
                }
            }
        } else if has_item(before, index) {
            lemma_fact_text(writer, fact, index);
        } else {
            lemma_absent_stays_absent(writer, fact, index);
        }
    }
}

/// An item that is not there stays away unless a fact announces it, and no fact that fits tells
/// of it.
proof fn lemma_absent_stays_absent(writer: WriterView, fact: FactView, index: u32)
    requires
        sound(writer),
        observed(writer, fact).ok,
        !has_item(writer.items, index),
        !renews(fact, index),
    ensures
        !has_item(observed(writer, fact).writer.items, index),
        added_text(fact, index) == Seq::<char>::empty(),
        !(fact matches FactView::ToolCallDelta(at, _, _, _) && at == index),
{
    match fact {
        FactView::ContentAdded(at, kind) => {
            if let Some(meta) = writer.meta {
                let item = ItemView {
                    kind,
                    id: crate::response::item_id(meta, at),
                    call_id: ""@,
                    name: ""@,
                    text: ""@,
                    added: kind != crate::event::ContentKind::ToolCall,
                };
                lemma_no_other_item(writer.items, at, item, index);
            }
        },
        FactView::TextDelta(at, text) | FactView::ReasoningDelta(at, text) => {
            let before = item_at(writer.items, at);
            let item = ItemView { text: before.text + text, ..before };
            lemma_no_other_item(writer.items, at, item, index);
        },
        FactView::ToolCallDelta(at, call_id, name, arguments) => {
            let before = item_at(writer.items, at);
            let item = if before.added {
                ItemView { text: before.text + arguments, ..before }
            } else {
                let shown = ItemView { call_id, name: name->0, added: true, ..before };
                ItemView { text: shown.text + arguments, ..shown }
            };
            assert(observed(writer, fact).writer.items == with_item(writer.items, at, item));
            lemma_no_other_item(writer.items, at, item, index);
        },
        _ => {},
    }
}

/// Whether facts announce an item with this index.
pub open spec fn announces(facts: Seq<FactView>, index: u32) -> bool {
    exists|i: int| 0 <= i < facts.len() && renews(#[trigger] facts[i], index)
}

/// Whether no index is announced twice.
pub open spec fn announced_once(facts: Seq<FactView>) -> bool {
    forall|i: int, j: int, index: u32|
        0 <= i < j < facts.len() ==> !(#[trigger] renews(facts[i], index) && #[trigger] renews(
            facts[j],
            index,
        ))
}

proof fn lemma_run_tells(
    writer: WriterView,
    facts: Seq<FactView>,
    events: Seq<ProviderEventView>,
    told: Seq<FactView>,
)
    requires
        sound(writer),
        tells(writer.items, told),
        announced_once(facts),
        forall|index: u32| has_item(writer.items, index) ==> !#[trigger] announces(facts, index),
        facts_encoded(writer, facts, events).ok,
    ensures
        sound(facts_encoded(writer, facts, events).writer),
        tells(facts_encoded(writer, facts, events).writer.items, told + facts),
        forall|index: u32| #[trigger]
            has_item(facts_encoded(writer, facts, events).writer.items, index) <==> has_item(
                writer.items,
                index,
            ) || announces(facts, index),
    decreases facts.len(),
{
    if facts.len() == 0 {
        assert(told + facts =~= told);
    } else {
        let fact = facts[0];
        let rest = facts.drop_first();
        let seen = observed(writer, fact);
        let first = fact_encoded(writer, fact, events);
        assert forall|index: u32| renews(fact, index) implies announces(facts, index) by {
            assert(renews(facts[0], index));
        }
        if let FactView::ContentAdded(index, _) = fact {
            assert(renews(fact, index));
        }
        lemma_observed_tells(writer, fact, told);
        lemma_wires_keep(seen.writer, seen.wires, Some(fact), fact is Completed, events);
        assert forall|index: u32| announces(rest, index) implies announces(facts, index)
            && !renews(fact, index) by {
            let i = choose|i: int| 0 <= i < rest.len() && renews(#[trigger] rest[i], index);
            assert(rest[i] == facts[i + 1]);
            assert(renews(facts[i + 1], index));
            assert(!(renews(facts[0], index) && renews(facts[i + 1], index)));
        }
        assert forall|index: u32| announces(facts, index) implies announces(rest, index)
            || renews(fact, index) by {
            let i = choose|i: int| 0 <= i < facts.len() && renews(#[trigger] facts[i], index);
            if i > 0 {
                assert(rest[i - 1] == facts[i]);
                assert(renews(rest[i - 1], index));
            }
        }
        assert(announced_once(rest)) by {
            assert forall|i: int, j: int, index: u32| 0 <= i < j < rest.len() implies !(
            #[trigger] renews(rest[i], index) && #[trigger] renews(rest[j], index)) by {
                assert(rest[i] == facts[i + 1] && rest[j] == facts[j + 1]);
                assert(!(renews(facts[i + 1], index) && renews(facts[j + 1], index)));
            }
        }
        assert forall|index: u32| has_item(first.writer.items, index) implies !#[trigger] announces(
            rest,
            index,
        ) by {
            assert(has_item(seen.writer.items, index));
        }
        lemma_run_tells(first.writer, rest, first.events, told.push(fact));
        assert(told.push(fact) + rest =~= told + facts);
        assert forall|index: u32| #[trigger]
            has_item(facts_encoded(writer, facts, events).writer.items, index) <==> has_item(
                writer.items,
                index,
            ) || announces(facts, index) by {
            assert(has_item(first.writer.items, index) == has_item(seen.writer.items, index));
        }
    }
}

/// The events among these that report an item as complete.
pub open spec fn item_dones(wires: Seq<WireView>) -> Seq<WireView>
    decreases wires.len(),
{
    if wires.len() == 0 {
        seq![]
    } else if wires.last().event == "response.output_item.done"@ {
        item_dones(wires.drop_last()).push(wires.last())
    } else {
        item_dones(wires.drop_last())
    }
}

/// For each item the event that reports it as complete.
pub open spec fn dones_of(items: Seq<(u32, ItemView)>) -> Seq<WireView> {
    items.map_values(|entry: (u32, ItemView)| item_done_wire(entry.0, entry.1))
}

proof fn lemma_item_dones_push(wires: Seq<WireView>, wire: WireView)
    ensures
        item_dones(wires.push(wire)) == if wire.event == "response.output_item.done"@ {
            item_dones(wires).push(wire)
        } else {
            item_dones(wires)
        },
{
    assert(wires.push(wire).drop_last() =~= wires);
}

proof fn lemma_item_closed_dones(wires: Seq<WireView>, index: u32, item: ItemView)
    ensures
        item_dones(wires + item_closed(index, item)) == item_dones(wires).push(
            item_done_wire(index, item),
        ),
{
    reveal_strlit("response.output_item.done");
    reveal_strlit("response.output_text.done");
    reveal_strlit("response.content_part.done");
    reveal_strlit("response.function_call_arguments.done");
    reveal_strlit("response.reasoning_summary_text.done");
    reveal_strlit("response.reasoning_summary_part.done");
    assert("response.output_item.done"@[16] != "response.output_text.done"@[16]);
    assert("response.output_item.done"@.len() == 25);
    assert("response.content_part.done"@.len() == 26);
    assert("response.function_call_arguments.done"@.len() == 37);
    assert("response.reasoning_summary_text.done"@.len() == 36);
    assert("response.reasoning_summary_part.done"@.len() == 36);
    let text = text_done_wire(index, item);
    let part = part_done_wire(index, item);
    let done = item_done_wire(index, item);
    lemma_item_dones_push(wires, text);
    lemma_item_dones_push(wires.push(text), part);
    if item.kind == ContentKind::ToolCall {
        lemma_item_dones_push(wires.push(text), done);
        assert(wires + item_closed(index, item) =~= wires.push(text).push(done));
    } else {
        lemma_item_dones_push(wires.push(text).push(part), done);
        assert(wires + item_closed(index, item) =~= wires.push(text).push(part).push(done));
    }
}

proof fn lemma_items_closed_dones(items: Seq<(u32, ItemView)>)
    ensures
        item_dones(items_closed(items)) == dones_of(items),
    decreases items.len(),
{
    if items.len() == 0 {
        assert(dones_of(items) =~= item_dones(items_closed(items)));
    } else {
        let front = items.drop_last();
        let (index, item) = items.last();
        lemma_items_closed_dones(front);
        lemma_item_closed_dones(items_closed(front), index, item);
        assert(dones_of(items) =~= dones_of(front).push(item_done_wire(index, item)));
    }
}

/// The end of an answer reports every item as complete, once and in the order of the indices;
/// then it closes with the whole answer, which lists the same items in the same order, as
/// incomplete where the answer was cut off or filtered and as completed otherwise.
pub proof fn lemma_completion_closes_every_item(writer: WriterView, meta: MetaView)
    requires
        writer.meta is Some,
    ensures
        ({
            let seen = observed(writer, FactView::Completed(meta));
            let last = seen.wires.last();
            &&& seen.ok
            &&& seen.wires.len() > 0
            &&& item_dones(seen.wires) == dones_of(writer.items)
            &&& last.event == if meta.finish_reason == Some(FinishReason::Length)
                || meta.finish_reason == Some(FinishReason::ContentFilter) {
                "response.incomplete"@
            } else {
                "response.completed"@
            }
            &&& field(last.data, "type"@) == Some(JsonView::Text(last.event))
            &&& get(field(last.data, "response"@), "output"@) == Some(
                JsonView::Array(output_values(writer.items, true)),
            )
        }),
{
    reveal_strlit("response.output_item.done");
    reveal_strlit("response.incomplete");
    reveal_strlit("response.completed");
    assert("response.output_item.done"@.len() == 25);
    assert("response.incomplete"@.len() == 19 && "response.completed"@.len() == 18);
    reveal_strlit("type");
    reveal_strlit("response");
    reveal_strlit("output");
    reveal_strlit("usage");
    reveal_strlit("error");
    reveal_strlit("incomplete_details");
    assert("type"@.len() == 4 && "response"@.len() == 8 && "output"@.len() == 6);
    assert("usage"@.len() == 5 && "error"@.len() == 5 && "incomplete_details"@.len() == 18);
    let seen = observed(writer, FactView::Completed(meta));
    lemma_items_closed_dones(writer.items);
    lemma_item_dones_push(items_closed(writer.items), seen.wires.last());
    assert(seen.wires =~= items_closed(writer.items).push(seen.wires.last()));
}

/// Whatever order items are announced in, each once: the end of an answer that all its facts
/// fitted repeats exactly the announced items, in the order of their indices, and each as it was
/// told, with all its text.
pub proof fn lemma_completion_repeats_everything(
    facts: Seq<FactView>,
    meta: MetaView,
    place: int,
)
    requires
        announced_once(facts),
        facts_encoded(empty_writer(), facts, seq![]).ok,
        facts_encoded(empty_writer(), facts, seq![]).writer.meta is Some,
    ensures
        ({
            let writer = facts_encoded(empty_writer(), facts, seq![]).writer;
            let seen = observed(writer, FactView::Completed(meta));
            &&& seen.ok
            &&& ordered(writer.items)
            &&& item_dones(seen.wires) == dones_of(writer.items)
            &&& forall|index: u32| #[trigger]
                has_item(writer.items, index) <==> announces(facts, index)
            &&& 0 <= place < writer.items.len() ==> announces(facts, writer.items[place].0)
                && is_as_told(writer.items[place].1, facts, writer.items[place].0)
        }),
{
    let start = empty_writer();
    let writer = facts_encoded(start, facts, seq![]).writer;
    let nothing = Seq::<FactView>::empty();
    assert(tells(start.items, nothing));
    lemma_run_tells(start, facts, seq![], nothing);
    assert(nothing + facts =~= facts);
    lemma_completion_closes_every_item(writer, meta);
    if 0 <= place < writer.items.len() {
        lemma_found(writer.items, writer.items[place].0, place);
    }
}

/// How many bytes of text a fact brings.
pub open spec fn fact_bytes(fact: FactView) -> nat {
    match fact {
        FactView::TextDelta(_, text) => byte_length(text),
        FactView::ReasoningDelta(_, text) => byte_length(text),
        FactView::ToolCallDelta(_, _, _, text) => byte_length(text),
        _ => 0,
    }
}

/// An answer after facts, whether or not they fit.
pub open spec fn observed_run(writer: WriterView, facts: Seq<FactView>) -> WriterView
    decreases facts.len(),
{
    if facts.len() == 0 {
        writer
    } else {
        observed(observed_run(writer, facts.drop_last()), facts.last()).writer
    }
}

/// The text that there was room for, when `taken` bytes were taken before: each piece where it
/// still fits beside what was accepted, and nothing of the others.
pub open spec fn accepted_bytes(taken: nat, pieces: Seq<nat>) -> nat
    decreases pieces.len(),
{
    if pieces.len() == 0 {
        0
    } else {
        let before = accepted_bytes(taken, pieces.drop_last());
        let more = pieces.last();
        if taken + before + more <= TEXT_LIMIT {
            before + more
        } else {
            before
        }
    }
}

/// An answer after room was asked for these pieces of text, whether or not there was any.
pub open spec fn reserved_run(writer: WriterView, pieces: Seq<nat>) -> WriterView
    decreases pieces.len(),
{
    if pieces.len() == 0 {
        writer
    } else {
        let before = reserved_run(writer, pieces.drop_last());
        match reserved(before, pieces.last()) {
            Some(after) => after,
            None => before,
        }
    }
}

/// However often room is asked for, exactly the pieces that fit are counted, never more than the
/// limit, and nothing else of the answer changes. There is room for a further piece exactly where
/// it fits beside the pieces that were accepted.
pub proof fn lemma_reservations_are_counted(writer: WriterView, pieces: Seq<nat>, more: nat)
    requires
        writer.bytes <= TEXT_LIMIT,
    ensures
        ({
            let taken = writer.bytes + accepted_bytes(writer.bytes as nat, pieces);
            let after = reserved_run(writer, pieces);
            &&& taken <= TEXT_LIMIT
            &&& after == WriterView { bytes: taken as usize, ..writer }
            &&& reserved(after, more) is Some <==> taken + more <= TEXT_LIMIT
        }),
    decreases pieces.len(),
{
    if pieces.len() > 0 {
        lemma_reservations_are_counted(writer, pieces.drop_last(), pieces.last());
    }
}

/// How many bytes of text each of the facts brings.
pub open spec fn facts_bytes(facts: Seq<FactView>) -> Seq<nat> {
    facts.map_values(|fact: FactView| fact_bytes(fact))
}

/// The text that is counted is exactly what was accepted, however many facts came and were
/// refused, and never more than the limit. A fact is refused for want of room exactly where its
/// text does not fit beside that; it then changes nothing.
pub proof fn lemma_accepted_text_is_counted(
    writer: WriterView,
    facts: Seq<FactView>,
    fact: FactView,
)
    requires
        sound(writer),
    ensures
        ({
            let before = observed_run(writer, facts);
            &&& before.bytes == writer.bytes + accepted_bytes(
                writer.bytes as nat,
                facts_bytes(facts),
            )
            &&& before.bytes <= TEXT_LIMIT
            &&& before.bytes + fact_bytes(fact) > TEXT_LIMIT ==> observed(before, fact) == refused(
                before,
            )
            &&& before.bytes + fact_bytes(fact) <= TEXT_LIMIT ==> observed(
                before,
                fact,
            ).writer.bytes == before.bytes + fact_bytes(fact)
        }),
    decreases facts.len(),
{
    if facts.len() > 0 {
        lemma_accepted_text_is_counted(writer, facts.drop_last(), facts.last());
        assert(facts_bytes(facts).drop_last() =~= facts_bytes(facts.drop_last()));
    }
}

} // verus!
