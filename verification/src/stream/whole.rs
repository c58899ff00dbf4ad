//! That nothing is lost between the upstream's text and the answer that closes the stream.

use crate::catalog::Protocol;
use crate::event::{ContentKind, FactView, ProviderEventView};
use crate::response::laws::{
    accounted, carried, gathered_text, holds_first, is_as_told, lemma_facts_go_out_once,
    lemma_gathered_text_push, lemma_observed_tells, lemma_wires_keep, sound, tells,
};
use crate::response::{fact_encoded, facts_encoded, has_item, item_at, observed, WriterView};
use crate::stream::laws::{
    announced, in_order, input_decoded, lemma_carried_concat, lemma_chat_continues,
    lemma_decoder_stays_orderly, lemma_messages_continue, lemma_new_answer_is_orderly,
    lemma_slot, orderly, stream_decoded, tallies, tidy, Input,
};
use crate::stream::new_answer;
use crate::stream::steps::{
    at, chat_step, closing_facts, content_ensured, messages_step, slot, started, text_step,
    tool_key, tool_step, written, DecoderView, Step, LAST_CONTENT_INDEX,
};
use vstd::prelude::*;

verus! {

/// What is known of a list of facts that announces content in order is known of it without its
/// first fact.
proof fn lemma_in_order_front(facts: Seq<FactView>, count: int)
    requires
        facts.len() > 0,
        in_order(facts, count),
    ensures
        facts[0] matches FactView::ContentAdded(index, _) ==> index == count,
        ({
            let first: int = if facts[0] is ContentAdded {
                1
            } else {
                0
            };
            &&& in_order(facts.drop_first(), count + first)
            &&& announced(facts) == announced(facts.drop_first()) + first
        }),
    decreases facts.len(),
{
    let rest = facts.drop_first();
    if facts.len() == 1 {
        assert(facts.drop_last() =~= Seq::<FactView>::empty());
        assert(rest =~= Seq::<FactView>::empty());
        assert(facts.last() == facts[0]);
        assert(announced(facts.drop_last()) == 0);
        assert(announced(rest) == 0);
    } else {
        lemma_in_order_front(facts.drop_last(), count);
        assert(facts.drop_last()[0] == facts[0]);
        assert(rest.drop_last() =~= facts.drop_last().drop_first());
        assert(rest.last() == facts.last());
    }
}

/// Facts that fit keep the items telling all that was told.
proof fn lemma_facts_tell(
    writer: WriterView,
    facts: Seq<FactView>,
    events: Seq<ProviderEventView>,
    told: Seq<FactView>,
    count: int,
)
    requires
        sound(writer),
        holds_first(writer.items, count),
        tells(writer.items, told),
        in_order(facts, count),
        facts_encoded(writer, facts, events).ok,
    ensures
        holds_first(facts_encoded(writer, facts, events).writer.items, count + announced(facts)),
        tells(facts_encoded(writer, facts, events).writer.items, told + facts),
    decreases facts.len(),
{
    if facts.len() == 0 {
        assert(told + facts =~= told);
    } else {
        let fact = facts[0];
        let seen = observed(writer, fact);
        let first = fact_encoded(writer, fact, events);
        lemma_in_order_front(facts, count);
        lemma_observed_tells(writer, fact, told);
        lemma_wires_keep(seen.writer, seen.wires, Some(fact), fact is Completed, events);
        let next = if fact is ContentAdded {
            count + 1
        } else {
            count
        };
        assert(holds_first(seen.writer.items, next)) by {
            assert forall|index: u32| #[trigger]
                has_item(seen.writer.items, index) <==> index < next by {
                assert(has_item(writer.items, index) <==> index < count);
            }
        }
        lemma_facts_tell(
            first.writer,
            facts.drop_first(),
            first.events,
            told.push(fact),
            next,
        );
        assert(told.push(fact) + facts.drop_first() =~= told + facts);
    }
}

/// Whether a running answer's items hold exactly the text that was told of them, one item for
/// each piece of content.
pub open spec fn faithful(state: DecoderView, told: Seq<FactView>) -> bool {
    &&& orderly(state)
    &&& holds_first(state.writer.items, state.content.len() as int)
    &&& tells(state.writer.items, told)
}

proof fn lemma_written_faithful(state: DecoderView, step: Step, told: Seq<FactView>)
    requires
        faithful(state, told),
        step.state.writer == state.writer,
        tallies(step, state.content.len() as int),
        written(step).events is Some,
    ensures
        holds_first(
            written(step).state.writer.items,
            written(step).state.content.len() as int,
        ),
        tells(written(step).state.writer.items, told + step.facts),
{
    lemma_facts_tell(
        state.writer,
        step.facts,
        seq![],
        told,
        state.content.len() as int,
    );
}

proof fn lemma_closing_announces_nothing(state: DecoderView)
    ensures
        in_order(closing_facts(state), state.content.len() as int),
        announced(closing_facts(state)) == 0,
{
    let facts = closing_facts(state);
    assert(facts.drop_last() =~= seq![FactView::Usage(state.usage)]);
    assert(facts.drop_last().drop_last() =~= Seq::<FactView>::empty());
    assert(announced(facts.drop_last().drop_last()) == 0);
    assert(announced(facts.drop_last()) == 0);
    assert(in_order(facts.drop_last().drop_last(), state.content.len() as int));
    assert(in_order(facts.drop_last(), state.content.len() as int));
}

/// Every event keeps a running answer faithful to what was told, together with what the event
/// tells.
proof fn lemma_event_faithful(
    state: DecoderView,
    input: Input,
    sent: Seq<ProviderEventView>,
)
    requires
        state.protocol != Protocol::Responses,
        faithful(state, accounted(sent, state.writer.pending)),
        input_decoded(state, input).events is Some,
    ensures
        faithful(
            input_decoded(state, input).state,
            accounted(
                sent + input_decoded(state, input).events->0,
                input_decoded(state, input).state.writer.pending,
            ),
        ),
{
    let told = accounted(sent, state.writer.pending);
    let begun = at(state, seq![]);
    let decoded = input_decoded(state, input);
    let count = state.content.len() as int;
    lemma_decoder_stays_orderly(state, input.event, input.document, input.reported);
    assert(tallies(begun, count));
    let quiet = Seq::<ProviderEventView>::empty();
    assert(sent + quiet =~= sent);
    if state.terminal || (input.event.data != "[DONE]"@ && crate::text::is_blank(
        input.event.data,
    )) {
    } else if input.event.data == "[DONE]"@ {
        let step = at(DecoderView { terminal: true, ..state }, closing_facts(state));
        lemma_closing_announces_nothing(state);
        lemma_told_grows(state, step, sent);
        lemma_written_faithful(state, step, told);
    } else if let Some(value) = input.document {
        match state.protocol {
            Protocol::Chat => {
                let step = chat_step(begun, value, input.reported);
                lemma_chat_continues(begun, value, input.reported);
                assert(tallies(step, count));
                lemma_told_grows(state, step, sent);
                lemma_written_faithful(state, step, told);
            },
            _ => {
                let step = messages_step(begun, value);
                lemma_messages_continue(begun, value);
                lemma_closing_announces_nothing(state);
                assert(Seq::<FactView>::empty() + closing_facts(state) =~= closing_facts(state));
                assert(tallies(step, count));
                lemma_told_grows(state, step, sent);
                lemma_written_faithful(state, step, told);
            },
        }
    }
}

/// What is told grows by exactly the facts of the event.
pub proof fn lemma_told_grows(state: DecoderView, step: Step, sent: Seq<ProviderEventView>)
    requires
        step.state.writer == state.writer,
        written(step).events is Some,
    ensures
        accounted(
            sent + written(step).events->0,
            written(step).state.writer.pending,
        ) == accounted(sent, state.writer.pending) + step.facts,
{
    let done = facts_encoded(state.writer, step.facts, seq![]);
    lemma_facts_go_out_once(state.writer, step.facts, seq![]);
    lemma_carried_concat(sent, done.events);
    assert(accounted(seq![], state.writer.pending) =~= state.writer.pending);
    assert(accounted(sent + done.events, done.writer.pending) =~= carried(sent) + accounted(
        done.events,
        done.writer.pending,
    ));
    assert(carried(sent) + (state.writer.pending + step.facts) =~= accounted(
        sent,
        state.writer.pending,
    ) + step.facts);
}

proof fn lemma_stream_faithful(state: DecoderView, inputs: Seq<Input>)
    requires
        state.protocol != Protocol::Responses,
        faithful(state, state.writer.pending),
        stream_decoded(state, inputs).events is Some,
    ensures
        stream_decoded(state, inputs).state.protocol == state.protocol,
        faithful(
            stream_decoded(state, inputs).state,
            accounted(
                stream_decoded(state, inputs).events->0,
                stream_decoded(state, inputs).state.writer.pending,
            ),
        ),
    decreases inputs.len(),
{
    if inputs.len() == 0 {
        assert(accounted(seq![], state.writer.pending) =~= state.writer.pending);
    } else {
        let before = stream_decoded(state, inputs.drop_last());
        let input = inputs.last();
        lemma_stream_faithful(state, inputs.drop_last());
        lemma_event_faithful(before.state, input, before.events->0);
        lemma_decoder_stays_orderly(
            before.state,
            input.event,
            input.document,
            input.reported,
        );
    }
}

/// However an answer is translated, its items hold at every point exactly the text that the
/// client was told of them or is about to be told, piece by piece in order; so the answer that
/// closes the stream repeats the whole text, with nothing lost, doubled or cut. There is an item
/// for every piece of content and no other.
pub proof fn lemma_answer_is_whole(
    protocol: Protocol,
    model: Seq<char>,
    id: Seq<char>,
    inputs: Seq<Input>,
    index: u32,
)
    requires
        protocol != Protocol::Responses,
        stream_decoded(new_answer(protocol, model, id), inputs).events is Some,
    ensures
        ({
            let answer = stream_decoded(new_answer(protocol, model, id), inputs);
            let told = accounted(answer.events->0, answer.state.writer.pending);
            let items = answer.state.writer.items;
            &&& has_item(items, index) <==> index < answer.state.content.len()
            &&& has_item(items, index) ==> is_as_told(item_at(items, index), told, index)
        }),
{
    let start = new_answer(protocol, model, id);
    lemma_new_answer_is_orderly(protocol, model, id);
    assert(holds_first(start.writer.items, 0));
    assert(tells(start.writer.items, start.writer.pending));
    lemma_stream_faithful(start, inputs);
}

/// Making sure of a piece of content tells no text.
proof fn lemma_ready_tells_nothing(step: Step, key: Seq<char>, kind: ContentKind, index: u32)
    requires
        tidy(step.state.content),
        content_ensured(started(step), key, kind).ok,
        step.ok,
    ensures
        gathered_text(content_ensured(started(step), key, kind).facts, index) == gathered_text(
            step.facts,
            index,
        ),
        slot(content_ensured(started(step), key, kind).state.content, key) == slot(
            step.state.content,
            key,
        ),
        0 <= slot(step.state.content, key) <= LAST_CONTENT_INDEX + 1,
{
    let begun = started(step);
    let ready = content_ensured(begun, key, kind);
    let content = step.state.content;
    let text = gathered_text(step.facts, index);
    assert(text + Seq::<char>::empty() =~= text);
    lemma_gathered_text_push(step.facts, FactView::Started(step.state.meta), index);
    lemma_gathered_text_push(
        begun.facts,
        FactView::ContentAdded(content.len() as u32, kind),
        index,
    );
    lemma_slot(content, key, 0);
    lemma_slot(ready.state.content, key, 0);
    let before = slot(content, key);
    let after = slot(ready.state.content, key);
    if before < content.len() {
        assert(ready.state.content == content);
    } else {
        assert(ready.state.content =~= content.push(key));
        if after < content.len() {
            assert(content[after] == ready.state.content[after]);
        }
        assert(ready.state.content[content.len() as int] == key);
    }
}

/// A text that the upstream sends for a piece of content is told of that piece, whole and after
/// what was told before, and of no other piece.
pub proof fn lemma_text_is_told(
    step: Step,
    text: Seq<char>,
    reasoning: bool,
    key: Seq<char>,
    index: u32,
)
    requires
        step.ok,
        tidy(step.state.content),
        text_step(step, text, reasoning, key).ok,
    ensures
        ({
            let after = text_step(step, text, reasoning, key);
            gathered_text(after.facts, index) == gathered_text(step.facts, index) + (
            if index == slot(after.state.content, key) {
                text
            } else {
                Seq::<char>::empty()
            })
        }),
{
    let told = gathered_text(step.facts, index);
    assert(told + Seq::<char>::empty() =~= told);
    if text.len() == 0 {
        assert(text =~= Seq::<char>::empty());
    } else {
        let kind = if reasoning {
            ContentKind::Reasoning
        } else {
            ContentKind::Text
        };
        let ready = content_ensured(started(step), key, kind);
        let place = slot(step.state.content, key) as u32;
        lemma_ready_tells_nothing(step, key, kind, index);
        lemma_gathered_text_push(ready.facts, FactView::ReasoningDelta(place, text), index);
        lemma_gathered_text_push(ready.facts, FactView::TextDelta(place, text), index);
    }
}

/// Arguments that the upstream sends for a call are told of that call, whole and after what was
/// told before, and of no other piece of content.
pub proof fn lemma_arguments_are_told(step: Step, block: u64, arguments: Seq<char>, index: u32)
    requires
        step.ok,
        tidy(step.state.content),
        tool_step(step, block, arguments).ok,
    ensures
        ({
            let after = tool_step(step, block, arguments);
            gathered_text(after.facts, index) == gathered_text(step.facts, index) + (
            if index == slot(after.state.content, tool_key(block)) {
                arguments
            } else {
                Seq::<char>::empty()
            })
        }),
{
    let tools = step.state.tools;
    let key = tool_key(block);
    let ready = content_ensured(started(step), key, ContentKind::ToolCall);
    let place = slot(step.state.content, key) as u32;
    lemma_ready_tells_nothing(step, key, ContentKind::ToolCall, index);
    lemma_gathered_text_push(
        ready.facts,
        FactView::ToolCallDelta(place, tools[block].0, Some(tools[block].1), arguments),
        index,
    );
}

} // verus!
