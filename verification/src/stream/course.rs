//! In which order an answer is reported: its beginning first, its end last, each once.

use crate::catalog::Protocol;
use crate::event::{FactView, ProviderEventView};
use crate::response::item::WireView;
use crate::response::laws::{accounted, carried};
use crate::response::{fact_encoded, facts_encoded, observed, wires_sent, WriterView};
use crate::stream::laws::{
    begins, continues, input_decoded, lemma_carried_concat, lemma_chat_continues,
    lemma_continued_unfinished, lemma_decoder_stays_orderly, lemma_messages_continue,
    lemma_new_answer_is_orderly, opens, orderly, stream_decoded, unfinished, Input,
};
use crate::stream::new_answer;
use crate::stream::steps::{
    at, chat_step, closing_facts, messages_step, responses_decoded, responses_kind,
    responses_step, written, DecoderView, Step,
};
use crate::stream::whole::lemma_told_grows;
use crate::text::is_blank;
use vstd::prelude::*;

verus! {

/// Sending the events of a fact leaves nothing waiting; without a fact it leaves what waits.
proof fn lemma_sent_leaves_nothing(
    writer: WriterView,
    wires: Seq<WireView>,
    fact: Option<FactView>,
    closing: bool,
    events: Seq<ProviderEventView>,
)
    requires
        wires_sent(writer, wires, fact, closing, events).ok,
        fact is Some ==> wires.len() > 0,
    ensures
        ({
            let pending = wires_sent(writer, wires, fact, closing, events).writer.pending;
            if fact is Some {
                pending.len() == 0
            } else {
                pending == writer.pending
            }
        }),
    decreases wires.len(),
{
    if wires.len() > 0 {
        let wire = crate::response::numbered(wires[0], writer.sequence);
        let counted = WriterView { sequence: (writer.sequence + 1) as u64, ..writer };
        if fact is Some && (!closing || wires.len() == 1) {
            let event = ProviderEventView { canonical: writer.pending.push(fact->0), wire };
            lemma_sent_leaves_nothing(
                WriterView { pending: seq![], ..counted },
                wires.drop_first(),
                None,
                closing,
                events.push(event),
            );
        } else {
            let event = ProviderEventView { canonical: seq![], wire };
            lemma_sent_leaves_nothing(
                counted,
                wires.drop_first(),
                fact,
                closing,
                events.push(event),
            );
        }
    }
}

/// Nothing waits any more once an end has been reported.
proof fn lemma_end_leaves_nothing(
    writer: WriterView,
    facts: Seq<FactView>,
    events: Seq<ProviderEventView>,
)
    requires
        facts.len() > 0,
        facts.last() is Completed,
        facts_encoded(writer, facts, events).ok,
    ensures
        facts_encoded(writer, facts, events).writer.pending.len() == 0,
    decreases facts.len(),
{
    let first = fact_encoded(writer, facts[0], events);
    let rest = facts.drop_first();
    if facts.len() == 1 {
        let seen = observed(writer, facts[0]);
        assert(facts[0] == facts.last());
        assert(seen.wires.len() > 0);
        lemma_sent_leaves_nothing(seen.writer, seen.wires, Some(facts[0]), true, events);
        assert(facts_encoded(first.writer, rest, first.events).writer == first.writer);
    } else {
        assert(rest.last() == facts.last());
        lemma_end_leaves_nothing(first.writer, rest, first.events);
    }
}

/// Whether what was told fits an answer: the beginning first and once where it has begun, the
/// end last and once where it has ended, and then nothing waits.
pub open spec fn told_properly(state: DecoderView, told: Seq<FactView>) -> bool {
    &&& begins(told, state.started)
    &&& if state.terminal {
        told.len() > 0 && told.last() is Completed && unfinished(told.drop_last())
            && state.writer.pending.len() == 0
    } else {
        unfinished(told)
    }
    &&& state.protocol == Protocol::Responses ==> state.writer.pending.len() == 0
}

proof fn lemma_unfinished_concat(first: Seq<FactView>, second: Seq<FactView>)
    requires
        unfinished(first),
        unfinished(second),
    ensures
        unfinished(first + second),
{
    let all = first + second;
    assert forall|i: int| 0 <= i < all.len() implies !(#[trigger] all[i] is Completed) by {
        if i < first.len() {
            assert(all[i] == first[i]);
        } else {
            assert(all[i] == second[i - first.len()]);
        }
    }
}

/// The closing facts come after the beginning and end with the end.
proof fn lemma_closing_is_proper(state: DecoderView, told: Seq<FactView>)
    requires
        begins(told, true),
        unfinished(told),
    ensures
        ({
            let all = told + closing_facts(state);
            begins(all, true) && all.last() is Completed && unfinished(all.drop_last())
        }),
{
    let closing = closing_facts(state);
    let all = told + closing;
    assert(all[0] == told[0]);
    assert forall|i: int| 0 < i < all.len() implies !(#[trigger] all[i] is Started) by {
        if i < told.len() {
            assert(all[i] == told[i]);
        } else {
            assert(all[i] == closing[i - told.len()]);
        }
    }
    assert(all.drop_last() =~= told.push(closing[0]));
    let front = all.drop_last();
    assert forall|i: int| 0 <= i < front.len() implies !(#[trigger] front[i] is Completed) by {
        if i < told.len() {
            assert(front[i] == told[i]);
        }
    }
}

proof fn lemma_closed_course(state: DecoderView, step: Step, sent: Seq<ProviderEventView>)
    requires
        !state.terminal,
        state.started,
        told_properly(state, accounted(sent, state.writer.pending)),
        step == (Step {
            state: DecoderView { terminal: true, ..state },
            facts: closing_facts(state),
            ok: true,
        }),
        written(step).events is Some,
    ensures
        told_properly(
            written(step).state,
            accounted(sent + written(step).events->0, written(step).state.writer.pending),
        ),
{
    lemma_told_grows(state, step, sent);
    lemma_closing_is_proper(state, accounted(sent, state.writer.pending));
    lemma_end_leaves_nothing(state.writer, step.facts, seq![]);
}

proof fn lemma_continued_course(state: DecoderView, step: Step, sent: Seq<ProviderEventView>)
    requires
        !state.terminal,
        state.protocol != Protocol::Responses,
        told_properly(state, accounted(sent, state.writer.pending)),
        continues(at(state, seq![]), step),
        written(step).events is Some,
    ensures
        told_properly(
            written(step).state,
            accounted(sent + written(step).events->0, written(step).state.writer.pending),
        ),
{
    let begun = at(state, seq![]);
    let told = accounted(sent, state.writer.pending);
    assert(told + begun.facts =~= told);
    assert(opens(begun, told));
    lemma_told_grows(state, step, sent);
    lemma_continued_unfinished(begun, step);
    lemma_unfinished_concat(told, step.facts);
}

proof fn lemma_responses_course(
    state: DecoderView,
    input: Input,
    sent: Seq<ProviderEventView>,
)
    requires
        !state.terminal,
        state.protocol == Protocol::Responses,
        input.document is Some,
        told_properly(state, accounted(sent, state.writer.pending)),
        responses_decoded(state, input.event, input.document->0, input.reported).events is Some,
    ensures
        ({
            let decoded = responses_decoded(
                state,
                input.event,
                input.document->0,
                input.reported,
            );
            told_properly(
                decoded.state,
                accounted(sent + decoded.events->0, decoded.state.writer.pending),
            )
        }),
{
    reveal(responses_decoded);
    let value = input.document->0;
    let decoded = responses_decoded(state, input.event, value, input.reported);
    let events = decoded.events->0;
    let step = responses_step(
        at(state, seq![]),
        responses_kind(input.event, value),
        value,
        input.reported,
    );
    let told = accounted(sent, state.writer.pending);
    let after = accounted(sent + events, decoded.state.writer.pending);
    lemma_carried_concat(sent, events);
    assert(events.drop_last() =~= Seq::<ProviderEventView>::empty());
    assert(carried(events.drop_last()) =~= Seq::<FactView>::empty());
    assert(events.last().canonical == step.facts);
    assert(carried(events) =~= step.facts);
    assert(after =~= told + step.facts);
    assert(step.facts.len() > 0 ==> after.last() == step.facts.last());
    assert forall|i: int| 0 <= i < step.facts.len() implies (
    #[trigger] step.facts[i] is Started <==> i == 0 && !state.started) && (
    step.facts[i] is Completed ==> i == step.facts.len() - 1 && step.state.terminal) by {
    }
    assert forall|i: int| 0 < i < after.len() implies !(#[trigger] after[i] is Started) by {
        if i < told.len() {
            assert(after[i] == told[i]);
        } else {
            assert(after[i] == step.facts[i - told.len()]);
        }
    }
    if told.len() > 0 {
        assert(after[0] == told[0]);
    } else if step.facts.len() > 0 {
        assert(after[0] == step.facts[0]);
    }
    if step.state.terminal {
        assert(step.facts.last() is Completed);
        let front = after.drop_last();
        assert forall|i: int| 0 <= i < front.len() implies !(
        #[trigger] front[i] is Completed) by {
            if i < told.len() {
                assert(front[i] == told[i]);
            } else {
                assert(front[i] == step.facts[i - told.len()]);
            }
        }
    } else {
        assert(unfinished(step.facts));
        lemma_unfinished_concat(told, step.facts);
    }
}

/// Every event keeps what was told in its proper order.
proof fn lemma_event_course(state: DecoderView, input: Input, sent: Seq<ProviderEventView>)
    requires
        orderly(state),
        told_properly(state, accounted(sent, state.writer.pending)),
        input_decoded(state, input).events is Some,
    ensures
        told_properly(
            input_decoded(state, input).state,
            accounted(
                sent + input_decoded(state, input).events->0,
                input_decoded(state, input).state.writer.pending,
            ),
        ),
{
    let begun = at(state, seq![]);
    assert(sent + Seq::<ProviderEventView>::empty() =~= sent);
    if state.terminal {
    } else if input.event.data == "[DONE]"@ {
        let step = at(DecoderView { terminal: true, ..state }, closing_facts(state));
        lemma_closed_course(state, step, sent);
    } else if is_blank(input.event.data) {
    } else if let Some(value) = input.document {
        match state.protocol {
            Protocol::Chat => {
                lemma_chat_continues(begun, value, input.reported);
                lemma_continued_course(state, chat_step(begun, value, input.reported), sent);
            },
            Protocol::Messages => {
                let step = messages_step(begun, value);
                lemma_messages_continue(begun, value);
                if continues(begun, step) {
                    lemma_continued_course(state, step, sent);
                } else {
                    assert(Seq::<FactView>::empty() + closing_facts(state) =~= closing_facts(
                        state,
                    ));
                    lemma_closed_course(state, step, sent);
                }
            },
            Protocol::Responses => {
                lemma_responses_course(state, input, sent);
            },
        }
    }
}

proof fn lemma_stream_course(state: DecoderView, inputs: Seq<Input>)
    requires
        orderly(state),
        told_properly(state, state.writer.pending),
        stream_decoded(state, inputs).events is Some,
    ensures
        orderly(stream_decoded(state, inputs).state),
        told_properly(
            stream_decoded(state, inputs).state,
            accounted(
                stream_decoded(state, inputs).events->0,
                stream_decoded(state, inputs).state.writer.pending,
            ),
        ),
    decreases inputs.len(),
{
    if inputs.len() == 0 {
        assert(accounted(seq![], state.writer.pending) =~= state.writer.pending);
    } else {
        let before = stream_decoded(state, inputs.drop_last());
        let input = inputs.last();
        lemma_stream_course(state, inputs.drop_last());
        lemma_event_course(before.state, input, before.events->0);
        lemma_decoder_stays_orderly(
            before.state,
            input.event,
            input.document,
            input.reported,
        );
    }
}

/// However an answer comes, in whatever protocol: of the facts that the client's events carry,
/// the first is the beginning and no other one is; an end is the last of them; and there is an
/// end among them exactly where the answer has ended.
pub proof fn lemma_answer_begins_and_ends_once(
    protocol: Protocol,
    model: Seq<char>,
    id: Seq<char>,
    inputs: Seq<Input>,
)
    requires
        stream_decoded(new_answer(protocol, model, id), inputs).events is Some,
    ensures
        ({
            let answer = stream_decoded(new_answer(protocol, model, id), inputs);
            let told = carried(answer.events->0);
            &&& forall|i: int| 0 <= i < told.len() ==> (#[trigger] told[i] is Started <==> i == 0)
            &&& forall|i: int|
                0 <= i < told.len() && #[trigger] told[i] is Completed ==> i == told.len() - 1
            &&& answer.state.terminal <==> told.len() > 0 && told.last() is Completed
        }),
{
    let start = new_answer(protocol, model, id);
    lemma_new_answer_is_orderly(protocol, model, id);
    lemma_stream_course(start, inputs);
    let answer = stream_decoded(start, inputs);
    let told = carried(answer.events->0);
    let all = accounted(answer.events->0, answer.state.writer.pending);
    assert forall|i: int| 0 <= i < told.len() implies told[i] == #[trigger] all[i] by {
    }
    assert forall|i: int| 0 <= i < told.len() implies (#[trigger] told[i] is Started <==> i
        == 0) by {
        assert(all[i] == told[i]);
    }
    if answer.state.terminal {
        assert(all =~= told);
        assert forall|i: int| 0 <= i < told.len() && #[trigger] told[i] is Completed implies i
            == told.len() - 1 by {
            if i < told.len() - 1 {
                assert(all.drop_last()[i] == told[i]);
            }
        }
    } else {
        assert forall|i: int| 0 <= i < told.len() implies !(#[trigger] told[i] is Completed) by {
            assert(all[i] == told[i]);
        }
    }
}

} // verus!
