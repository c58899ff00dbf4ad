//! What holds of every stream.

use crate::catalog::Protocol;
use crate::event::{ContentKind, FactView, ProviderEventView, TokenUsage};
use crate::json::{as_array, as_text, as_u64, get, present, JsonView};
use crate::response::facts_encoded;
use crate::response::laws::{
    accounted, carried, has_number, kind_told, lemma_facts_go_out_once, lemma_numbers_run_on,
    lemma_writer_stays_sound, numbered_from, sound,
};
use crate::stream::new_answer;
use crate::stream::steps::{
    at, block_delta_step, block_start_step, call_step, calls_step, chat_step, choice_step,
    choices_step, closing_facts, content_ensured, counted, delta_step, event_decoded, fact_added,
    failed, finishing, initial_arguments, maybe_text_step, message_start_step, messages_counted,
    messages_step, moved, named, reasoning_field, reasoning_key, responses_decoded, responses_kind,
    responses_step, slot, slot_from, started, text_key, text_or, text_step, tool_key, tool_step,
    written, Decoded, DecoderView, SseView, Step, LAST_CONTENT_INDEX,
};
use crate::text::is_blank;
use vstd::prelude::*;

verus! {

/// Whether a fact speaks only of the first `count` pieces of content.
pub open spec fn within(fact: FactView, count: int) -> bool {
    match fact {
        FactView::ContentAdded(index, _) => index < count,
        FactView::TextDelta(index, _) => index < count,
        FactView::ReasoningDelta(index, _) => index < count,
        FactView::ToolCallDelta(index, _, _, _) => index < count,
        _ => true,
    }
}

/// Whether the pieces of content have names of their own and are not too many.
pub open spec fn tidy(content: Seq<Seq<char>>) -> bool {
    &&& content.len() <= LAST_CONTENT_INDEX + 1
    &&& forall|i: int, j: int| 0 <= i < j < content.len() ==> content[i] != content[j]
}

/// How many pieces of content facts announce.
pub open spec fn announced(facts: Seq<FactView>) -> nat
    decreases facts.len(),
{
    if facts.len() == 0 {
        0
    } else if facts.last() is ContentAdded {
        announced(facts.drop_last()) + 1
    } else {
        announced(facts.drop_last())
    }
}

/// Whether facts announce pieces of content in the order of their indices, from `count` on.
pub open spec fn in_order(facts: Seq<FactView>, count: int) -> bool
    decreases facts.len(),
{
    facts.len() > 0 ==> in_order(facts.drop_last(), count) && (
    facts.last() matches FactView::ContentAdded(index, _) ==> index == count + announced(
        facts.drop_last(),
    ))
}

/// Whether the pieces of content are the first `count` and those that the facts announce.
pub open spec fn tallies(step: Step, count: int) -> bool {
    in_order(step.facts, count) && step.state.content.len() == count + announced(step.facts)
}

/// Whether facts begin as an answer does that has begun, or has not: with its beginning, which
/// never comes again, or not at all.
pub open spec fn begins(facts: Seq<FactView>, started: bool) -> bool {
    if started {
        facts.len() > 0 && facts[0] is Started && forall|i: int|
            0 < i < facts.len() ==> !(#[trigger] facts[i] is Started)
    } else {
        facts.len() == 0
    }
}

/// Whether what was told before and the facts at hand begin as the answer does.
pub open spec fn opens(step: Step, told: Seq<FactView>) -> bool {
    begins(told + step.facts, step.state.started)
}

/// The kind that the name of a piece of content tells: reasoning, text, or else a call.
pub open spec fn kind_of_name(name: Seq<char>) -> ContentKind {
    if name.len() > 0 && name[0] == 'r' {
        ContentKind::Reasoning
    } else if name.len() > 1 && name[1] == 'e' {
        ContentKind::Text
    } else {
        ContentKind::ToolCall
    }
}

/// Whether a fact that brings text brings it to a piece of content of its own kind.
pub open spec fn fits_kind(fact: FactView, content: Seq<Seq<char>>) -> bool {
    match fact {
        FactView::TextDelta(index, _) => index < content.len() && kind_of_name(
            content[index as int],
        ) == ContentKind::Text,
        FactView::ReasoningDelta(index, _) => index < content.len() && kind_of_name(
            content[index as int],
        ) == ContentKind::Reasoning,
        FactView::ToolCallDelta(index, _, _, _) => index < content.len() && kind_of_name(
            content[index as int],
        ) == ContentKind::ToolCall,
        _ => true,
    }
}

/// Whether what was told before and the facts at hand announce each piece of content as the kind
/// that its name tells, and bring to it only what is of that kind.
pub open spec fn kinded(step: Step, told: Seq<FactView>) -> bool {
    let all = told + step.facts;
    &&& forall|i: int|
        0 <= i < step.state.content.len() ==> kind_told(all, i as u32) == Some(
            kind_of_name(#[trigger] step.state.content[i]),
        )
    &&& forall|k: int| 0 <= k < all.len() ==> fits_kind(#[trigger] all[k], step.state.content)
}

/// One more fact leaves every piece of content to its kind.
proof fn lemma_kinded_push(before: Step, after: Step, fact: FactView)
    requires
        tidy(before.state.content),
        after.facts == before.facts.push(fact),
        fits_kind(fact, after.state.content),
        match fact {
            FactView::ContentAdded(index, kind) => {
                &&& index == before.state.content.len()
                &&& after.state.content.len() == index + 1
                &&& after.state.content.drop_last() == before.state.content
                &&& kind_of_name(after.state.content.last()) == kind
            },
            _ => after.state.content == before.state.content,
        },
    ensures
        forall|told: Seq<FactView>| #[trigger] kinded(before, told) ==> kinded(after, told),
{
    let content = after.state.content;
    assert forall|told: Seq<FactView>| #[trigger] kinded(before, told) implies kinded(
        after,
        told,
    ) by {
        let all = told + before.facts;
        let more = told + after.facts;
        assert(more =~= all.push(fact));
        assert(more.drop_last() =~= all);
        assert forall|i: int| 0 <= i < content.len() implies kind_told(more, i as u32) == Some(
            kind_of_name(#[trigger] content[i]),
        ) by {
            if i < before.state.content.len() {
                assert(before.state.content[i] == content[i]);
            }
        }
        assert forall|k: int| 0 <= k < more.len() implies fits_kind(#[trigger] more[k], content) by {
            if k < all.len() {
                assert(more[k] == all[k]);
                assert(fits_kind(all[k], before.state.content));
                assert(forall|i: int|
                    0 <= i < before.state.content.len() ==> before.state.content[i]
                        == #[trigger] content[i]);
            }
        }
    }
}

/// What the names of pieces of content tell.
pub proof fn lemma_names_tell_kinds(block: u64)
    ensures
        kind_of_name("text"@) == ContentKind::Text,
        kind_of_name("reasoning"@) == ContentKind::Reasoning,
        kind_of_name(text_key(block)) == ContentKind::Text,
        kind_of_name(reasoning_key(block)) == ContentKind::Reasoning,
        kind_of_name(tool_key(block)) == ContentKind::ToolCall,
{
    reveal_strlit("text");
    reveal_strlit("reasoning");
    reveal_strlit("text:");
    reveal_strlit("reasoning:");
    reveal_strlit("tool:");
    assert(text_key(block)[0] == 't' && text_key(block)[1] == 'e');
    assert(reasoning_key(block)[0] == 'r');
    assert(tool_key(block)[0] == 't' && tool_key(block)[1] == 'o');
}

/// What a step inside an answer keeps: the protocol, whatever has begun, the index of every piece
/// of content, the facts so far and the writer; it neither ends the answer nor reports an end,
/// speaks of known content only, announces what is new in the order of its indices, reports the
/// beginning first and once, and brings to each piece of content only what is of its kind.
pub open spec fn continues(before: Step, after: Step) -> bool {
    &&& after.state.protocol == before.state.protocol
    &&& before.state.started ==> after.state.started
    &&& after.state.terminal == before.state.terminal
    &&& after.state.writer == before.state.writer
    &&& before.state.content.is_prefix_of(after.state.content)
    &&& tidy(after.state.content)
    &&& before.facts.is_prefix_of(after.facts)
    &&& forall|i: int|
        before.facts.len() <= i < after.facts.len() ==> !(#[trigger] after.facts[i] is Completed)
            && within(after.facts[i], after.state.content.len() as int)
    &&& forall|count: int| #[trigger] tallies(before, count) ==> tallies(after, count)
    &&& forall|told: Seq<FactView>| #[trigger] opens(before, told) ==> opens(after, told)
    &&& forall|told: Seq<FactView>| #[trigger] kinded(before, told) ==> kinded(after, told)
}

/// More facts of an answer that has begun leave its beginning as it is.
proof fn lemma_opens_push(before: Step, after: Step, fact: FactView)
    requires
        after.facts == before.facts.push(fact),
        if before.state.started {
            after.state.started && !(fact is Started)
        } else {
            after.state.started && fact is Started
        },
    ensures
        forall|told: Seq<FactView>| #[trigger] opens(before, told) ==> opens(after, told),
{
    assert forall|told: Seq<FactView>| #[trigger] opens(before, told) implies opens(
        after,
        told,
    ) by {
        let all = told + before.facts;
        let more = told + after.facts;
        assert(more =~= all.push(fact));
        if before.state.started {
            assert(more[0] == all[0]);
            assert forall|i: int| 0 < i < more.len() implies !(#[trigger] more[i] is Started) by {
                if i < all.len() {
                    assert(more[i] == all[i]);
                }
            }
        }
    }
}

proof fn lemma_continues_trans(first: Step, second: Step, third: Step)
    requires
        continues(first, second),
        continues(second, third),
    ensures
        continues(first, third),
{
    assert(first.state.content =~= third.state.content.subrange(
        0,
        first.state.content.len() as int,
    ));
    assert(first.facts =~= third.facts.subrange(0, first.facts.len() as int));
    assert forall|i: int| first.facts.len() <= i < third.facts.len() implies !(
    #[trigger] third.facts[i] is Completed) && within(
        third.facts[i],
        third.state.content.len() as int,
    ) by {
        if i < second.facts.len() {
            assert(third.facts[i] == second.facts[i]);
        }
    }
}

proof fn lemma_fact_continues(step: Step, fact: FactView)
    requires
        tidy(step.state.content),
        step.state.started,
        !(fact is Started),
        !(fact is Completed),
        !(fact is ContentAdded),
        within(fact, step.state.content.len() as int),
        fits_kind(fact, step.state.content),
    ensures
        continues(step, fact_added(step, fact)),
{
    lemma_kinded_push(step, fact_added(step, fact), fact);
    assert(step.facts =~= fact_added(step, fact).facts.subrange(0, step.facts.len() as int));
    assert(fact_added(step, fact).facts.drop_last() =~= step.facts);
    lemma_opens_push(step, fact_added(step, fact), fact);
}

proof fn lemma_started_continues(step: Step)
    requires
        tidy(step.state.content),
    ensures
        continues(step, started(step)),
        started(step).state.started,
        started(step).ok == step.ok,
{
    assert(step.facts =~= started(step).facts.subrange(0, step.facts.len() as int));
    if !step.state.started {
        assert(started(step).facts.drop_last() =~= step.facts);
        lemma_opens_push(step, started(step), FactView::Started(step.state.meta));
        lemma_kinded_push(step, started(step), FactView::Started(step.state.meta));
    }
}

pub proof fn lemma_slot(content: Seq<Seq<char>>, key: Seq<char>, from: int)
    requires
        0 <= from <= content.len(),
        forall|i: int| 0 <= i < from ==> content[i] != key,
    ensures
        ({
            let found = slot_from(content, key, from);
            &&& from <= found <= content.len()
            &&& forall|i: int| 0 <= i < found ==> content[i] != key
            &&& found < content.len() ==> content[found] == key
        }),
    decreases content.len() - from,
{
    if from < content.len() && content[from] != key {
        lemma_slot(content, key, from + 1);
    }
}

proof fn lemma_content_continues(step: Step, key: Seq<char>, kind: ContentKind)
    requires
        step.state.started,
        tidy(step.state.content),
        kind_of_name(key) == kind,
    ensures
        ({
            let after = content_ensured(step, key, kind);
            &&& continues(step, after)
            &&& after.ok && step.ok ==> slot(step.state.content, key) < after.state.content.len()
                && after.state.content[slot(step.state.content, key)] == key
            &&& 0 <= slot(step.state.content, key) <= LAST_CONTENT_INDEX + 1
        }),
{
    let after = content_ensured(step, key, kind);
    lemma_slot(step.state.content, key, 0);
    if after.facts.len() > step.facts.len() {
        assert(after.facts.drop_last() =~= step.facts);
        lemma_opens_push(step, after, after.facts.last());
        assert(after.state.content.drop_last() =~= step.state.content);
        lemma_kinded_push(step, after, after.facts.last());
    }
    assert(step.facts =~= after.facts.subrange(0, step.facts.len() as int));
    assert(step.state.content =~= after.state.content.subrange(
        0,
        step.state.content.len() as int,
    ));
}

proof fn lemma_text_continues(step: Step, text: Seq<char>, reasoning: bool, key: Seq<char>)
    requires
        step.ok,
        tidy(step.state.content),
        kind_of_name(key) == if reasoning {
            ContentKind::Reasoning
        } else {
            ContentKind::Text
        },
    ensures
        continues(step, text_step(step, text, reasoning, key)),
{
    if text.len() > 0 {
        let kind = if reasoning {
            ContentKind::Reasoning
        } else {
            ContentKind::Text
        };
        let begun = started(step);
        let ready = content_ensured(begun, key, kind);
        lemma_started_continues(step);
        lemma_content_continues(begun, key, kind);
        lemma_continues_trans(step, begun, ready);
        if ready.ok {
            let index = slot(step.state.content, key) as u32;
            let fact = if reasoning {
                FactView::ReasoningDelta(index, text)
            } else {
                FactView::TextDelta(index, text)
            };
            lemma_fact_continues(ready, fact);
            lemma_continues_trans(step, ready, fact_added(ready, fact));
        }
    } else {
        assert(step.facts =~= step.facts.subrange(0, step.facts.len() as int));
        assert(step.state.content =~= step.state.content.subrange(
            0,
            step.state.content.len() as int,
        ));
    }
}

/// A step that changes neither the content nor the facts.
proof fn lemma_quiet_continues(before: Step, after: Step)
    requires
        tidy(before.state.content),
        after.state.protocol == before.state.protocol,
        after.state.started == before.state.started,
        after.state.terminal == before.state.terminal,
        after.state.writer == before.state.writer,
        after.state.content == before.state.content,
        after.facts == before.facts,
    ensures
        continues(before, after),
{
    assert(before.facts =~= after.facts.subrange(0, before.facts.len() as int));
    assert(before.state.content =~= after.state.content.subrange(
        0,
        before.state.content.len() as int,
    ));
}

proof fn lemma_tool_continues(step: Step, block: u64, arguments: Seq<char>)
    requires
        step.ok,
        tidy(step.state.content),
    ensures
        continues(step, tool_step(step, block, arguments)),
{
    let tools = step.state.tools;
    let after = tool_step(step, block, arguments);
    lemma_names_tell_kinds(block);
    if !tools.contains_key(block) || tools[block].0.len() == 0 || tools[block].1.len() == 0 {
        lemma_quiet_continues(step, after);
    } else {
        let begun = started(step);
        let ready = content_ensured(begun, tool_key(block), ContentKind::ToolCall);
        lemma_started_continues(step);
        lemma_content_continues(begun, tool_key(block), ContentKind::ToolCall);
        lemma_continues_trans(step, begun, ready);
        if ready.ok {
            let index = slot(step.state.content, tool_key(block)) as u32;
            let fact = FactView::ToolCallDelta(
                index,
                tools[block].0,
                Some(tools[block].1),
                arguments,
            );
            lemma_fact_continues(ready, fact);
            lemma_continues_trans(step, ready, after);
        }
    }
}

proof fn lemma_call_continues(step: Step, call: JsonView)
    requires
        step.ok,
        tidy(step.state.content),
    ensures
        continues(step, call_step(step, call)),
{
    reveal(call_step);
    match as_u64(get(Some(call), "index"@)) {
        None => {
            lemma_quiet_continues(step, failed(step));
        },
        Some(block) => {
            let tools = step.state.tools;
            let known = if tools.contains_key(block) {
                tools[block]
            } else {
                (seq![], seq![])
            };
            let function = get(Some(call), "function"@);
            let entry = (
                text_or(get(Some(call), "id"@), known.0),
                known.1 + text_or(get(function, "name"@), seq![]),
            );
            let entered = moved(
                step,
                DecoderView { tools: tools.insert(block, entry), ..step.state },
            );
            lemma_quiet_continues(step, entered);
            lemma_tool_continues(entered, block, text_or(get(function, "arguments"@), ""@));
            lemma_continues_trans(step, entered, call_step(step, call));
        },
    }
}

proof fn lemma_calls_continue(step: Step, calls: Seq<JsonView>)
    requires
        tidy(step.state.content),
    ensures
        continues(step, calls_step(step, calls)),
    decreases calls.len(),
{
    if calls.len() == 0 || !step.ok {
        lemma_quiet_continues(step, step);
    } else {
        let first = call_step(step, calls[0]);
        lemma_call_continues(step, calls[0]);
        lemma_calls_continue(first, calls.drop_first());
        lemma_continues_trans(step, first, calls_step(step, calls));
    }
}

proof fn lemma_maybe_text_continues(
    step: Step,
    value: Option<JsonView>,
    reasoning: bool,
    key: Seq<char>,
)
    requires
        tidy(step.state.content),
        kind_of_name(key) == if reasoning {
            ContentKind::Reasoning
        } else {
            ContentKind::Text
        },
    ensures
        continues(step, maybe_text_step(step, value, reasoning, key)),
{
    lemma_quiet_continues(step, step);
    if let Some(text) = as_text(value) {
        if step.ok {
            lemma_text_continues(step, text, reasoning, key);
        }
    }
}

proof fn lemma_delta_continues(step: Step, delta: JsonView)
    requires
        tidy(step.state.content),
    ensures
        continues(step, delta_step(step, delta)),
{
    let spoken = maybe_text_step(step, get(Some(delta), "content"@), false, "text"@);
    let reasoned = maybe_text_step(spoken, reasoning_field(delta), true, "reasoning"@);
    lemma_names_tell_kinds(0);
    lemma_maybe_text_continues(step, get(Some(delta), "content"@), false, "text"@);
    lemma_maybe_text_continues(spoken, reasoning_field(delta), true, "reasoning"@);
    lemma_continues_trans(step, spoken, reasoned);
    if let Some(calls) = as_array(get(Some(delta), "tool_calls"@)) {
        lemma_calls_continue(reasoned, calls);
        lemma_continues_trans(step, reasoned, calls_step(reasoned, calls));
    }
}

proof fn lemma_choice_continues(step: Step, choice: JsonView)
    requires
        step.ok,
        tidy(step.state.content),
    ensures
        continues(step, choice_step(step, choice)),
{
    reveal(choice_step);
    lemma_quiet_continues(step, failed(step));
    let begun = started(step);
    lemma_started_continues(step);
    let told = match get(Some(choice), "delta"@) {
        Some(delta) => delta_step(begun, delta),
        None => begun,
    };
    if let Some(delta) = get(Some(choice), "delta"@) {
        lemma_delta_continues(begun, delta);
        lemma_continues_trans(step, begun, told);
    }
    let ended = moved(told, finishing(told.state, get(Some(choice), "finish_reason"@)));
    lemma_quiet_continues(told, ended);
    lemma_continues_trans(step, told, ended);
}

proof fn lemma_choices_continue(step: Step, choices: Seq<JsonView>)
    requires
        tidy(step.state.content),
    ensures
        continues(step, choices_step(step, choices)),
    decreases choices.len(),
{
    if choices.len() == 0 || !step.ok {
        lemma_quiet_continues(step, step);
    } else {
        let first = choice_step(step, choices[0]);
        lemma_choice_continues(step, choices[0]);
        lemma_choices_continue(first, choices.drop_first());
        lemma_continues_trans(step, first, choices_step(step, choices));
    }
}

/// No event of Chat that carries a document ends an answer; the end mark does.
pub proof fn lemma_chat_continues(step: Step, value: JsonView, reported: Option<TokenUsage>)
    requires
        tidy(step.state.content),
    ensures
        continues(step, chat_step(step, value, reported)),
{
    reveal(chat_step);
    let begun = if present(get(Some(value), "usage"@)) {
        moved(step, counted(step.state, reported))
    } else {
        step
    };
    lemma_quiet_continues(step, begun);
    lemma_quiet_continues(step, failed(begun));
    if let Some(choices) = as_array(get(Some(value), "choices"@)) {
        lemma_choices_continue(begun, choices);
        lemma_continues_trans(step, begun, choices_step(begun, choices));
    }
}

proof fn lemma_block_start_continues(step: Step, value: JsonView)
    requires
        step.ok,
        tidy(step.state.content),
    ensures
        continues(step, block_start_step(step, value)),
{
    reveal(block_start_step);
    lemma_quiet_continues(step, step);
    lemma_quiet_continues(step, failed(step));
    if let (Some(index), Some(block)) = (
        as_u64(get(Some(value), "index"@)),
        get(Some(value), "content_block"@),
    ) {
        lemma_names_tell_kinds(index);
        lemma_text_continues(
            step,
            text_or(get(Some(block), "text"@), ""@),
            false,
            text_key(index),
        );
        lemma_text_continues(
            step,
            text_or(get(Some(block), "thinking"@), ""@),
            true,
            reasoning_key(index),
        );
        if let (Some(id), Some(name)) = (
            as_text(get(Some(block), "id"@)),
            as_text(get(Some(block), "name"@)),
        ) {
            let entered = moved(
                step,
                DecoderView {
                    tools: step.state.tools.insert(index, (id, name)),
                    ..step.state
                },
            );
            lemma_quiet_continues(step, entered);
            lemma_tool_continues(entered, index, initial_arguments(block));
            lemma_continues_trans(
                step,
                entered,
                tool_step(entered, index, initial_arguments(block)),
            );
        }
    }
}

proof fn lemma_block_delta_continues(step: Step, value: JsonView)
    requires
        step.ok,
        tidy(step.state.content),
    ensures
        continues(step, block_delta_step(step, value)),
{
    reveal(block_delta_step);
    lemma_quiet_continues(step, step);
    lemma_quiet_continues(step, failed(step));
    if let (Some(index), Some(delta)) = (
        as_u64(get(Some(value), "index"@)),
        get(Some(value), "delta"@),
    ) {
        lemma_names_tell_kinds(index);
        if let Some(text) = as_text(get(Some(delta), "text"@)) {
            lemma_text_continues(step, text, false, text_key(index));
        }
        if let Some(text) = as_text(get(Some(delta), "thinking"@)) {
            lemma_text_continues(step, text, true, reasoning_key(index));
        }
        if let Some(text) = as_text(get(Some(delta), "partial_json"@)) {
            lemma_tool_continues(step, index, text);
        }
    }
}

proof fn lemma_message_start_continues(step: Step, value: JsonView)
    requires
        tidy(step.state.content),
    ensures
        continues(step, message_start_step(step, value)),
{
    let described = match get(Some(value), "message"@) {
        None => step,
        Some(message) => moved(
            step,
            messages_counted(named(step.state, message), get(Some(message), "usage"@)),
        ),
    };
    lemma_quiet_continues(step, described);
    lemma_started_continues(described);
    lemma_continues_trans(step, described, started(described));
}

/// In the Messages protocol only `message_stop` ends an answer, and only one that has begun and
/// has named a reason to end.
pub proof fn lemma_messages_continue(step: Step, value: JsonView)
    requires
        step.ok,
        tidy(step.state.content),
    ensures
        ({
            let after = messages_step(step, value);
            ||| continues(step, after)
            ||| {
                &&& as_text(get(Some(value), "type"@)) == Some("message_stop"@)
                &&& step.state.started
                &&& step.state.finish_seen
                &&& after == (Step {
                    state: DecoderView { terminal: true, ..step.state },
                    facts: step.facts + closing_facts(step.state),
                    ok: true,
                })
            }
        }),
{
    reveal(messages_step);
    reveal_strlit("");
    reveal_strlit("message_stop");
    assert(""@.len() != "message_stop"@.len());
    lemma_quiet_continues(step, step);
    lemma_quiet_continues(step, failed(step));
    lemma_message_start_continues(step, value);
    lemma_block_start_continues(step, value);
    lemma_block_delta_continues(step, value);
    let told = moved(
        step,
        messages_counted(
            finishing(step.state, get(get(Some(value), "delta"@), "stop_reason"@)),
            get(Some(value), "usage"@),
        ),
    );
    lemma_quiet_continues(step, told);
}

/// After the end nothing changes an answer, and nothing more reaches the client.
pub proof fn lemma_nothing_after_the_end(
    state: DecoderView,
    event: SseView,
    document: Option<JsonView>,
    reported: Option<TokenUsage>,
)
    requires
        state.terminal,
    ensures
        event_decoded(state, event, document, reported).state == state,
        event_decoded(state, event, document, reported).events == Some(
            Seq::<ProviderEventView>::empty(),
        ),
{
}

/// Whether an event is the explicit end of an answer: Chat's end mark or the Messages protocol's
/// `message_stop`, each after a beginning and a reason to end, or the Responses protocol's own.
pub open spec fn explicit_end(
    state: DecoderView,
    event: SseView,
    document: Option<JsonView>,
) -> bool {
    match state.protocol {
        Protocol::Chat => event.data == "[DONE]"@ && state.started && state.finish_seen,
        Protocol::Messages => document is Some && as_text(get(document, "type"@)) == Some(
            "message_stop"@,
        ) && state.started && state.finish_seen,
        Protocol::Responses => document is Some && (responses_kind(event, document->0)
            == "response.completed"@ || responses_kind(event, document->0)
            == "response.incomplete"@),
    }
}

/// An answer ends only with an explicit end: a stream that breaks off has not completed it.
pub proof fn lemma_only_an_explicit_end(
    state: DecoderView,
    event: SseView,
    document: Option<JsonView>,
    reported: Option<TokenUsage>,
)
    requires
        tidy(state.content),
        !state.terminal,
        event_decoded(state, event, document, reported).state.terminal,
    ensures
        explicit_end(state, event, document),
{
    reveal(responses_decoded);
    if let Some(value) = document {
        lemma_chat_continues(at(state, seq![]), value, reported);
        lemma_messages_continue(at(state, seq![]), value);
    }
}

/// What every decoder keeps, whether or not an event makes sense.
pub open spec fn orderly(state: DecoderView) -> bool {
    tidy(state.content) && sound(state.writer)
}

/// Every event keeps the decoder orderly and every piece of content at its index.
pub proof fn lemma_decoder_stays_orderly(
    state: DecoderView,
    event: SseView,
    document: Option<JsonView>,
    reported: Option<TokenUsage>,
)
    requires
        orderly(state),
    ensures
        orderly(event_decoded(state, event, document, reported).state),
        state.content.is_prefix_of(event_decoded(state, event, document, reported).state.content),
        event_decoded(state, event, document, reported).state.protocol == state.protocol,
        state.started ==> event_decoded(state, event, document, reported).state.started,
{
    reveal(responses_decoded);
    assert(state.content.is_prefix_of(state.content)) by {
        assert(state.content =~= state.content.subrange(0, state.content.len() as int));
    }
    lemma_writer_stays_sound(state.writer, closing_facts(state), seq![]);
    if let Some(value) = document {
        let begun = at(state, seq![]);
        lemma_chat_continues(begun, value, reported);
        lemma_messages_continue(begun, value);
        let chat = chat_step(begun, value, reported);
        lemma_writer_stays_sound(chat.state.writer, chat.facts, seq![]);
        let messages = messages_step(begun, value);
        lemma_writer_stays_sound(messages.state.writer, messages.facts, seq![]);
    }
}

/// An event of the Responses protocol that is not refused reaches the client as it came: the
/// same document under the same name, once.
pub proof fn lemma_responses_pass_events_through(
    state: DecoderView,
    event: SseView,
    value: JsonView,
    reported: Option<TokenUsage>,
)
    ensures
        responses_decoded(state, event, value, reported).events matches Some(events) ==> {
            &&& events.len() == 1
            &&& events[0].wire.data == value
            &&& events[0].wire.event == event.event
            &&& events[0].wire.id == event.id
            &&& events[0].wire.retry == event.retry
        },
{
    reveal(responses_decoded);
}

/// Whether none of the facts reports an end.
pub open spec fn unfinished(facts: Seq<FactView>) -> bool {
    forall|i: int| 0 <= i < facts.len() ==> !(#[trigger] facts[i] is Completed)
}

proof fn lemma_written_unfinished(step: Step)
    requires
        unfinished(step.state.writer.pending),
        unfinished(step.facts),
        written(step).events is Some,
    ensures
        unfinished(carried(written(step).events->0)),
        unfinished(written(step).state.writer.pending),
{
    let writer = step.state.writer;
    let done = facts_encoded(writer, step.facts, seq![]);
    lemma_facts_go_out_once(writer, step.facts, seq![]);
    let all = accounted(done.events, done.writer.pending);
    assert(accounted(seq![], writer.pending) =~= writer.pending);
    assert(unfinished(all)) by {
        assert forall|i: int| 0 <= i < all.len() implies !(#[trigger] all[i] is Completed) by {
            if i < writer.pending.len() {
                assert(all[i] == writer.pending[i]);
            } else {
                assert(all[i] == step.facts[i - writer.pending.len()]);
            }
        }
    }
    let out = carried(done.events);
    assert forall|i: int| 0 <= i < out.len() implies !(#[trigger] out[i] is Completed) by {
        assert(all[i] == out[i]);
    }
    assert forall|i: int| 0 <= i < done.writer.pending.len() implies !(
    #[trigger] done.writer.pending[i] is Completed) by {
        assert(all[out.len() + i] == done.writer.pending[i]);
    }
}

pub proof fn lemma_continued_unfinished(before: Step, after: Step)
    requires
        continues(before, after),
        unfinished(before.facts),
    ensures
        unfinished(after.facts),
{
    assert forall|i: int| 0 <= i < after.facts.len() implies !(
    #[trigger] after.facts[i] is Completed) by {
        if i < before.facts.len() {
            assert(after.facts[i] == before.facts[i]);
        }
    }
}

/// The end of an answer is reported only with an explicit end, whatever came before.
pub proof fn lemma_end_is_reported_at_the_end(
    state: DecoderView,
    event: SseView,
    document: Option<JsonView>,
    reported: Option<TokenUsage>,
)
    requires
        orderly(state),
        unfinished(state.writer.pending),
        !explicit_end(state, event, document),
    ensures
        ({
            let decoded = event_decoded(state, event, document, reported);
            decoded.events matches Some(events) ==> unfinished(carried(events)) && unfinished(
                decoded.state.writer.pending,
            )
        }),
{
    reveal(responses_decoded);
    let begun = at(state, seq![]);
    let decoded = event_decoded(state, event, document, reported);
    assert(carried(seq![]) =~= seq![]);
    if !state.terminal && event.data != "[DONE]"@ && !is_blank(event.data) {
        if let Some(value) = document {
            match state.protocol {
                Protocol::Chat => {
                    let step = chat_step(begun, value, reported);
                    lemma_chat_continues(begun, value, reported);
                    lemma_continued_unfinished(begun, step);
                    if decoded.events is Some {
                        lemma_written_unfinished(step);
                    }
                },
                Protocol::Messages => {
                    let step = messages_step(begun, value);
                    lemma_messages_continue(begun, value);
                    lemma_continued_unfinished(begun, step);
                    if decoded.events is Some {
                        lemma_written_unfinished(step);
                    }
                },
                Protocol::Responses => {
                    let kind = responses_kind(event, value);
                    let step = responses_step(begun, kind, value, reported);
                    assert(unfinished(step.facts));
                    if let Some(events) = decoded.events {
                        assert(events.drop_last() =~= seq![]);
                        assert(carried(events) =~= step.facts);
                    }
                },
            }
        }
    }
}

/// One event of a stream: as it came, what its text was read as, and the counters that its usage
/// report was read as.
pub struct Input {
    pub event: SseView,
    pub document: Option<JsonView>,
    pub reported: Option<TokenUsage>,
}

pub open spec fn input_decoded(state: DecoderView, input: Input) -> Decoded {
    event_decoded(state, input.event, input.document, input.reported)
}

/// An answer after a whole stream, and everything that the client got; nothing where an event
/// breaks the protocol.
pub open spec fn stream_decoded(state: DecoderView, inputs: Seq<Input>) -> Decoded
    decreases inputs.len(),
{
    if inputs.len() == 0 {
        Decoded { state, events: Some(seq![]) }
    } else {
        let before = stream_decoded(state, inputs.drop_last());
        match before.events {
            None => before,
            Some(sent) => {
                let last = input_decoded(before.state, inputs.last());
                Decoded {
                    state: last.state,
                    events: match last.events {
                        Some(events) => Some(sent + events),
                        None => None,
                    },
                }
            },
        }
    }
}

/// A new answer is orderly, and nothing waits to be reported.
pub proof fn lemma_new_answer_is_orderly(protocol: Protocol, model: Seq<char>, id: Seq<char>)
    ensures
        orderly(new_answer(protocol, model, id)),
        unfinished(new_answer(protocol, model, id).writer.pending),
        !new_answer(protocol, model, id).terminal,
{
}

proof fn lemma_event_numbers(state: DecoderView, input: Input)
    requires
        orderly(state),
        state.protocol != Protocol::Responses,
    ensures
        input_decoded(state, input).events matches Some(events) ==> {
            &&& numbered_from(events, 0, state.writer.sequence as int)
            &&& input_decoded(state, input).state.writer.sequence == state.writer.sequence
                + events.len()
        },
{
    let begun = at(state, seq![]);
    lemma_numbers_run_on(state.writer, closing_facts(state), seq![]);
    if let Some(value) = input.document {
        let chat = chat_step(begun, value, input.reported);
        lemma_chat_continues(begun, value, input.reported);
        lemma_numbers_run_on(chat.state.writer, chat.facts, seq![]);
        let messages = messages_step(begun, value);
        lemma_messages_continue(begun, value);
        lemma_numbers_run_on(messages.state.writer, messages.facts, seq![]);
    }
}

/// Every stream, from its first event on, is numbered without a gap: the events that the client
/// gets for a translated answer carry 0, 1, 2 and so on.
pub proof fn lemma_stream_is_numbered(state: DecoderView, inputs: Seq<Input>)
    requires
        orderly(state),
        state.protocol != Protocol::Responses,
    ensures
        orderly(stream_decoded(state, inputs).state),
        stream_decoded(state, inputs).state.protocol == state.protocol,
        stream_decoded(state, inputs).events matches Some(events) ==> {
            &&& numbered_from(events, 0, state.writer.sequence as int)
            &&& stream_decoded(state, inputs).state.writer.sequence == state.writer.sequence
                + events.len()
        },
    decreases inputs.len(),
{
    if inputs.len() > 0 {
        let before = stream_decoded(state, inputs.drop_last());
        let input = inputs.last();
        lemma_stream_is_numbered(state, inputs.drop_last());
        if let Some(sent) = before.events {
            lemma_decoder_stays_orderly(
                before.state,
                input.event,
                input.document,
                input.reported,
            );
            lemma_event_numbers(before.state, input);
            if let Some(events) = input_decoded(before.state, input).events {
                let all = sent + events;
                assert forall|i: int| 0 <= i < all.len() implies has_number(
                    #[trigger] all[i],
                    state.writer.sequence + i,
                ) by {
                    if i < sent.len() {
                        assert(all[i] == sent[i]);
                    } else {
                        assert(all[i] == events[i - sent.len()]);
                    }
                }
            }
        }
    }
}

pub proof fn lemma_carried_concat(first: Seq<ProviderEventView>, second: Seq<ProviderEventView>)
    ensures
        carried(first + second) == carried(first) + carried(second),
    decreases second.len(),
{
    if second.len() == 0 {
        assert(first + second =~= first);
        assert(carried(first) + carried(second) =~= carried(first));
    } else {
        lemma_carried_concat(first, second.drop_last());
        assert((first + second).drop_last() =~= first + second.drop_last());
        assert(carried(first + second) =~= carried(first) + carried(second));
    }
}

/// Whether no event of a stream, where it comes, is the explicit end of the answer.
pub open spec fn breaks_off(state: DecoderView, inputs: Seq<Input>) -> bool
    decreases inputs.len(),
{
    inputs.len() > 0 ==> breaks_off(state, inputs.drop_last()) && !explicit_end(
        stream_decoded(state, inputs.drop_last()).state,
        inputs.last().event,
        inputs.last().document,
    )
}

/// A stream that breaks off before an explicit end never completes the answer and never reports
/// it as completed.
pub proof fn lemma_broken_stream_completes_nothing(state: DecoderView, inputs: Seq<Input>)
    requires
        orderly(state),
        unfinished(state.writer.pending),
        !state.terminal,
        breaks_off(state, inputs),
    ensures
        stream_decoded(state, inputs).events matches Some(events) ==> {
            &&& unfinished(carried(events))
            &&& !stream_decoded(state, inputs).state.terminal
            &&& orderly(stream_decoded(state, inputs).state)
            &&& unfinished(stream_decoded(state, inputs).state.writer.pending)
        },
    decreases inputs.len(),
{
    if inputs.len() == 0 {
        assert(carried(seq![]) =~= seq![]);
    } else {
        let before = stream_decoded(state, inputs.drop_last());
        let input = inputs.last();
        lemma_broken_stream_completes_nothing(state, inputs.drop_last());
        if let Some(sent) = before.events {
            lemma_decoder_stays_orderly(
                before.state,
                input.event,
                input.document,
                input.reported,
            );
            lemma_end_is_reported_at_the_end(
                before.state,
                input.event,
                input.document,
                input.reported,
            );
            let last = input_decoded(before.state, input);
            if last.state.terminal {
                lemma_only_an_explicit_end(
                    before.state,
                    input.event,
                    input.document,
                    input.reported,
                );
            }
            if let Some(events) = last.events {
                lemma_carried_concat(sent, events);
                let all = carried(sent + events);
                assert forall|i: int| 0 <= i < all.len() implies !(
                #[trigger] all[i] is Completed) by {
                    if i < carried(sent).len() {
                        assert(all[i] == carried(sent)[i]);
                    } else {
                        assert(all[i] == carried(events)[i - carried(sent).len()]);
                    }
                }
            }
        }
    }
}

} // verus!
