//! What each event of an upstream tells.

use crate::catalog::Protocol;
use crate::event::{
    ContentKind, FactView, FinishReason, MetaView, ProviderEventView, TokenUsage, Usage,
};
use crate::json::{as_array, as_text, as_u64, get, printed_json, JsonView};
use crate::response::laws::{accounted, carried, kind_told};
use crate::stream::laws::{
    fits_kind, input_decoded, kind_of_name, kinded, lemma_chat_continues,
    lemma_decoder_stays_orderly, lemma_messages_continue, lemma_new_answer_is_orderly, lemma_slot,
    orderly, stream_decoded, tidy, Input,
};
use crate::stream::steps::{
    at, block_delta_step, block_start_step, call_step, calls_step, chat_step, choice_step,
    choices_step, closing_facts, content_ensured, delta_step, event_decoded, initial_arguments,
    maybe_text_step, messages_step, reasoning_field, responses_decoded, slot, started, text_step,
    tool_step, written, Decoded, DecoderView, SseView, Step,
};
use crate::stream::whole::lemma_told_grows;
use crate::stream::{new_answer, usage_part};
use crate::text::{decimal_text, is_blank};
use vstd::prelude::*;

verus! {

/// The facts that bring text or arguments, in their order.
pub open spec fn deltas(facts: Seq<FactView>) -> Seq<FactView>
    decreases facts.len(),
{
    if facts.len() == 0 {
        seq![]
    } else {
        match facts.last() {
            FactView::TextDelta(..) | FactView::ReasoningDelta(..) | FactView::ToolCallDelta(
                ..,
            ) => deltas(facts.drop_last()).push(facts.last()),
            _ => deltas(facts.drop_last()),
        }
    }
}

/// What an event tells: the facts that the client's events carry for it, or that wait for the
/// next one, beyond those that waited before.
pub open spec fn news(state: DecoderView, decoded: Decoded) -> Seq<FactView> {
    accounted(decoded.events->0, decoded.state.writer.pending).skip(
        state.writer.pending.len() as int,
    )
}

/// Whether a fact adds this text to a message, in the piece of content of this name.
pub open spec fn is_text(
    fact: FactView,
    content: Seq<Seq<char>>,
    name: Seq<char>,
    text: Seq<char>,
) -> bool {
    fact matches FactView::TextDelta(index, told) && told == text && index < content.len()
        && content[index as int] == name
}

/// Whether a fact adds this text to a reasoning, in the piece of content of this name.
pub open spec fn is_thought(
    fact: FactView,
    content: Seq<Seq<char>>,
    name: Seq<char>,
    text: Seq<char>,
) -> bool {
    fact matches FactView::ReasoningDelta(index, told) && told == text && index < content.len()
        && content[index as int] == name
}

/// Whether a fact adds these arguments to a call, in the piece of content of this name.
pub open spec fn is_call(
    fact: FactView,
    content: Seq<Seq<char>>,
    name: Seq<char>,
    call: (Seq<char>, Seq<char>),
    arguments: Seq<char>,
) -> bool {
    fact matches FactView::ToolCallDelta(index, id, told, more) && id == call.0 && told == Some(
        call.1,
    ) && more == arguments && index < content.len() && content[index as int] == name
}

/// Whether facts are exactly one fact that adds a text, or none where the text is empty.
pub open spec fn only_text(
    facts: Seq<FactView>,
    content: Seq<Seq<char>>,
    name: Seq<char>,
    text: Seq<char>,
    thought: bool,
) -> bool {
    if text.len() == 0 {
        facts.len() == 0
    } else if thought {
        facts.len() == 1 && is_thought(facts[0], content, name, text)
    } else {
        facts.len() == 1 && is_text(facts[0], content, name, text)
    }
}

proof fn lemma_deltas_push(facts: Seq<FactView>, fact: FactView)
    ensures
        deltas(facts.push(fact)) == match fact {
            FactView::TextDelta(..) | FactView::ReasoningDelta(..) | FactView::ToolCallDelta(
                ..,
            ) => deltas(facts).push(fact),
            _ => deltas(facts),
        },
{
    assert(facts.push(fact).drop_last() =~= facts);
}

/// Making sure of a piece of content brings no text, and the piece is there under its name.
proof fn lemma_ready(step: Step, key: Seq<char>, kind: ContentKind)
    requires
        step.ok,
        tidy(step.state.content),
    ensures
        ({
            let ready = content_ensured(started(step), key, kind);
            let index = slot(step.state.content, key);
            &&& deltas(ready.facts) == deltas(step.facts)
            &&& ready.ok ==> 0 <= index < ready.state.content.len() && index <= u32::MAX
                && ready.state.content[index] == key
            &&& ready.state.started
            &&& ready.facts.len() >= step.facts.len()
            &&& forall|i: int|
                0 <= i < step.facts.len() ==> #[trigger] ready.facts[i] == step.facts[i]
            &&& !step.state.started ==> ready.facts.len() > step.facts.len()
                && ready.facts[step.facts.len() as int] == FactView::Started(step.state.meta)
            &&& ready.state.tools == step.state.tools
            &&& ready.state.usage == step.state.usage
            &&& ready.state.meta == step.state.meta
            &&& ready.state.finish == step.state.finish
            &&& ready.state.finish_seen == step.state.finish_seen
            &&& tidy(ready.state.content)
            &&& forall|i: int|
                0 <= i < step.state.content.len() ==> #[trigger] ready.state.content[i]
                    == step.state.content[i]
            &&& ready.state.content.len() >= step.state.content.len()
        }),
{
    let begun = started(step);
    lemma_slot(step.state.content, key, 0);
    lemma_deltas_push(step.facts, FactView::Started(step.state.meta));
    lemma_deltas_push(
        begun.facts,
        FactView::ContentAdded(step.state.content.len() as u32, kind),
    );
}

/// What a step adds leaves alone what is known of the answer, and keeps every piece of content.
pub open spec fn only_speaks(before: Step, after: Step) -> bool {
    &&& before.state.started ==> after.state.started
    &&& after.facts.len() >= before.facts.len()
    &&& forall|i: int|
        0 <= i < before.facts.len() ==> #[trigger] after.facts[i] == before.facts[i]
    &&& after.state.usage == before.state.usage
    &&& after.state.meta == before.state.meta
    &&& after.state.finish == before.state.finish
    &&& after.state.finish_seen == before.state.finish_seen
    &&& tidy(after.state.content)
    &&& after.state.content.len() >= before.state.content.len()
    &&& forall|i: int|
        0 <= i < before.state.content.len() ==> #[trigger] after.state.content[i]
            == before.state.content[i]
}

proof fn lemma_text_tells(step: Step, text: Seq<char>, thought: bool, key: Seq<char>)
    requires
        step.ok,
        tidy(step.state.content),
        text_step(step, text, thought, key).ok,
    ensures
        ({
            let after = text_step(step, text, thought, key);
            let more = deltas(after.facts).skip(deltas(step.facts).len() as int);
            &&& deltas(after.facts) == deltas(step.facts) + more
            &&& only_text(more, after.state.content, key, text, thought)
            &&& only_speaks(step, after)
            &&& after.state.tools == step.state.tools
        }),
{
    let after = text_step(step, text, thought, key);
    let before = deltas(step.facts);
    if text.len() == 0 {
        assert(before.skip(before.len() as int) =~= Seq::<FactView>::empty());
        assert(before + Seq::<FactView>::empty() =~= before);
    } else {
        let kind = if thought {
            ContentKind::Reasoning
        } else {
            ContentKind::Text
        };
        lemma_ready(step, key, kind);
        let ready = content_ensured(started(step), key, kind);
        let fact = after.facts.last();
        lemma_deltas_push(ready.facts, fact);
        assert(before.push(fact).skip(before.len() as int) =~= seq![fact]);
        assert(before + seq![fact] =~= before.push(fact));
    }
}

proof fn lemma_tool_tells(step: Step, block: u64, arguments: Seq<char>)
    requires
        step.ok,
        tidy(step.state.content),
        tool_step(step, block, arguments).ok,
    ensures
        ({
            let after = tool_step(step, block, arguments);
            let fact = after.facts.last();
            &&& step.state.tools.contains_key(block)
            &&& step.state.tools[block].0.len() > 0
            &&& step.state.tools[block].1.len() > 0
            &&& deltas(after.facts) == deltas(step.facts).push(fact)
            &&& is_call(
                fact,
                after.state.content,
                "tool:"@ + decimal_text(block as nat),
                step.state.tools[block],
                arguments,
            )
            &&& only_speaks(step, after)
            &&& after.state.tools == step.state.tools
        }),
{
    let key = "tool:"@ + decimal_text(block as nat);
    lemma_ready(step, key, ContentKind::ToolCall);
    let ready = content_ensured(started(step), key, ContentKind::ToolCall);
    lemma_deltas_push(ready.facts, tool_step(step, block, arguments).facts.last());
}

proof fn lemma_event_types()
    ensures
        "ping"@.len() == 4,
        "message_start"@.len() == 13,
        "message_delta"@.len() == 13,
        "message_start"@ != "message_delta"@,
        "content_block_start"@.len() == 19,
        "content_block_delta"@.len() == 19,
        "content_block_start"@ != "content_block_delta"@,
        "message_stop"@.len() == 12,
        "content_block_stop"@.len() == 18,
        ""@.len() == 0,
{
    reveal_strlit("ping");
    reveal_strlit("message_start");
    reveal_strlit("message_delta");
    reveal_strlit("content_block_start");
    reveal_strlit("content_block_delta");
    reveal_strlit("message_stop");
    reveal_strlit("content_block_stop");
    reveal_strlit("");
    assert("message_start"@[8] != "message_delta"@[8]);
    assert("content_block_start"@[14] != "content_block_delta"@[14]);
}

proof fn lemma_block_types()
    ensures
        "text"@.len() == 4,
        "thinking"@.len() == 8,
        "tool_use"@.len() == 8,
        "thinking"@ != "tool_use"@,
        "redacted_thinking"@.len() == 17,
        "text_delta"@.len() == 10,
        "thinking_delta"@.len() == 14,
        "input_json_delta"@.len() == 16,
        "signature_delta"@.len() == 15,
        ""@.len() == 0,
{
    reveal_strlit("text");
    reveal_strlit("thinking");
    reveal_strlit("tool_use");
    reveal_strlit("redacted_thinking");
    reveal_strlit("text_delta");
    reveal_strlit("thinking_delta");
    reveal_strlit("input_json_delta");
    reveal_strlit("signature_delta");
    reveal_strlit("");
    assert("thinking"@[1] != "tool_use"@[1]);
}

/// Whether an event with this document is read, and makes sense.
pub open spec fn is_read(
    state: DecoderView,
    event: SseView,
    value: JsonView,
    reported: Option<TokenUsage>,
) -> bool {
    &&& orderly(state)
    &&& !state.terminal
    &&& event.data != "[DONE]"@
    &&& !is_blank(event.data)
    &&& event_decoded(state, event, Some(value), reported).events is Some
}

proof fn lemma_news(state: DecoderView, step: Step)
    requires
        step.state.writer == state.writer,
        written(step).events is Some,
    ensures
        news(state, written(step)) == step.facts,
{
    lemma_told_grows(state, step, seq![]);
    let decoded = written(step);
    let none = Seq::<ProviderEventView>::empty();
    assert(none + decoded.events->0 =~= decoded.events->0);
    assert(carried(none) =~= Seq::<FactView>::empty());
    assert(accounted(none, state.writer.pending) =~= state.writer.pending);
    assert((state.writer.pending + step.facts).skip(state.writer.pending.len() as int)
        =~= step.facts);
}

/// The block that a Messages event is about.
pub open spec fn block_index(value: JsonView) -> Option<u64> {
    as_u64(get(Some(value), "index"@))
}

/// A piece of a block in the Messages protocol tells exactly what it holds: a text adds that text
/// to a message, a thinking adds it to a reasoning and never to a message, a fragment of an input
/// adds to the arguments of the call that the block is, and a signature tells nothing. Each goes
/// to the block's own piece of content. Anything else, or a piece without its text, is refused.
pub proof fn lemma_block_delta_is_told(
    state: DecoderView,
    event: SseView,
    value: JsonView,
    reported: Option<TokenUsage>,
)
    requires
        state.protocol == Protocol::Messages,
        is_read(state, event, value, reported),
        as_text(get(Some(value), "type"@)) == Some("content_block_delta"@),
    ensures
        ({
            let decoded = event_decoded(state, event, Some(value), reported);
            let told = deltas(news(state, decoded));
            let delta = get(Some(value), "delta"@);
            let kind = as_text(get(delta, "type"@));
            let content = decoded.state.content;
            &&& block_index(value) is Some
            &&& kind == Some("text_delta"@) || kind == Some("thinking_delta"@) || kind == Some(
                "input_json_delta"@,
            ) || kind == Some("signature_delta"@)
            &&& kind == Some("text_delta"@) ==> (as_text(get(delta, "text"@)) matches Some(text)
                && only_text(
                told,
                content,
                "text:"@ + decimal_text(block_index(value)->0 as nat),
                text,
                false,
            ))
            &&& kind == Some("thinking_delta"@) ==> (as_text(
                get(delta, "thinking"@),
            ) matches Some(text) && only_text(
                told,
                content,
                "reasoning:"@ + decimal_text(block_index(value)->0 as nat),
                text,
                true,
            ))
            &&& kind == Some("input_json_delta"@) ==> {
                let block = block_index(value)->0;
                &&& as_text(get(delta, "partial_json"@)) matches Some(text)
                &&& state.tools.contains_key(block)
                &&& told.len() == 1
                &&& is_call(
                    told[0],
                    content,
                    "tool:"@ + decimal_text(block as nat),
                    state.tools[block],
                    text,
                )
            }
            &&& kind == Some("signature_delta"@) ==> told.len() == 0
            &&& decoded.state.tools == state.tools
            &&& decoded.state.usage == state.usage
            &&& decoded.state.meta == state.meta
            &&& decoded.state.finish == state.finish
            &&& decoded.state.finish_seen == state.finish_seen
            &&& !decoded.state.terminal
        }),
{
    lemma_event_types();
    lemma_block_types();
    reveal(messages_step);
    reveal(block_delta_step);
    let begun = at(state, seq![]);
    let step = messages_step(begun, value);
    lemma_messages_continue(begun, value);
    lemma_news(state, step);
    let delta = get(Some(value), "delta"@);
    let kind = as_text(get(delta, "type"@));
    assert(deltas(begun.facts) =~= Seq::<FactView>::empty());
    if let (Some(index), Some(inner)) = (block_index(value), delta) {
        if kind == Some("text_delta"@) {
            let text = as_text(get(delta, "text"@))->0;
            lemma_text_tells(begun, text, false, "text:"@ + decimal_text(index as nat));
            assert(deltas(step.facts).skip(0) =~= deltas(step.facts));
        } else if kind == Some("thinking_delta"@) {
            let text = as_text(get(delta, "thinking"@))->0;
            lemma_text_tells(begun, text, true, "reasoning:"@ + decimal_text(index as nat));
            assert(deltas(step.facts).skip(0) =~= deltas(step.facts));
        } else if kind == Some("input_json_delta"@) {
            let text = as_text(get(delta, "partial_json"@))->0;
            lemma_tool_tells(begun, index, text);
        }
    }
}

/// A block that begins in the Messages protocol tells what it already holds, in the same way. A
/// call takes its identifier and its name from here, and starts with its input as text where that
/// is an object with any field. A redacted thinking tells nothing; any other block is refused.
pub proof fn lemma_block_start_is_told(
    state: DecoderView,
    event: SseView,
    value: JsonView,
    reported: Option<TokenUsage>,
)
    requires
        state.protocol == Protocol::Messages,
        is_read(state, event, value, reported),
        as_text(get(Some(value), "type"@)) == Some("content_block_start"@),
    ensures
        ({
            let decoded = event_decoded(state, event, Some(value), reported);
            let told = deltas(news(state, decoded));
            let block = get(Some(value), "content_block"@);
            let kind = as_text(get(block, "type"@));
            let content = decoded.state.content;
            let number = decimal_text(block_index(value)->0 as nat);
            &&& block_index(value) is Some
            &&& kind == Some("text"@) || kind == Some("thinking"@) || kind == Some(
                "redacted_thinking"@,
            ) || kind == Some("tool_use"@)
            &&& kind == Some("text"@) ==> only_text(
                told,
                content,
                "text:"@ + number,
                match as_text(get(block, "text"@)) {
                    Some(text) => text,
                    None => seq![],
                },
                false,
            )
            &&& kind == Some("thinking"@) ==> only_text(
                told,
                content,
                "reasoning:"@ + number,
                match as_text(get(block, "thinking"@)) {
                    Some(text) => text,
                    None => seq![],
                },
                true,
            )
            &&& kind == Some("redacted_thinking"@) ==> told.len() == 0
            &&& kind == Some("tool_use"@) ==> {
                &&& as_text(get(block, "id"@)) matches Some(id)
                &&& as_text(get(block, "name"@)) matches Some(name)
                &&& id.len() > 0
                &&& name.len() > 0
                &&& decoded.state.tools == state.tools.insert(block_index(value)->0, (id, name))
                &&& told.len() == 1
                &&& is_call(
                    told[0],
                    content,
                    "tool:"@ + number,
                    (id, name),
                    match get(block, "input"@) {
                        Some(JsonView::Object(fields)) => if fields.dom() == Set::<
                            Seq<char>,
                        >::empty() {
                            seq![]
                        } else {
                            printed_json(JsonView::Object(fields))
                        },
                        _ => seq![],
                    },
                )
            }
            &&& kind != Some("tool_use"@) ==> decoded.state.tools == state.tools
            &&& decoded.state.usage == state.usage
            &&& decoded.state.meta == state.meta
            &&& decoded.state.finish == state.finish
            &&& decoded.state.finish_seen == state.finish_seen
            &&& !decoded.state.terminal
        }),
{
    lemma_event_types();
    lemma_block_types();
    reveal(messages_step);
    reveal(block_start_step);
    let begun = at(state, seq![]);
    let step = messages_step(begun, value);
    lemma_messages_continue(begun, value);
    lemma_news(state, step);
    let block = get(Some(value), "content_block"@);
    let kind = as_text(get(block, "type"@));
    assert(deltas(begun.facts) =~= Seq::<FactView>::empty());
    assert(""@ =~= Seq::<char>::empty());
    if let (Some(index), Some(inner)) = (block_index(value), block) {
        if kind == Some("text"@) {
            let text = match as_text(get(block, "text"@)) {
                Some(text) => text,
                None => ""@,
            };
            lemma_text_tells(begun, text, false, "text:"@ + decimal_text(index as nat));
            assert(deltas(step.facts).skip(0) =~= deltas(step.facts));
        } else if kind == Some("thinking"@) {
            let text = match as_text(get(block, "thinking"@)) {
                Some(text) => text,
                None => ""@,
            };
            lemma_text_tells(begun, text, true, "reasoning:"@ + decimal_text(index as nat));
            assert(deltas(step.facts).skip(0) =~= deltas(step.facts));
        } else if kind == Some("tool_use"@) {
            let id = as_text(get(block, "id"@))->0;
            let name = as_text(get(block, "name"@))->0;
            let entered = at(
                DecoderView { tools: state.tools.insert(index, (id, name)), ..state },
                seq![],
            );
            lemma_tool_tells(entered, index, initial_arguments(inner));
            if let Some(JsonView::Object(fields)) = get(block, "input"@) {
                assert(fields.dom() == Set::<Seq<char>>::empty() ==> fields =~= Map::<
                    Seq<char>,
                    JsonView,
                >::empty());
            }
        }
    }
}

/// A counter after a report: the report's number where it states one.
pub open spec fn counter_after(known: Option<u64>, value: JsonView, key: Seq<char>) -> Option<u64> {
    match as_u64(get(Some(value), key)) {
        Some(number) => Some(number),
        None => known,
    }
}

/// Whether counters are those of before with a Messages report taken in. The input is counted
/// with the part that was read from a cache and the part that was written to one.
pub open spec fn counts_messages(before: Usage, after: Usage, value: JsonView) -> bool {
    let read = as_u64(get(Some(value), "cache_read_input_tokens"@));
    let write = as_u64(get(Some(value), "cache_creation_input_tokens"@));
    &&& after.output_tokens == counter_after(before.output_tokens, value, "output_tokens"@)
    &&& after.cached_tokens == counter_after(
        before.cached_tokens,
        value,
        "cache_read_input_tokens"@,
    )
    &&& after.cache_write_tokens == counter_after(
        before.cache_write_tokens,
        value,
        "cache_creation_input_tokens"@,
    )
    &&& after.reasoning_tokens == before.reasoning_tokens
    &&& after.total_tokens == before.total_tokens
    &&& match as_u64(get(Some(value), "input_tokens"@)) {
        None => after.input_tokens == before.input_tokens,
        Some(input) => {
            let sum = input + (if read is Some {
                read->0
            } else {
                0
            }) + (if write is Some {
                write->0
            } else {
                0
            });
            if sum <= u64::MAX {
                after.input_tokens == Some(sum as u64)
            } else {
                after.input_tokens == before.input_tokens
            }
        },
    }
}

/// Why an answer ended, by either protocol's word for it.
pub open spec fn is_reason(word: Seq<char>, reason: FinishReason) -> bool {
    match reason {
        FinishReason::Length => word == "length"@ || word == "max_tokens"@,
        FinishReason::ToolCall => word == "tool_calls"@ || word == "tool_use"@,
        FinishReason::ContentFilter => word == "content_filter"@,
        FinishReason::Stop => word != "length"@ && word != "max_tokens"@ && word != "tool_calls"@
            && word != "tool_use"@ && word != "content_filter"@,
    }
}

proof fn lemma_reasons()
    ensures
        "length"@.len() == 6,
        "max_tokens"@.len() == 10,
        "tool_calls"@.len() == 10,
        "max_tokens"@ != "tool_calls"@,
        "tool_use"@.len() == 8,
        "content_filter"@.len() == 14,
{
    reveal_strlit("length");
    reveal_strlit("max_tokens");
    reveal_strlit("tool_calls");
    reveal_strlit("tool_use");
    reveal_strlit("content_filter");
    assert("max_tokens"@[0] != "tool_calls"@[0]);
}

/// Whether a reason to end was taken over from an event, where it gives one.
pub open spec fn takes_reason(
    before: DecoderView,
    after: DecoderView,
    word: Option<Seq<char>>,
) -> bool {
    match word {
        Some(word) => after.finish_seen && is_reason(word, after.finish),
        None => after.finish_seen == before.finish_seen && after.finish == before.finish,
    }
}

/// The other events of the Messages protocol. `message_start` names the answer and its model as
/// the upstream does; `message_delta` says why it ends; both report counters. `message_stop`
/// tells the counters and the end, with the reason that was given, and needs one. `ping` and
/// `content_block_stop` change nothing. None of them brings text, and there are no others.
pub proof fn lemma_message_events_are_told(
    state: DecoderView,
    event: SseView,
    value: JsonView,
    reported: Option<TokenUsage>,
)
    requires
        state.protocol == Protocol::Messages,
        is_read(state, event, value, reported),
        as_text(get(Some(value), "type"@)) != Some("content_block_start"@),
        as_text(get(Some(value), "type"@)) != Some("content_block_delta"@),
    ensures
        ({
            let decoded = event_decoded(state, event, Some(value), reported);
            let after = decoded.state;
            let told = news(state, decoded);
            let kind = as_text(get(Some(value), "type"@));
            let message = get(Some(value), "message"@);
            &&& kind == Some("ping"@) || kind == Some("content_block_stop"@) || kind == Some(
                "message_start"@,
            ) || kind == Some("message_delta"@) || kind == Some("message_stop"@)
            &&& deltas(told).len() == 0
            &&& after.tools == state.tools
            &&& after.content == state.content
            &&& kind == Some("ping"@) || kind == Some("content_block_stop"@) ==> after == state
                && told.len() == 0
            &&& kind == Some("message_start"@) ==> {
                &&& after.started
                &&& match as_text(get(message, "id"@)) {
                    Some(id) => after.meta.response_id == id && after.meta.model == match as_text(
                        get(message, "model"@),
                    ) {
                        Some(model) => model,
                        None => "unknown"@,
                    } && after.meta.finish_reason is None,
                    None => after.meta == state.meta,
                }
                &&& if state.started {
                    told.len() == 0
                } else {
                    told == seq![FactView::Started(after.meta)]
                }
                &&& match get(message, "usage"@) {
                    Some(usage) => counts_messages(state.usage, after.usage, usage),
                    None => after.usage == state.usage,
                }
                &&& takes_reason(state, after, None)
            }
            &&& kind == Some("message_delta"@) ==> {
                &&& told.len() == 0
                &&& after.meta == state.meta
                &&& takes_reason(
                    state,
                    after,
                    as_text(get(get(Some(value), "delta"@), "stop_reason"@)),
                )
                &&& match get(Some(value), "usage"@) {
                    Some(usage) => counts_messages(state.usage, after.usage, usage),
                    None => after.usage == state.usage,
                }
            }
            &&& kind == Some("message_stop"@) ==> {
                &&& state.started
                &&& state.finish_seen
                &&& after.terminal
                &&& told.len() == 2
                &&& told[0] == FactView::Usage(state.usage)
                &&& told[1] == FactView::Completed(
                    MetaView { finish_reason: Some(state.finish), ..state.meta },
                )
            }
            &&& kind != Some("message_stop"@) ==> !after.terminal
        }),
{
    lemma_event_types();
    lemma_reasons();
    reveal(messages_step);
    let begun = at(state, seq![]);
    let step = messages_step(begun, value);
    lemma_messages_continue(begun, value);
    lemma_news(state, step);
    assert(deltas(begun.facts) =~= Seq::<FactView>::empty());
    let kind = as_text(get(Some(value), "type"@));
    if kind == Some("message_start"@) {
        lemma_deltas_push(seq![], FactView::Started(step.state.meta));
        assert(Seq::<FactView>::empty().push(FactView::Started(step.state.meta)) =~= seq![
            FactView::Started(step.state.meta),
        ]);
    } else if kind == Some("message_stop"@) {
        let first = FactView::Usage(state.usage);
        let second = step.facts.last();
        assert(step.facts =~= Seq::<FactView>::empty().push(first).push(second));
        lemma_deltas_push(seq![], first);
        lemma_deltas_push(Seq::<FactView>::empty().push(first), second);
    }
    if step.facts.len() == 0 {
        assert(step.facts =~= Seq::<FactView>::empty());
    }
}

/// The name under which a fragment's arguments, or its name, stand.
pub open spec fn function_text(call: JsonView, key: Seq<char>) -> Seq<char> {
    match as_text(get(get(Some(call), "function"@), key)) {
        Some(text) => text,
        None => seq![],
    }
}

/// What is known of a call: its identifier and its name so far.
pub open spec fn known_call(tools: Map<u64, (Seq<char>, Seq<char>)>, block: u64) -> (
    Seq<char>,
    Seq<char>,
) {
    if tools.contains_key(block) {
        tools[block]
    } else {
        (seq![], seq![])
    }
}

/// What is known of a call after a fragment of it: the fragment's identifier where it gives one,
/// and the name with what the fragment adds to it.
pub open spec fn call_after(known: (Seq<char>, Seq<char>), call: JsonView) -> (
    Seq<char>,
    Seq<char>,
) {
    (
        match as_text(get(Some(call), "id"@)) {
            Some(id) => id,
            None => known.0,
        },
        known.1 + function_text(call, "name"@),
    )
}

/// Whether no fragment before this one is of the same call.
pub open spec fn is_first_of_call(calls: Seq<JsonView>, k: int) -> bool {
    forall|j: int| 0 <= j < k ==> block_index(#[trigger] calls[j]) != block_index(calls[k])
}

/// Whether a fact is what a fragment of a call tells: the arguments that it brings, for a call
/// that has an identifier and a name, in the call's own piece of content.
pub open spec fn is_fragment(fact: FactView, content: Seq<Seq<char>>, call: JsonView) -> bool {
    &&& block_index(call) matches Some(block)
    &&& fact matches FactView::ToolCallDelta(index, id, Some(name), arguments)
    &&& arguments == function_text(call, "arguments"@)
    &&& id.len() > 0
    &&& name.len() > 0
    &&& index < content.len()
    &&& content[index as int] == "tool:"@ + decimal_text(block as nat)
}

/// Whether a fact names the call as it is known after a fragment.
pub open spec fn names_call(fact: FactView, call: (Seq<char>, Seq<char>)) -> bool {
    fact matches FactView::ToolCallDelta(_, id, Some(name), _) && id == call.0 && name == call.1
}

proof fn lemma_call_tells(step: Step, call: JsonView)
    requires
        step.ok,
        tidy(step.state.content),
        call_step(step, call).ok,
    ensures
        ({
            let after = call_step(step, call);
            let fact = after.facts.last();
            let block = block_index(call)->0;
            let known = call_after(known_call(step.state.tools, block), call);
            &&& block_index(call) is Some
            &&& deltas(after.facts) == deltas(step.facts).push(fact)
            &&& is_fragment(fact, after.state.content, call)
            &&& names_call(fact, known)
            &&& after.state.tools == step.state.tools.insert(block, known)
            &&& only_speaks(step, after)
        }),
{
    reveal(call_step);
    reveal_strlit("");
    assert(""@ =~= Seq::<char>::empty());
    let block = block_index(call)->0;
    let known = call_after(known_call(step.state.tools, block), call);
    let entered = Step {
        state: DecoderView { tools: step.state.tools.insert(block, known), ..step.state },
        ..step
    };
    lemma_tool_tells(entered, block, function_text(call, "arguments"@));
}

/// The fragments of an event are told one by one.
proof fn lemma_calls_tell(step: Step, calls: Seq<JsonView>)
    requires
        step.ok,
        tidy(step.state.content),
        calls_step(step, calls).ok,
    ensures
        ({
            let after = calls_step(step, calls);
            let more = deltas(after.facts).skip(deltas(step.facts).len() as int);
            &&& deltas(after.facts) == deltas(step.facts) + more
            &&& more.len() == calls.len()
            &&& forall|k: int|
                0 <= k < calls.len() ==> is_fragment(
                    #[trigger] more[k],
                    after.state.content,
                    calls[k],
                )
            &&& forall|k: int|
                0 <= k < calls.len() && is_first_of_call(calls, k) ==> names_call(
                    #[trigger] more[k],
                    call_after(
                        known_call(step.state.tools, block_index(calls[k])->0),
                        calls[k],
                    ),
                )
            &&& only_speaks(step, after)
        }),
    decreases calls.len(),
{
    let before = deltas(step.facts);
    if calls.len() == 0 {
        assert(before.skip(before.len() as int) =~= Seq::<FactView>::empty());
        assert(before + Seq::<FactView>::empty() =~= before);
    } else {
        let first = call_step(step, calls[0]);
        let rest = calls.drop_first();
        assert(first.ok);
        lemma_call_tells(step, calls[0]);
        lemma_calls_tell(first, rest);
        let after = calls_step(first, rest);
        let fact = first.facts.last();
        let later = deltas(after.facts).skip(deltas(first.facts).len() as int);
        let more = deltas(after.facts).skip(before.len() as int);
        assert(deltas(after.facts) =~= before + (seq![fact] + later));
        assert(more =~= seq![fact] + later);
        assert forall|k: int| 0 <= k < calls.len() implies is_fragment(
            #[trigger] more[k],
            after.state.content,
            calls[k],
        ) by {
            if k > 0 {
                assert(more[k] == later[k - 1]);
                assert(rest[k - 1] == calls[k]);
                assert(is_fragment(later[k - 1], after.state.content, rest[k - 1]));
            } else {
                assert(more[0] == fact);
                let at = fact->ToolCallDelta_0 as int;
                assert(after.state.content[at] == first.state.content[at]);
            }
        }
        assert forall|k: int| 0 <= k < calls.len() && is_first_of_call(calls, k) implies names_call(
            #[trigger] more[k],
            call_after(known_call(step.state.tools, block_index(calls[k])->0), calls[k]),
        ) by {
            if k > 0 {
                assert(more[k] == later[k - 1]);
                assert(rest[k - 1] == calls[k]);
                assert(is_fragment(more[k], after.state.content, calls[k]));
                assert(block_index(calls[0]) != block_index(calls[k]));
                assert forall|j: int| 0 <= j < k - 1 implies block_index(#[trigger] rest[j])
                    != block_index(rest[k - 1]) by {
                    assert(rest[j] == calls[j + 1]);
                }
                assert(is_first_of_call(rest, k - 1));
                assert(names_call(
                    later[k - 1],
                    call_after(
                        known_call(first.state.tools, block_index(rest[k - 1])->0),
                        rest[k - 1],
                    ),
                ));
            }
        }
    }
}

/// A text that a fragment of a Chat answer holds under a key.
pub open spec fn text_in(value: Option<JsonView>, key: Seq<char>) -> Seq<char> {
    match get(value, key) {
        Some(JsonView::Text(text)) => text,
        _ => seq![],
    }
}

/// The reasoning of a fragment, under either of its names; the longer name goes first.
pub open spec fn thought_in(delta: Option<JsonView>) -> Seq<char> {
    if get(delta, "reasoning_content"@) is Some {
        text_in(delta, "reasoning_content"@)
    } else {
        text_in(delta, "reasoning"@)
    }
}

/// The fragments of calls that a fragment of a Chat answer holds.
pub open spec fn calls_in(delta: Option<JsonView>) -> Seq<JsonView> {
    match get(delta, "tool_calls"@) {
        Some(JsonView::Array(calls)) => calls,
        _ => seq![],
    }
}

proof fn lemma_maybe_text_tells(step: Step, value: Option<JsonView>, thought: bool, key: Seq<char>)
    requires
        step.ok,
        tidy(step.state.content),
        maybe_text_step(step, value, thought, key).ok,
    ensures
        ({
            let after = maybe_text_step(step, value, thought, key);
            let text = match value {
                Some(JsonView::Text(text)) => text,
                _ => seq![],
            };
            let more = deltas(after.facts).skip(deltas(step.facts).len() as int);
            &&& deltas(after.facts) == deltas(step.facts) + more
            &&& only_text(more, after.state.content, key, text, thought)
            &&& only_speaks(step, after)
            &&& after.state.tools == step.state.tools
        }),
{
    let before = deltas(step.facts);
    assert(before.skip(before.len() as int) =~= Seq::<FactView>::empty());
    assert(before + Seq::<FactView>::empty() =~= before);
    if let Some(JsonView::Text(text)) = value {
        lemma_text_tells(step, text, thought, key);
    }
}

/// Whether facts are what a fragment of a Chat answer tells: its text for the message, then its
/// reasoning, then the fragments of its calls.
pub open spec fn tells_delta(
    told: Seq<FactView>,
    content: Seq<Seq<char>>,
    tools: Map<u64, (Seq<char>, Seq<char>)>,
    delta: Option<JsonView>,
) -> bool {
    let text = text_in(delta, "content"@);
    let thought = thought_in(delta);
    let calls = calls_in(delta);
    let spoken: int = if text.len() > 0 {
        1
    } else {
        0
    };
    let reasoned: int = if thought.len() > 0 {
        spoken + 1
    } else {
        spoken
    };
    &&& told.len() == reasoned + calls.len()
    &&& text.len() > 0 ==> is_text(told[0], content, "text"@, text)
    &&& thought.len() > 0 ==> is_thought(told[spoken], content, "reasoning"@, thought)
    &&& forall|k: int|
        0 <= k < calls.len() ==> is_fragment(told[reasoned + k], content, #[trigger] calls[k])
    &&& forall|k: int|
        0 <= k < calls.len() && is_first_of_call(calls, k) ==> names_call(
            told[reasoned + k],
            call_after(known_call(tools, block_index(#[trigger] calls[k])->0), calls[k]),
        )
}

proof fn lemma_delta_tells(step: Step, delta: JsonView)
    requires
        step.ok,
        tidy(step.state.content),
        deltas(step.facts).len() == 0,
        delta_step(step, delta).ok,
    ensures
        ({
            let after = delta_step(step, delta);
            &&& tells_delta(
                deltas(after.facts),
                after.state.content,
                step.state.tools,
                Some(delta),
            )
            &&& only_speaks(step, after)
        }),
{
    let value = get(Some(delta), "content"@);
    let spoken = maybe_text_step(step, value, false, "text"@);
    let reasoned = maybe_text_step(spoken, reasoning_field(delta), true, "reasoning"@);
    assert(calls_in(Some(delta)).len() == 0 ==> calls_step(reasoned, calls_in(Some(delta)))
        == reasoned);
    let after = delta_step(step, delta);
    assert(after == calls_step(reasoned, calls_in(Some(delta))));
    assert(reasoned.ok) by {
        if !reasoned.ok {
            assert(calls_step(reasoned, calls_in(Some(delta))) == reasoned);
        }
    }
    assert(spoken.ok);
    lemma_maybe_text_tells(step, value, false, "text"@);
    lemma_maybe_text_tells(spoken, reasoning_field(delta), true, "reasoning"@);
    lemma_calls_tell(reasoned, calls_in(Some(delta)));
    let none = deltas(step.facts);
    let first = deltas(spoken.facts).skip(none.len() as int);
    let second = deltas(reasoned.facts).skip(deltas(spoken.facts).len() as int);
    let third = deltas(after.facts).skip(deltas(reasoned.facts).len() as int);
    let told = deltas(after.facts);
    assert(none =~= Seq::<FactView>::empty());
    assert(told =~= first + second + third);
    let calls = calls_in(Some(delta));
    let shift = (first.len() + second.len()) as int;
    if first.len() > 0 {
        assert(told[0] == first[0]);
        let at = first[0]->TextDelta_0 as int;
        assert(reasoned.state.content[at] == spoken.state.content[at]);
        assert(after.state.content[at] == reasoned.state.content[at]);
    }
    if second.len() > 0 {
        assert(told[first.len() as int] == second[0]);
        let at = second[0]->ReasoningDelta_0 as int;
        assert(after.state.content[at] == reasoned.state.content[at]);
    }
    assert forall|k: int| 0 <= k < calls.len() implies is_fragment(
        told[shift + k],
        after.state.content,
        #[trigger] calls[k],
    ) by {
        assert(told[shift + k] == third[k]);
    }
    assert forall|k: int| 0 <= k < calls.len() && is_first_of_call(calls, k) implies names_call(
        told[shift + k],
        call_after(known_call(step.state.tools, block_index(#[trigger] calls[k])->0), calls[k]),
    ) by {
        assert(told[shift + k] == third[k]);
    }
}

/// Whether counters are those of before with a complete report taken in, where there is one.
pub open spec fn counts_report(before: Usage, after: Usage, reported: Option<TokenUsage>) -> bool {
    match reported {
        Some(report) => {
            &&& after.input_tokens == Some(report.input_tokens)
            &&& after.output_tokens == Some(report.output_tokens)
            &&& after.cached_tokens == Some(report.cached_tokens)
            &&& after.cache_write_tokens == Some(report.cache_write_tokens)
            &&& after.reasoning_tokens == Some(report.reasoning_tokens)
            &&& after.total_tokens == Some(report.total_tokens)
        },
        None => after == before,
    }
}

proof fn lemma_choice_tells(step: Step, choice: JsonView)
    requires
        step.ok,
        tidy(step.state.content),
        step.facts.len() == 0,
        choice_step(step, choice).ok,
    ensures
        ({
            let after = choice_step(step, choice);
            &&& as_u64(get(Some(choice), "index"@)) matches Some(index) ==> index == 0
            &&& tells_delta(
                deltas(after.facts),
                after.state.content,
                step.state.tools,
                get(Some(choice), "delta"@),
            )
            &&& takes_reason(
                step.state,
                after.state,
                as_text(get(Some(choice), "finish_reason"@)),
            )
            &&& after.state.started
            &&& !step.state.started ==> after.facts.len() > 0 && after.facts[0]
                == FactView::Started(step.state.meta)
            &&& after.state.usage == step.state.usage
            &&& after.state.meta == step.state.meta
        }),
{
    reveal(choice_step);
    lemma_reasons();
    let none = Seq::<FactView>::empty();
    assert(step.facts =~= none);
    assert(deltas(none) =~= none);
    let opened = started(step);
    lemma_deltas_push(none, FactView::Started(step.state.meta));
    if let Some(delta) = get(Some(choice), "delta"@) {
        lemma_delta_tells(opened, delta);
    }
}

/// An event of Chat tells what the fragment of its choice holds: its content as text of the
/// message, its reasoning as reasoning, and the fragments of its calls for the calls that they
/// belong to; it takes over why the answer ends, and the counters where it reports them. A choice
/// other than the first is refused. An event without a choice tells nothing of the answer.
pub proof fn lemma_chat_event_is_told(
    state: DecoderView,
    event: SseView,
    value: JsonView,
    reported: Option<TokenUsage>,
)
    requires
        state.protocol == Protocol::Chat,
        is_read(state, event, value, reported),
    ensures
        ({
            let decoded = event_decoded(state, event, Some(value), reported);
            let after = decoded.state;
            let told = deltas(news(state, decoded));
            let usage = get(Some(value), "usage"@);
            &&& get(Some(value), "choices"@) matches Some(JsonView::Array(choices))
            &&& choices.len() == 0 ==> news(state, decoded).len() == 0 && after.content
                == state.content && takes_reason(state, after, None)
            &&& choices.len() == 1 ==> {
                let choice = choices[0];
                &&& as_u64(get(Some(choice), "index"@)) matches Some(index) ==> index == 0
                &&& tells_delta(told, after.content, state.tools, get(Some(choice), "delta"@))
                &&& takes_reason(state, after, as_text(get(Some(choice), "finish_reason"@)))
                &&& after.started
                &&& !state.started ==> news(state, decoded).len() > 0 && news(state, decoded)[0]
                    == FactView::Started(state.meta)
            }
            &&& choices.len() <= 1 ==> if usage is Some && usage != Some(JsonView::Null) {
                counts_report(state.usage, after.usage, reported)
            } else {
                after.usage == state.usage
            }
            &&& after.meta == state.meta || choices.len() > 1
            &&& !after.terminal
        }),
{
    reveal(chat_step);
    let begun = at(state, seq![]);
    let step = chat_step(begun, value, reported);
    lemma_chat_continues(begun, value, reported);
    lemma_news(state, step);
    let choices = as_array(get(Some(value), "choices"@))->0;
    if choices.len() == 1 {
        let counted = if crate::json::present(get(Some(value), "usage"@)) {
            at(crate::stream::steps::counted(state, reported), seq![])
        } else {
            begun
        };
        let rest = choices.drop_first();
        let after = choice_step(counted, choices[0]);
        assert(choices_step(after, rest) == after);
        assert(step == after);
        lemma_choice_tells(counted, choices[0]);
    }
}

/// Chat's end mark tells the counters and the end, with the reason that was given, and needs one.
pub proof fn lemma_chat_end_is_told(
    state: DecoderView,
    event: SseView,
    document: Option<JsonView>,
    reported: Option<TokenUsage>,
)
    requires
        orderly(state),
        !state.terminal,
        event.data == "[DONE]"@,
    ensures
        ({
            let decoded = event_decoded(state, event, document, reported);
            let told = news(state, decoded);
            decoded.events is Some ==> {
                &&& state.protocol == Protocol::Chat
                &&& state.started
                &&& state.finish_seen
                &&& decoded.state.terminal
                &&& told.len() == 2
                &&& told[0] == FactView::Usage(state.usage)
                &&& told[1] == FactView::Completed(
                    MetaView { finish_reason: Some(state.finish), ..state.meta },
                )
            }
        }),
{
    let decoded = event_decoded(state, event, document, reported);
    if decoded.events is Some {
        let step = at(DecoderView { terminal: true, ..state }, closing_facts(state));
        lemma_news(state, step);
    }
}

/// What the Responses protocol calls an event: the document's type, else the name of the event.
pub open spec fn called(event: SseView, value: JsonView) -> Option<Seq<char>> {
    match get(Some(value), "type"@) {
        Some(JsonView::Text(name)) => Some(name),
        _ => event.event,
    }
}

/// An event of the Responses protocol tells the beginning, under the name that its answer has;
/// the counters, where it reports any; and the end, as stopped where it is completed and as cut
/// off where it is incomplete. An event that reports a failure is refused.
pub proof fn lemma_responses_event_is_told(
    state: DecoderView,
    event: SseView,
    value: JsonView,
    reported: Option<TokenUsage>,
)
    requires
        state.protocol == Protocol::Responses,
        is_read(state, event, value, reported),
    ensures
        ({
            let decoded = event_decoded(state, event, Some(value), reported);
            let after = decoded.state;
            let facts = decoded.events->0[0].canonical;
            let response = get(Some(value), "response"@);
            let usage = get(response, "usage"@);
            let completed = called(event, value) == Some("response.completed"@);
            let incomplete = called(event, value) == Some("response.incomplete"@);
            let ends = completed || incomplete;
            &&& decoded.events->0.len() == 1
            &&& decoded.events->0[0].wire.data == value
            &&& decoded.events->0[0].wire.event == event.event
            &&& called(event, value) != Some("response.failed"@)
            &&& called(event, value) != Some("response.error"@)
            &&& after.terminal == ends
            &&& after.started == (state.started || response is Some || ends)
            &&& !state.started && after.started ==> facts.contains(FactView::Started(after.meta))
            &&& !state.started && response is Some ==> facts[0] == FactView::Started(after.meta)
                && match as_text(get(response, "id"@)) {
                Some(id) => after.meta.response_id == id && after.meta.model == match as_text(
                    get(response, "model"@),
                ) {
                    Some(model) => model,
                    None => "unknown"@,
                },
                None => after.meta == state.meta,
            }
            &&& if usage is Some {
                counts_report(state.usage, after.usage, reported) && facts.contains(
                    FactView::Usage(after.usage),
                )
            } else {
                after.usage == state.usage
            }
            &&& ends ==> facts.len() > 0 && facts.last() == FactView::Completed(
                MetaView {
                    finish_reason: Some(
                        if completed {
                            FinishReason::Stop
                        } else {
                            FinishReason::Length
                        },
                    ),
                    ..after.meta
                },
            )
        }),
{
    reveal(responses_decoded);
    reveal_strlit("");
    reveal_strlit("response.completed");
    reveal_strlit("response.incomplete");
    reveal_strlit("response.failed");
    reveal_strlit("response.error");
    assert(""@.len() == 0 && "response.completed"@.len() == 18 && "response.incomplete"@.len()
        == 19 && "response.failed"@.len() == 15 && "response.error"@.len() == 14);
    let decoded = event_decoded(state, event, Some(value), reported);
    let facts = decoded.events->0[0].canonical;
    let after = decoded.state;
    let response = get(Some(value), "response"@);
    if !state.started && response is Some {
        assert(facts[0] == FactView::Started(after.meta));
    } else if !state.started && after.started {
        let at: int = if get(response, "usage"@) is Some {
            1
        } else {
            0
        };
        assert(facts[at] == FactView::Started(after.meta));
    }
    if get(response, "usage"@) is Some {
        let at: int = if !state.started {
            1
        } else {
            0
        };
        assert(facts[at] == FactView::Usage(after.usage));
    }
}

proof fn lemma_closing_kinded(state: DecoderView, told: Seq<FactView>)
    requires
        kinded(at(state, seq![]), told),
    ensures
        kinded(at(DecoderView { terminal: true, ..state }, closing_facts(state)), told),
{
    let first = closing_facts(state)[0];
    let second = closing_facts(state)[1];
    let before = told + Seq::<FactView>::empty();
    let all = told + closing_facts(state);
    assert(all =~= before.push(first).push(second));
    assert(all.drop_last() =~= before.push(first));
    assert(before.push(first).drop_last() =~= before);
    assert forall|k: int| 0 <= k < all.len() implies fits_kind(#[trigger] all[k], state.content) by {
        if k < before.len() {
            assert(all[k] == before[k]);
        }
    }
    assert forall|i: int| 0 <= i < state.content.len() implies kind_told(all, i as u32) == Some(
        kind_of_name(#[trigger] state.content[i]),
    ) by {
        assert(all.last() == second);
        assert(before.push(first).last() == first);
        assert(kind_told(all, i as u32) == kind_told(before.push(first), i as u32));
        assert(kind_told(before.push(first), i as u32) == kind_told(before, i as u32));
    }
}

/// Whether what was told of a running answer is kept apart by kinds.
pub open spec fn kept_apart(state: DecoderView, told: Seq<FactView>) -> bool {
    kinded(at(state, seq![]), told)
}

proof fn lemma_step_kept_apart(state: DecoderView, step: Step, sent: Seq<ProviderEventView>)
    requires
        step.state.writer == state.writer,
        written(step).events is Some,
        kinded(step, accounted(sent, state.writer.pending)),
    ensures
        kept_apart(
            written(step).state,
            accounted(sent + written(step).events->0, written(step).state.writer.pending),
        ),
{
    lemma_told_grows(state, step, sent);
    let told = accounted(sent, state.writer.pending);
    let none = Seq::<FactView>::empty();
    assert((told + step.facts) + none =~= told + step.facts);
}

proof fn lemma_event_kept_apart(state: DecoderView, input: Input, sent: Seq<ProviderEventView>)
    requires
        orderly(state),
        state.protocol != Protocol::Responses,
        kept_apart(state, accounted(sent, state.writer.pending)),
        input_decoded(state, input).events is Some,
    ensures
        kept_apart(
            input_decoded(state, input).state,
            accounted(
                sent + input_decoded(state, input).events->0,
                input_decoded(state, input).state.writer.pending,
            ),
        ),
{
    let begun = at(state, seq![]);
    let told = accounted(sent, state.writer.pending);
    let quiet = Seq::<ProviderEventView>::empty();
    assert(sent + quiet =~= sent);
    if state.terminal || (input.event.data != "[DONE]"@ && is_blank(input.event.data)) {
    } else if input.event.data == "[DONE]"@ {
        let step = at(DecoderView { terminal: true, ..state }, closing_facts(state));
        lemma_closing_kinded(state, told);
        lemma_step_kept_apart(state, step, sent);
    } else if let Some(value) = input.document {
        match state.protocol {
            Protocol::Chat => {
                let step = chat_step(begun, value, input.reported);
                lemma_chat_continues(begun, value, input.reported);
                assert(kinded(begun, told));
                lemma_step_kept_apart(state, step, sent);
            },
            _ => {
                let step = messages_step(begun, value);
                lemma_messages_continue(begun, value);
                assert(kinded(begun, told));
                lemma_closing_kinded(state, told);
                assert(Seq::<FactView>::empty() + closing_facts(state) =~= closing_facts(state));
                lemma_step_kept_apart(state, step, sent);
            },
        }
    }
}

proof fn lemma_stream_kept_apart(state: DecoderView, inputs: Seq<Input>)
    requires
        orderly(state),
        state.protocol != Protocol::Responses,
        kept_apart(state, state.writer.pending),
        stream_decoded(state, inputs).events is Some,
    ensures
        orderly(stream_decoded(state, inputs).state),
        stream_decoded(state, inputs).state.protocol == state.protocol,
        kept_apart(
            stream_decoded(state, inputs).state,
            accounted(
                stream_decoded(state, inputs).events->0,
                stream_decoded(state, inputs).state.writer.pending,
            ),
        ),
    decreases inputs.len(),
{
    if inputs.len() == 0 {
        assert(accounted(seq![], state.writer.pending) =~= state.writer.pending);
    } else {
        let before = stream_decoded(state, inputs.drop_last());
        let input = inputs.last();
        lemma_stream_kept_apart(state, inputs.drop_last());
        lemma_event_kept_apart(before.state, input, before.events->0);
        lemma_decoder_stays_orderly(before.state, input.event, input.document, input.reported);
    }
}

/// In every translated stream text, reasoning and calls are kept apart: whatever is told of a
/// piece of content is of the kind as which the piece was announced, so that no reasoning ever
/// reaches a message, nor text a reasoning, nor either of them a call.
pub proof fn lemma_kinds_are_kept_apart(
    protocol: Protocol,
    model: Seq<char>,
    id: Seq<char>,
    inputs: Seq<Input>,
    place: int,
)
    requires
        protocol != Protocol::Responses,
        stream_decoded(new_answer(protocol, model, id), inputs).events is Some,
    ensures
        ({
            let answer = stream_decoded(new_answer(protocol, model, id), inputs);
            let told = accounted(answer.events->0, answer.state.writer.pending);
            0 <= place < told.len() ==> match told[place] {
                FactView::TextDelta(index, _) => kind_told(told, index) == Some(ContentKind::Text),
                FactView::ReasoningDelta(index, _) => kind_told(told, index) == Some(
                    ContentKind::Reasoning,
                ),
                FactView::ToolCallDelta(index, _, _, _) => kind_told(told, index) == Some(
                    ContentKind::ToolCall,
                ),
                _ => true,
            }
        }),
{
    let start = new_answer(protocol, model, id);
    lemma_new_answer_is_orderly(protocol, model, id);
    assert(start.writer.pending + Seq::<FactView>::empty() =~= Seq::<FactView>::empty());
    lemma_stream_kept_apart(start, inputs);
    let answer = stream_decoded(start, inputs);
    let told = accounted(answer.events->0, answer.state.writer.pending);
    assert(told + Seq::<FactView>::empty() =~= told);
    if 0 <= place < told.len() {
        assert(fits_kind(told[place], answer.state.content));
    }
}

/// An event that reports an error, or that is no document, is refused, whatever else it holds, and
/// so is an end mark that comes too early or in another protocol than Chat. None of them changes
/// the answer. A blank event is passed over, and so is everything after the end.
pub proof fn lemma_errors_are_refused(
    state: DecoderView,
    event: SseView,
    document: Option<JsonView>,
    reported: Option<TokenUsage>,
)
    ensures
        ({
            let decoded = event_decoded(state, event, document, reported);
            let mark = event.data == "[DONE]"@;
            &&& state.terminal ==> decoded.state == state && decoded.events is Some
                && decoded.events->0.len() == 0
            &&& !state.terminal && !mark && is_blank(event.data) ==> decoded.state == state
                && decoded.events is Some && decoded.events->0.len() == 0
            &&& !state.terminal && !mark && !is_blank(event.data) && (document is None || get(
                document,
                "error"@,
            ) is Some || get(document, "type"@) == Some(JsonView::Text("error"@)))
                ==> decoded.events is None && decoded.state == state
            &&& !state.terminal && mark && (state.protocol != Protocol::Chat || !state.started
                || !state.finish_seen) ==> decoded.events is None && decoded.state == state
        }),
{
}

/// Whether there is a piece of content of this name, or room for one more.
pub open spec fn has_room(content: Seq<Seq<char>>, name: Seq<char>) -> bool {
    content.len() <= 4096 || exists|i: int| 0 <= i < content.len() && #[trigger] content[i] == name
}

proof fn lemma_room(step: Step, key: Seq<char>, kind: ContentKind)
    requires
        step.ok,
    ensures
        content_ensured(started(step), key, kind).ok <==> has_room(step.state.content, key),
{
    let content = step.state.content;
    lemma_slot(content, key, 0);
    if slot(content, key) < content.len() {
        assert(content[slot(content, key)] == key);
    }
}

/// Which events of the Messages protocol make sense. A piece of a block does where it has an
/// index and what its type calls for, and where there is room for its piece of content; one of a
/// call also needs the call to be named. An end needs a beginning and a reason. The others always
/// do, and no others are known.
pub open spec fn makes_sense(state: DecoderView, value: JsonView) -> bool {
    let kind = as_text(get(Some(value), "type"@));
    let number = decimal_text(block_index(value)->0 as nat);
    if kind == Some("content_block_delta"@) {
        let delta = get(Some(value), "delta"@);
        let shape = as_text(get(delta, "type"@));
        &&& block_index(value) is Some
        &&& delta is Some
        &&& if shape == Some("text_delta"@) {
            as_text(get(delta, "text"@)) matches Some(text) && (text.len() == 0 || has_room(
                state.content,
                "text:"@ + number,
            ))
        } else if shape == Some("thinking_delta"@) {
            as_text(get(delta, "thinking"@)) matches Some(text) && (text.len() == 0 || has_room(
                state.content,
                "reasoning:"@ + number,
            ))
        } else if shape == Some("input_json_delta"@) {
            &&& as_text(get(delta, "partial_json"@)) is Some
            &&& state.tools.contains_key(block_index(value)->0)
            &&& state.tools[block_index(value)->0].0.len() > 0
            &&& state.tools[block_index(value)->0].1.len() > 0
            &&& has_room(state.content, "tool:"@ + number)
        } else {
            shape == Some("signature_delta"@)
        }
    } else if kind == Some("content_block_start"@) {
        let block = get(Some(value), "content_block"@);
        let shape = as_text(get(block, "type"@));
        &&& block_index(value) is Some
        &&& block is Some
        &&& if shape == Some("text"@) {
            text_in(block, "text"@).len() == 0 || has_room(state.content, "text:"@ + number)
        } else if shape == Some("thinking"@) {
            text_in(block, "thinking"@).len() == 0 || has_room(
                state.content,
                "reasoning:"@ + number,
            )
        } else if shape == Some("tool_use"@) {
            &&& text_in(block, "id"@).len() > 0
            &&& text_in(block, "name"@).len() > 0
            &&& has_room(state.content, "tool:"@ + number)
        } else {
            shape == Some("redacted_thinking"@)
        }
    } else if kind == Some("message_stop"@) {
        state.started && state.finish_seen
    } else {
        kind == Some("ping"@) || kind == Some("content_block_stop"@) || kind == Some(
            "message_start"@,
        ) || kind == Some("message_delta"@)
    }
}

/// An event of the Messages protocol that makes sense is never refused for what it says, and one
/// that makes none always is.
pub proof fn lemma_sense_is_seen(state: DecoderView, value: JsonView)
    ensures
        messages_step(at(state, seq![]), value).ok <==> makes_sense(state, value),
{
    reveal(messages_step);
    reveal(block_start_step);
    reveal(block_delta_step);
    lemma_event_types();
    lemma_block_types();
    let begun = at(state, seq![]);
    let number = decimal_text(block_index(value)->0 as nat);
    assert(""@ =~= Seq::<char>::empty());
    lemma_room(begun, "text:"@ + number, ContentKind::Text);
    lemma_room(begun, "reasoning:"@ + number, ContentKind::Reasoning);
    lemma_room(begun, "tool:"@ + number, ContentKind::ToolCall);
    let block = get(Some(value), "content_block"@);
    if let (Some(id), Some(name)) = (as_text(get(block, "id"@)), as_text(get(block, "name"@))) {
        let entered = at(
            DecoderView { tools: state.tools.insert(block_index(value)->0, (id, name)), ..state },
            seq![],
        );
        lemma_room(entered, "tool:"@ + number, ContentKind::ToolCall);
    }
}

/// A new answer has not begun: nothing is known of it but its name, its model and its protocol.
pub proof fn lemma_new_answer(protocol: Protocol, model: Seq<char>, id: Seq<char>)
    ensures
        ({
            let answer = new_answer(protocol, model, id);
            &&& answer.protocol == protocol
            &&& answer.meta.response_id == id
            &&& answer.meta.model == model
            &&& answer.meta.finish_reason is None
            &&& !answer.started
            &&& !answer.terminal
            &&& !answer.finish_seen
            &&& answer.content.len() == 0
            &&& forall|block: u64| !#[trigger] answer.tools.contains_key(block)
            &&& answer.usage.input_tokens is None
            &&& answer.usage.output_tokens is None
            &&& answer.usage.total_tokens is None
            &&& answer.usage.cached_tokens is None
            &&& answer.usage.cache_write_tokens is None
            &&& answer.usage.reasoning_tokens is None
            &&& answer.writer.sequence == 0
            &&& answer.writer.items.len() == 0
            &&& answer.writer.pending.len() == 0
        }),
{
}

/// The part of an event that counts tokens: in Chat the usage of the event itself, unless it is
/// null, in Responses that of the answer in it. Messages count their tokens in fields of their own.
pub proof fn lemma_usage_is_found(protocol: Protocol, document: JsonView)
    ensures
        usage_part(protocol, document) == (match protocol {
            Protocol::Chat => if get(Some(document), "usage"@) == Some(JsonView::Null) {
                None
            } else {
                get(Some(document), "usage"@)
            },
            Protocol::Responses => get(get(Some(document), "response"@), "usage"@),
            Protocol::Messages => None,
        }),
{
}

} // verus!
