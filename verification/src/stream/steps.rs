//! How an upstream event changes a running answer, stated over plain values.

use crate::catalog::Protocol;
use crate::event::{
    ended, merged, no_usage, ContentKind, FactView, FinishReason, MetaView, ProviderEventView,
    TokenUsage, Usage, WireEventView,
};
use crate::json::{
    as_array, as_text, as_u64, get, present, printed_json, JsonView,
};
use crate::response::{facts_encoded, WriterView};
use crate::text::{decimal_text, is_blank};
use vstd::prelude::*;

verus! {

/// The largest index that a piece of content can have.
pub const LAST_CONTENT_INDEX: usize = 4096;

/// A running answer.
#[verifier::ext_equal]
pub struct DecoderView {
    pub protocol: Protocol,
    pub meta: MetaView,
    pub started: bool,
    pub terminal: bool,
    pub finish: FinishReason,
    pub finish_seen: bool,
    /// What the pieces of content are called; the place is the index.
    pub content: Seq<Seq<char>>,
    /// The identifier and the name of each call.
    pub tools: Map<u64, (Seq<char>, Seq<char>)>,
    pub usage: Usage,
    pub writer: WriterView,
}

/// A running answer with the facts of the event at hand, and whether the event makes sense.
#[verifier::ext_equal]
pub struct Step {
    pub state: DecoderView,
    pub facts: Seq<FactView>,
    pub ok: bool,
}

pub open spec fn at(state: DecoderView, facts: Seq<FactView>) -> Step {
    Step { state, facts, ok: true }
}

pub open spec fn failed(step: Step) -> Step {
    Step { ok: false, ..step }
}

pub open spec fn fact_added(step: Step, fact: FactView) -> Step {
    Step { facts: step.facts.push(fact), ..step }
}

/// The answer begins with the first event that belongs to it.
pub open spec fn started(step: Step) -> Step {
    if step.state.started {
        step
    } else {
        fact_added(
            Step { state: DecoderView { started: true, ..step.state }, ..step },
            FactView::Started(step.state.meta),
        )
    }
}

/// The first place from `from` on where a piece of content is called `key`, else the place after
/// the last.
pub open spec fn slot_from(content: Seq<Seq<char>>, key: Seq<char>, from: int) -> int
    decreases content.len() - from,
{
    if from >= content.len() || content[from] == key {
        from
    } else {
        slot_from(content, key, from + 1)
    }
}

pub open spec fn slot(content: Seq<Seq<char>>, key: Seq<char>) -> int {
    slot_from(content, key, 0)
}

/// Makes sure that there is a piece of content called `key`; a new one gets the next index.
pub open spec fn content_ensured(step: Step, key: Seq<char>, kind: ContentKind) -> Step {
    let content = step.state.content;
    if slot(content, key) < content.len() {
        step
    } else if content.len() > LAST_CONTENT_INDEX {
        failed(step)
    } else {
        fact_added(
            Step { state: DecoderView { content: content.push(key), ..step.state }, ..step },
            FactView::ContentAdded(content.len() as u32, kind),
        )
    }
}

/// Text for the piece of content called `key`; an empty text is no event.
pub open spec fn text_step(step: Step, text: Seq<char>, reasoning: bool, key: Seq<char>) -> Step {
    if text.len() == 0 {
        step
    } else {
        let kind = if reasoning {
            ContentKind::Reasoning
        } else {
            ContentKind::Text
        };
        let ready = content_ensured(started(step), key, kind);
        let index = slot(step.state.content, key) as u32;
        if !ready.ok {
            ready
        } else if reasoning {
            fact_added(ready, FactView::ReasoningDelta(index, text))
        } else {
            fact_added(ready, FactView::TextDelta(index, text))
        }
    }
}

/// What the content of a call is called.
pub open spec fn tool_key(block: u64) -> Seq<char> {
    "tool:"@ + decimal_text(block as nat)
}

/// Arguments for a call, which has to have an identifier and a name by now.
pub open spec fn tool_step(step: Step, block: u64, arguments: Seq<char>) -> Step {
    let tools = step.state.tools;
    if !tools.contains_key(block) || tools[block].0.len() == 0 || tools[block].1.len() == 0 {
        failed(step)
    } else {
        let ready = content_ensured(started(step), tool_key(block), ContentKind::ToolCall);
        let index = slot(step.state.content, tool_key(block)) as u32;
        if !ready.ok {
            ready
        } else {
            fact_added(
                ready,
                FactView::ToolCallDelta(index, tools[block].0, Some(tools[block].1), arguments),
            )
        }
    }
}

/// A complete report as counters that are all known.
pub open spec fn reported_usage(usage: TokenUsage) -> Usage {
    Usage {
        input_tokens: Some(usage.input_tokens),
        output_tokens: Some(usage.output_tokens),
        cached_tokens: Some(usage.cached_tokens),
        cache_write_tokens: Some(usage.cache_write_tokens),
        reasoning_tokens: Some(usage.reasoning_tokens),
        total_tokens: Some(usage.total_tokens),
    }
}

pub open spec fn counted(state: DecoderView, reported: Option<TokenUsage>) -> DecoderView {
    match reported {
        None => state,
        Some(usage) => DecoderView { usage: merged(state.usage, reported_usage(usage)), ..state },
    }
}

/// A counter that may be absent, counted as 0.
pub open spec fn or_zero(counter: Option<u64>) -> int {
    match counter {
        Some(counter) => counter as int,
        None => 0,
    }
}

/// The counters of the Messages protocol, which leaves the cached part out of the input. A sum
/// that does not fit is not known.
pub open spec fn messages_usage(value: JsonView) -> Usage {
    let read = as_u64(get(Some(value), "cache_read_input_tokens"@));
    let write = as_u64(get(Some(value), "cache_creation_input_tokens"@));
    let input = match as_u64(get(Some(value), "input_tokens"@)) {
        Some(input) => if input + or_zero(read) + or_zero(write) <= u64::MAX {
            Some((input + or_zero(read) + or_zero(write)) as u64)
        } else {
            None
        },
        None => None,
    };
    Usage {
        input_tokens: input,
        output_tokens: as_u64(get(Some(value), "output_tokens"@)),
        cached_tokens: read,
        cache_write_tokens: write,
        ..no_usage()
    }
}

pub open spec fn messages_counted(state: DecoderView, value: Option<JsonView>) -> DecoderView {
    match value {
        None => state,
        Some(value) => DecoderView { usage: merged(state.usage, messages_usage(value)), ..state },
    }
}

/// What either protocol calls the reason why an answer ended.
pub open spec fn finish_named(reason: Seq<char>) -> FinishReason {
    if reason == "length"@ || reason == "max_tokens"@ {
        FinishReason::Length
    } else if reason == "tool_calls"@ || reason == "tool_use"@ {
        FinishReason::ToolCall
    } else if reason == "content_filter"@ {
        FinishReason::ContentFilter
    } else {
        FinishReason::Stop
    }
}

pub open spec fn finishing(state: DecoderView, reason: Option<JsonView>) -> DecoderView {
    match as_text(reason) {
        None => state,
        Some(reason) => DecoderView { finish: finish_named(reason), finish_seen: true, ..state },
    }
}

/// The same step in another state.
pub open spec fn moved(step: Step, state: DecoderView) -> Step {
    Step { state, ..step }
}

pub open spec fn text_or(value: Option<JsonView>, other: Seq<char>) -> Seq<char> {
    match as_text(value) {
        Some(text) => text,
        None => other,
    }
}

/// One entry of Chat's list of call fragments: the identifier replaces the one known so far, the
/// name is continued.
#[verifier::opaque]
pub open spec fn call_step(step: Step, call: JsonView) -> Step {
    match as_u64(get(Some(call), "index"@)) {
        None => failed(step),
        Some(block) => {
            let tools = step.state.tools;
            let known = if tools.contains_key(block) {
                tools[block]
            } else {
                (seq![], seq![])
            };
            let function = get(Some(call), "function"@);
            let entry = (
                text_or(get(Some(call), "id"@), known.0),
                known.1 + text_or(get(function, "name"@), seq![]),
            );
            tool_step(
                Step {
                    state: DecoderView { tools: tools.insert(block, entry), ..step.state },
                    ..step
                },
                block,
                text_or(get(function, "arguments"@), ""@),
            )
        },
    }
}

/// The call fragments in their order, up to the first that makes no sense.
pub open spec fn calls_step(step: Step, calls: Seq<JsonView>) -> Step
    decreases calls.len(),
{
    if calls.len() == 0 || !step.ok {
        step
    } else {
        calls_step(call_step(step, calls[0]), calls.drop_first())
    }
}

/// A text that may be absent, for one piece of content.
pub open spec fn maybe_text_step(
    step: Step,
    value: Option<JsonView>,
    reasoning: bool,
    key: Seq<char>,
) -> Step {
    match as_text(value) {
        Some(text) if step.ok => text_step(step, text, reasoning, key),
        _ => step,
    }
}

/// Where a Chat fragment keeps its reasoning.
pub open spec fn reasoning_field(delta: JsonView) -> Option<JsonView> {
    match get(Some(delta), "reasoning_content"@) {
        Some(value) => Some(value),
        None => get(Some(delta), "reasoning"@),
    }
}

/// A fragment of a Chat answer: its text, its reasoning, its calls.
pub open spec fn delta_step(step: Step, delta: JsonView) -> Step {
    let spoken = maybe_text_step(step, get(Some(delta), "content"@), false, "text"@);
    let reasoned = maybe_text_step(spoken, reasoning_field(delta), true, "reasoning"@);
    match as_array(get(Some(delta), "tool_calls"@)) {
        Some(calls) => calls_step(reasoned, calls),
        None => reasoned,
    }
}

/// One choice of a Chat answer; there is only the first.
#[verifier::opaque]
pub open spec fn choice_step(step: Step, choice: JsonView) -> Step {
    if or_zero(as_u64(get(Some(choice), "index"@))) != 0 {
        failed(step)
    } else {
        let begun = started(step);
        let told = match get(Some(choice), "delta"@) {
            Some(delta) => delta_step(begun, delta),
            None => begun,
        };
        if told.ok {
            moved(told, finishing(told.state, get(Some(choice), "finish_reason"@)))
        } else {
            told
        }
    }
}

pub open spec fn choices_step(step: Step, choices: Seq<JsonView>) -> Step
    decreases choices.len(),
{
    if choices.len() == 0 || !step.ok {
        step
    } else {
        choices_step(choice_step(step, choices[0]), choices.drop_first())
    }
}

/// An event of Chat.
#[verifier::opaque]
pub open spec fn chat_step(step: Step, value: JsonView, reported: Option<TokenUsage>) -> Step {
    let begun = if present(get(Some(value), "usage"@)) {
        moved(step, counted(step.state, reported))
    } else {
        step
    };
    match as_array(get(Some(value), "choices"@)) {
        None => failed(begun),
        Some(choices) => choices_step(begun, choices),
    }
}

/// Names the answer as the upstream does, where it gives an identifier.
pub open spec fn named(state: DecoderView, described: JsonView) -> DecoderView {
    match as_text(get(Some(described), "id"@)) {
        None => state,
        Some(id) => DecoderView {
            meta: MetaView {
                response_id: id,
                model: text_or(get(Some(described), "model"@), "unknown"@),
                finish_reason: None,
            },
            ..state
        },
    }
}

pub open spec fn message_start_step(step: Step, value: JsonView) -> Step {
    started(
        match get(Some(value), "message"@) {
            None => step,
            Some(message) => moved(
                step,
                messages_counted(named(step.state, message), get(Some(message), "usage"@)),
            ),
        },
    )
}

/// The arguments that a call starts with: none where its input is empty.
pub open spec fn initial_arguments(block: JsonView) -> Seq<char> {
    match get(Some(block), "input"@) {
        Some(JsonView::Object(fields)) => if fields == Map::<Seq<char>, JsonView>::empty() {
            seq![]
        } else {
            printed_json(JsonView::Object(fields))
        },
        _ => seq![],
    }
}

pub open spec fn text_key(index: u64) -> Seq<char> {
    "text:"@ + decimal_text(index as nat)
}

pub open spec fn reasoning_key(index: u64) -> Seq<char> {
    "reasoning:"@ + decimal_text(index as nat)
}

/// A block of the Messages protocol begins.
#[verifier::opaque]
pub open spec fn block_start_step(step: Step, value: JsonView) -> Step {
    match (as_u64(get(Some(value), "index"@)), get(Some(value), "content_block"@)) {
        (Some(index), Some(block)) => {
            let kind = as_text(get(Some(block), "type"@));
            if kind == Some("text"@) {
                text_step(step, text_or(get(Some(block), "text"@), ""@), false, text_key(index))
            } else if kind == Some("thinking"@) {
                text_step(
                    step,
                    text_or(get(Some(block), "thinking"@), ""@),
                    true,
                    reasoning_key(index),
                )
            } else if kind == Some("redacted_thinking"@) {
                step
            } else if kind == Some("tool_use"@) {
                match (
                    as_text(get(Some(block), "id"@)),
                    as_text(get(Some(block), "name"@)),
                ) {
                    (Some(id), Some(name)) => tool_step(
                        Step {
                            state: DecoderView {
                                tools: step.state.tools.insert(index, (id, name)),
                                ..step.state
                            },
                            ..step
                        },
                        index,
                        initial_arguments(block),
                    ),
                    _ => failed(step),
                }
            } else {
                failed(step)
            }
        },
        _ => failed(step),
    }
}

/// A block of the Messages protocol grows.
#[verifier::opaque]
pub open spec fn block_delta_step(step: Step, value: JsonView) -> Step {
    match (as_u64(get(Some(value), "index"@)), get(Some(value), "delta"@)) {
        (Some(index), Some(delta)) => {
            let kind = as_text(get(Some(delta), "type"@));
            if kind == Some("text_delta"@) {
                match as_text(get(Some(delta), "text"@)) {
                    Some(text) => text_step(step, text, false, text_key(index)),
                    None => failed(step),
                }
            } else if kind == Some("thinking_delta"@) {
                match as_text(get(Some(delta), "thinking"@)) {
                    Some(text) => text_step(step, text, true, reasoning_key(index)),
                    None => failed(step),
                }
            } else if kind == Some("input_json_delta"@) {
                match as_text(get(Some(delta), "partial_json"@)) {
                    Some(text) => tool_step(step, index, text),
                    None => failed(step),
                }
            } else if kind == Some("signature_delta"@) {
                step
            } else {
                failed(step)
            }
        },
        _ => failed(step),
    }
}

/// The last facts of an answer.
pub open spec fn closing_facts(state: DecoderView) -> Seq<FactView> {
    seq![FactView::Usage(state.usage), FactView::Completed(ended(state.meta, state.finish))]
}

pub open spec fn message_stop_step(step: Step) -> Step {
    if !step.state.started || !step.state.finish_seen {
        failed(step)
    } else {
        Step {
            state: DecoderView { terminal: true, ..step.state },
            facts: step.facts + closing_facts(step.state),
            ..step
        }
    }
}

/// An event of the Messages protocol.
#[verifier::opaque]
pub open spec fn messages_step(step: Step, value: JsonView) -> Step {
    let kind = text_or(get(Some(value), "type"@), ""@);
    if kind == "ping"@ {
        step
    } else if kind == "message_start"@ {
        message_start_step(step, value)
    } else if kind == "content_block_start"@ {
        block_start_step(step, value)
    } else if kind == "content_block_delta"@ {
        block_delta_step(step, value)
    } else if kind == "message_delta"@ {
        moved(
            step,
            messages_counted(
                finishing(step.state, get(get(Some(value), "delta"@), "stop_reason"@)),
                get(Some(value), "usage"@),
            ),
        )
    } else if kind == "message_stop"@ {
        message_stop_step(step)
    } else if kind == "content_block_stop"@ {
        step
    } else {
        failed(step)
    }
}

/// An event of the upstream's stream.
#[verifier::ext_equal]
pub struct SseView {
    pub event: Option<Seq<char>>,
    pub data: Seq<char>,
    pub id: Option<Seq<char>>,
    pub retry: Option<u64>,
}

/// A running answer after an event, and what the client gets for it; nothing where the event
/// breaks the protocol.
#[verifier::ext_equal]
pub struct Decoded {
    pub state: DecoderView,
    pub events: Option<Seq<ProviderEventView>>,
}

/// What the Responses protocol calls an event.
pub open spec fn responses_kind(event: SseView, value: JsonView) -> Seq<char> {
    match (as_text(get(Some(value), "type"@)), event.event) {
        (Some(kind), _) => kind,
        (None, Some(kind)) => kind,
        (None, None) => ""@,
    }
}

/// The facts of a Responses event that has not failed.
pub open spec fn responses_step(
    step: Step,
    kind: Seq<char>,
    value: JsonView,
    reported: Option<TokenUsage>,
) -> Step {
    let response = get(Some(value), "response"@);
    let begun = match response {
        Some(response) if !step.state.started => started(
            Step { state: named(step.state, response), ..step },
        ),
        _ => step,
    };
    let metered = if get(response, "usage"@) is Some {
        let observed = moved(begun, counted(begun.state, reported));
        fact_added(observed, FactView::Usage(observed.state.usage))
    } else {
        begun
    };
    if kind == "response.completed"@ || kind == "response.incomplete"@ {
        let last = started(metered);
        let reason = if kind == "response.incomplete"@ {
            FinishReason::Length
        } else {
            FinishReason::Stop
        };
        fact_added(
            Step { state: DecoderView { terminal: true, ..last.state }, ..last },
            FactView::Completed(ended(last.state.meta, reason)),
        )
    } else {
        metered
    }
}

/// An event of the Responses protocol is passed on as it stands, together with its facts.
#[verifier::opaque]
pub open spec fn responses_decoded(
    state: DecoderView,
    event: SseView,
    value: JsonView,
    reported: Option<TokenUsage>,
) -> Decoded {
    let kind = responses_kind(event, value);
    if kind == "response.failed"@ || kind == "response.error"@ {
        Decoded { state, events: None }
    } else {
        let step = responses_step(at(state, seq![]), kind, value, reported);
        let wire = WireEventView {
            event: event.event,
            data: value,
            id: event.id,
            retry: event.retry,
        };
        Decoded {
            state: step.state,
            events: Some(seq![ProviderEventView { canonical: step.facts, wire }]),
        }
    }
}

/// Writes the facts of an event, if it made sense.
pub open spec fn written(step: Step) -> Decoded {
    if !step.ok {
        Decoded { state: step.state, events: None }
    } else {
        let done = facts_encoded(step.state.writer, step.facts, seq![]);
        Decoded {
            state: DecoderView { writer: done.writer, ..step.state },
            events: if done.ok {
                Some(done.events)
            } else {
                None
            },
        }
    }
}

/// Chat's end mark, which is only good after an answer that has begun and named a reason to end.
pub open spec fn done_decoded(state: DecoderView) -> Decoded {
    if state.protocol != Protocol::Chat || !state.started || !state.finish_seen {
        Decoded { state, events: None }
    } else {
        written(at(DecoderView { terminal: true, ..state }, closing_facts(state)))
    }
}

/// A document of an event; nothing where its text was no JSON.
pub open spec fn document_decoded(
    state: DecoderView,
    event: SseView,
    document: Option<JsonView>,
    reported: Option<TokenUsage>,
) -> Decoded {
    match document {
        None => Decoded { state, events: None },
        Some(value) => if get(Some(value), "error"@) is Some || as_text(get(Some(value), "type"@))
            == Some("error"@) {
            Decoded { state, events: None }
        } else {
            match state.protocol {
                Protocol::Responses => responses_decoded(state, event, value, reported),
                Protocol::Chat => written(chat_step(at(state, seq![]), value, reported)),
                Protocol::Messages => written(messages_step(at(state, seq![]), value)),
            }
        },
    }
}

/// An event of the upstream's stream. After the end nothing matters any more, and blank events
/// never do.
pub open spec fn event_decoded(
    state: DecoderView,
    event: SseView,
    document: Option<JsonView>,
    reported: Option<TokenUsage>,
) -> Decoded {
    if state.terminal {
        Decoded { state, events: Some(seq![]) }
    } else if event.data == "[DONE]"@ {
        done_decoded(state)
    } else if is_blank(event.data) {
        Decoded { state, events: Some(seq![]) }
    } else {
        document_decoded(state, event, document, reported)
    }
}

} // verus!
