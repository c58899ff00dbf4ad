//! Reads the three upstream event streams step by step. Only an explicit end completes an answer.

pub mod course;
pub mod laws;
pub mod steps;
pub mod told;
pub mod whole;

use crate::catalog::Protocol;
use crate::error::{broken_protocol, protocol, ProviderError};
use crate::event::{
    events_view, facts_view, no_usage, push_event, push_fact, ContentKind, FinishReason,
    GatewayEvent, MetaView, ProviderEvent, ResponseMeta, TokenUsage, Usage, WireEvent,
};
use crate::json::{
    as_text, get, items_view, lemma_items_view, parsed_json, present, single, view_option,
    view_string, Json, JsonObject, JsonView,
};
use crate::response::{empty_writer, ResponseWriter};
use crate::stream::steps::{
    at, block_delta_step, block_start_step, call_step, calls_step, chat_step, choice_step,
    choices_step, closing_facts, content_ensured, counted, delta_step, document_decoded,
    event_decoded, finish_named, finishing, initial_arguments, message_start_step,
    messages_counted, messages_step, messages_usage, named, responses_decoded, responses_kind,
    responses_step, slot, slot_from, started, text_or, text_step, tool_step, written, Decoded,
    DecoderView, SseView, Step, LAST_CONTENT_INDEX,
};
use crate::text::{blank, decimal, same_text, texts_view};
use std::collections::BTreeMap;
use vstd::prelude::*;

verus! {

/// An event of the upstream's stream.
#[derive(Debug, PartialEq)]
pub struct SseEvent {
    pub event: Option<String>,
    pub data: String,
    pub id: Option<String>,
    pub retry: Option<u64>,
}

impl SseEvent {
    pub open spec fn view(&self) -> SseView {
        SseView {
            event: view_string(self.event),
            data: self.data@,
            id: view_string(self.id),
            retry: self.retry,
        }
    }
}

/// A running answer.
pub struct Decoder {
    pub protocol: Protocol,
    pub meta: ResponseMeta,
    pub started: bool,
    pub terminal: bool,
    pub finish: FinishReason,
    pub finish_seen: bool,
    pub content: Vec<String>,
    pub tools: BTreeMap<u64, (String, String)>,
    pub usage: Usage,
    pub writer: ResponseWriter,
}

pub open spec fn tools_view(tools: Map<u64, (String, String)>) -> Map<
    u64,
    (Seq<char>, Seq<char>),
> {
    tools.map_values(|entry: (String, String)| (entry.0@, entry.1@))
}

impl Decoder {
    pub open spec fn view(&self) -> DecoderView {
        DecoderView {
            protocol: self.protocol,
            meta: self.meta@,
            started: self.started,
            terminal: self.terminal,
            finish: self.finish,
            finish_seen: self.finish_seen,
            content: texts_view(self.content@),
            tools: tools_view(self.tools@),
            usage: self.usage,
            writer: self.writer@,
        }
    }
}

/// Whether a decoder, its facts and an outcome are where a step leads.
pub open spec fn reaches(
    state: DecoderView,
    facts: Seq<GatewayEvent>,
    outcome: Result<(), ProviderError>,
    step: Step,
) -> bool {
    &&& state == step.state
    &&& facts_view(facts) == step.facts
    &&& outcome == if step.ok {
        Ok::<(), ProviderError>(())
    } else {
        Err::<(), ProviderError>(broken_protocol())
    }
}

/// Whether a decoder and its events are what an upstream event leads to.
pub open spec fn decodes(
    state: DecoderView,
    events: Result<Vec<ProviderEvent>, ProviderError>,
    decoded: Decoded,
) -> bool {
    &&& state == decoded.state
    &&& match decoded.events {
        Some(expected) => events matches Ok(events) && events_view(events@) == expected,
        None => events == Err::<Vec<ProviderEvent>, ProviderError>(broken_protocol()),
    }
}

/// 32 lower-case hexadecimal digits.
pub open spec fn is_simple_id(text: Seq<char>) -> bool {
    text.len() == 32 && forall|i: int|
        0 <= i < 32 ==> ('0' <= #[trigger] text[i] <= '9' || 'a' <= text[i] <= 'f')
}

/// `uuid::Uuid::new_v4` printed in the simple form: 32 lower-case hexadecimal digits without
/// hyphens. Which digits they are is chance.
#[verifier::external_body]
fn random_id() -> (text: String)
    ensures
        is_simple_id(text@),
{
    uuid::Uuid::new_v4().simple().to_string()
}

/// An answer of which nothing has come yet.
pub open spec fn new_answer(protocol: Protocol, model: Seq<char>, id: Seq<char>) -> DecoderView {
    DecoderView {
        protocol,
        meta: MetaView { response_id: id, model, finish_reason: None },
        started: false,
        terminal: false,
        finish: FinishReason::Stop,
        finish_seen: false,
        content: seq![],
        tools: Map::empty(),
        usage: no_usage(),
        writer: empty_writer(),
    }
}

/// A prefix followed by a number.
fn key(prefix: &str, number: u64) -> (key: String)
    ensures
        key@ == prefix@ + crate::text::decimal_text(number as nat),
{
    let mut key = prefix.to_owned();
    key.append(decimal(number).as_str());
    key
}

fn text_in<'a>(value: Option<&'a Json>, other: &'a str) -> (text: &'a str)
    ensures
        text@ == text_or(view_option(value), other@),
{
    match value {
        Some(value) => match value.as_text() {
            Some(text) => text,
            None => other,
        },
        None => other,
    }
}

fn finish_reason(reason: &str) -> (finish: FinishReason)
    ensures
        finish == finish_named(reason@),
{
    if same_text(reason, "length") || same_text(reason, "max_tokens") {
        FinishReason::Length
    } else if same_text(reason, "tool_calls") || same_text(reason, "tool_use") {
        FinishReason::ToolCall
    } else if same_text(reason, "content_filter") {
        FinishReason::ContentFilter
    } else {
        FinishReason::Stop
    }
}

fn read_messages_usage(value: &Json) -> (usage: Usage)
    ensures
        usage == messages_usage(value@),
{
    let read = value.u64_at("cache_read_input_tokens");
    let write = value.u64_at("cache_creation_input_tokens");
    let input = match value.u64_at("input_tokens") {
        Some(input) => match input.checked_add(
            match read {
                Some(read) => read,
                None => 0,
            },
        ) {
            Some(sum) => sum.checked_add(
                match write {
                    Some(write) => write,
                    None => 0,
                },
            ),
            None => None,
        },
        None => None,
    };
    Usage {
        input_tokens: input,
        output_tokens: value.u64_at("output_tokens"),
        cached_tokens: read,
        cache_write_tokens: write,
        reasoning_tokens: None,
        total_tokens: None,
    }
}

/// The part of an event that reports the counters: in the Responses protocol that of the
/// response, in Chat that of the event unless it is `null`.
pub open spec fn usage_part(protocol: Protocol, document: JsonView) -> Option<JsonView> {
    match protocol {
        Protocol::Responses => get(get(Some(document), "response"@), "usage"@),
        Protocol::Chat => if present(get(Some(document), "usage"@)) {
            get(Some(document), "usage"@)
        } else {
            None
        },
        Protocol::Messages => None,
    }
}

/// The report of the counters in an event, as a document that holds nothing else.
pub fn usage_report(protocol: Protocol, document: &Json) -> (report: Option<Json>)
    ensures
        match usage_part(protocol, document@) {
            Some(usage) => report matches Some(report) && report@ == JsonView::Object(
                single("usage"@, usage),
            ),
            None => report is None,
        },
{
    let usage = match protocol {
        Protocol::Responses => match document.get("response") {
            Some(response) => response.get("usage"),
            None => None,
        },
        Protocol::Chat => match document.get("usage") {
            Some(usage) => if usage.is_null() {
                None
            } else {
                Some(usage)
            },
            None => None,
        },
        Protocol::Messages => None,
    };
    match usage {
        Some(usage) => Some(Json::object(JsonObject::new().with("usage", usage.clone()))),
        None => None,
    }
}

impl Decoder {
    /// An answer with a fresh identifier.
    pub fn new(protocol: Protocol, model: &str) -> (decoder: Decoder)
        ensures
            exists|id: Seq<char>|
                #[trigger] is_simple_id(id) && decoder@ == new_answer(
                    protocol,
                    model@,
                    "resp_"@ + id,
                ),
    {
        let id = random_id();
        assert(is_simple_id(id@));
        let mut name = "resp_".to_owned();
        name.append(id.as_str());
        Decoder::with_id(protocol, model, name.as_str())
    }

    /// An answer with this identifier.
    pub fn with_id(protocol: Protocol, model: &str, id: &str) -> (decoder: Decoder)
        ensures
            decoder@ == new_answer(protocol, model@, id@),
    {
        let decoder = Decoder {
            protocol,
            meta: ResponseMeta::new(id, model),
            started: false,
            terminal: false,
            finish: FinishReason::Stop,
            finish_seen: false,
            content: Vec::new(),
            tools: BTreeMap::new(),
            usage: Usage::new(),
            writer: ResponseWriter::new(),
        };
        assert(decoder@.content =~= seq![]);
        assert(decoder@.tools =~= Map::empty());
        decoder
    }

    fn start(&mut self, facts: &mut Vec<GatewayEvent>)
        ensures
            ({
                let step = started(at(old(self)@, facts_view(old(facts)@)));
                final(self)@ == step.state && facts_view(final(facts)@) == step.facts
            }),
    {
        if !self.started {
            self.started = true;
            push_fact(facts, GatewayEvent::Started(self.meta.clone()));
        }
    }

    fn index(&mut self, key: String, kind: ContentKind, facts: &mut Vec<GatewayEvent>) -> (index:
        Result<u32, ProviderError>)
        ensures
            ({
                let step = content_ensured(at(old(self)@, facts_view(old(facts)@)), key@, kind);
                &&& final(self)@ == step.state
                &&& facts_view(final(facts)@) == step.facts
                &&& if step.ok {
                    index == Ok::<u32, ProviderError>(slot(old(self)@.content, key@) as u32)
                } else {
                    index == Err::<u32, ProviderError>(broken_protocol())
                }
            }),
    {
        let ghost before = self@;
        let mut place: usize = 0;
        while place < self.content.len()
            invariant
                place <= self.content.len(),
                self@ == old(self)@,
                facts_view(facts@) == facts_view(old(facts)@),
                slot(self@.content, key@) == slot_from(self@.content, key@, place as int),
            decreases self.content.len() - place,
        {
            if same_text(self.content[place].as_str(), key.as_str()) {
                return Ok(#[verifier::truncate] (place as u32));
            }
            place += 1;
        }
        if place > LAST_CONTENT_INDEX {
            return Err(protocol());
        }
        let index: u32 = place as u32;
        self.content.push(key);
        assert(self@.content =~= before.content.push(key@));
        push_fact(facts, GatewayEvent::ContentAdded { index, kind });
        Ok(index)
    }

    fn text(
        &mut self,
        text: &str,
        reasoning: bool,
        key: String,
        facts: &mut Vec<GatewayEvent>,
    ) -> (outcome: Result<(), ProviderError>)
        ensures
            reaches(
                final(self)@,
                final(facts)@,
                outcome,
                text_step(at(old(self)@, facts_view(old(facts)@)), text@, reasoning, key@),
            ),
    {
        if text.is_empty() {
            return Ok(());
        }
        self.start(facts);
        let kind = if reasoning {
            ContentKind::Reasoning
        } else {
            ContentKind::Text
        };
        let content_index: u32 = self.index(key, kind, facts)?;
        let text = text.to_owned();
        push_fact(
            facts,
            if reasoning {
                GatewayEvent::ReasoningDelta { content_index, text }
            } else {
                GatewayEvent::TextDelta { content_index, text }
            },
        );
        Ok(())
    }

    fn tool(&mut self, block: u64, arguments: &str, facts: &mut Vec<GatewayEvent>) -> (outcome:
        Result<(), ProviderError>)
        ensures
            reaches(
                final(self)@,
                final(facts)@,
                outcome,
                tool_step(at(old(self)@, facts_view(old(facts)@)), block, arguments@),
            ),
    {
        let (call_id, name) = match self.tools.get(&block) {
            Some((id, name)) => (id.clone(), name.clone()),
            None => return Err(protocol()),
        };
        if call_id.as_str().is_empty() || name.as_str().is_empty() {
            return Err(protocol());
        }
        self.start(facts);
        let content_index: u32 = self.index(key("tool:", block), ContentKind::ToolCall, facts)?;
        push_fact(
            facts,
            GatewayEvent::ToolCallDelta {
                content_index,
                call_id,
                name: Some(name),
                arguments_delta: arguments.to_owned(),
            },
        );
        Ok(())
    }

    fn set_tool(&mut self, block: u64, id: String, name: String)
        ensures
            final(self)@ == (DecoderView {
                tools: old(self)@.tools.insert(block, (id@, name@)),
                ..old(self)@
            }),
    {
        self.tools.insert(block, (id, name));
        assert(self@.tools =~= old(self)@.tools.insert(block, (id@, name@)));
    }

    fn observe_usage(&mut self, reported: Option<TokenUsage>)
        ensures
            final(self)@ == counted(old(self)@, reported),
    {
        if let Some(usage) = reported {
            self.usage.merge(
                &Usage {
                    input_tokens: Some(usage.input_tokens),
                    output_tokens: Some(usage.output_tokens),
                    cached_tokens: Some(usage.cached_tokens),
                    cache_write_tokens: Some(usage.cache_write_tokens),
                    reasoning_tokens: Some(usage.reasoning_tokens),
                    total_tokens: Some(usage.total_tokens),
                },
            );
        }
    }

    fn observe_anthropic_usage(&mut self, value: Option<&Json>)
        ensures
            final(self)@ == messages_counted(old(self)@, view_option(value)),
    {
        if let Some(value) = value {
            self.usage.merge(&read_messages_usage(value));
        }
    }

    fn observe_finish(&mut self, reason: Option<&Json>)
        ensures
            final(self)@ == finishing(old(self)@, view_option(reason)),
    {
        if let Some(reason) = reason {
            if let Some(reason) = reason.as_text() {
                self.finish = finish_reason(reason);
                self.finish_seen = true;
            }
        }
    }

    fn name(&mut self, described: &Json)
        ensures
            final(self)@ == named(old(self)@, described@),
    {
        if let Some(id) = described.text_at("id") {
            let model = text_in(described.get("model"), "unknown");
            self.meta = ResponseMeta::new(id, model);
        }
    }

    fn call(&mut self, call: &Json, facts: &mut Vec<GatewayEvent>) -> (outcome: Result<
        (),
        ProviderError,
    >)
        ensures
            reaches(
                final(self)@,
                final(facts)@,
                outcome,
                call_step(at(old(self)@, facts_view(old(facts)@)), call@),
            ),
    {
        reveal(call_step);
        let block: u64 = match call.u64_at("index") {
            Some(block) => block,
            None => return Err(protocol()),
        };
        let (mut id, mut name) = match self.tools.get(&block) {
            Some((id, name)) => (id.clone(), name.clone()),
            None => (String::new(), String::new()),
        };
        if let Some(given) = call.text_at("id") {
            id = given.to_owned();
        }
        let ghost known = name@;
        assert(known + Seq::<char>::empty() =~= known);
        let mut arguments = "";
        if let Some(function) = call.get("function") {
            if let Some(more) = function.text_at("name") {
                name.append(more);
            }
            arguments = text_in(function.get("arguments"), "");
        }
        self.set_tool(block, id, name);
        self.tool(block, arguments, facts)
    }

    fn calls(&mut self, calls: &Vec<Json>, facts: &mut Vec<GatewayEvent>) -> (outcome: Result<
        (),
        ProviderError,
    >)
        ensures
            reaches(
                final(self)@,
                final(facts)@,
                outcome,
                calls_step(at(old(self)@, facts_view(old(facts)@)), items_view(calls@)),
            ),
    {
        let ghost values = items_view(calls@);
        let ghost goal = calls_step(at(self@, facts_view(facts@)), values);
        proof {
            lemma_items_view(calls@);
            assert(values.skip(0) =~= values);
        }
        let mut i: usize = 0;
        while i < calls.len()
            invariant
                i <= calls.len(),
                values == items_view(calls@),
                values.len() == calls.len(),
                forall|j: int| 0 <= j < calls.len() ==> #[trigger] values[j] == calls@[j]@,
                goal == calls_step(at(old(self)@, facts_view(old(facts)@)), values),
                goal == calls_step(at(self@, facts_view(facts@)), values.skip(i as int)),
            decreases calls.len() - i,
        {
            proof {
                reveal_with_fuel(calls_step, 2);
                assert(values.skip(i as int)[0] == values[i as int]);
                assert(values.skip(i as int).drop_first() =~= values.skip(i + 1));
            }
            self.call(&calls[i], facts)?;
            i += 1;
        }
        Ok(())
    }

    fn delta(&mut self, delta: &Json, facts: &mut Vec<GatewayEvent>) -> (outcome: Result<
        (),
        ProviderError,
    >)
        ensures
            reaches(
                final(self)@,
                final(facts)@,
                outcome,
                delta_step(at(old(self)@, facts_view(old(facts)@)), delta@),
            ),
    {
        if let Some(text) = delta.text_at("content") {
            self.text(text, false, "text".to_owned(), facts)?;
        }
        let reasoning = match delta.get("reasoning_content") {
            Some(reasoning) => Some(reasoning),
            None => delta.get("reasoning"),
        };
        if let Some(reasoning) = reasoning {
            if let Some(text) = reasoning.as_text() {
                self.text(text, true, "reasoning".to_owned(), facts)?;
            }
        }
        if let Some(calls) = delta.array_at("tool_calls") {
            self.calls(calls, facts)?;
        }
        Ok(())
    }

    fn choice(&mut self, choice: &Json, facts: &mut Vec<GatewayEvent>) -> (outcome: Result<
        (),
        ProviderError,
    >)
        ensures
            reaches(
                final(self)@,
                final(facts)@,
                outcome,
                choice_step(at(old(self)@, facts_view(old(facts)@)), choice@),
            ),
    {
        reveal(choice_step);
        if let Some(index) = choice.u64_at("index") {
            if index != 0 {
                return Err(protocol());
            }
        }
        self.start(facts);
        if let Some(delta) = choice.get("delta") {
            self.delta(delta, facts)?;
        }
        self.observe_finish(choice.get("finish_reason"));
        Ok(())
    }

    fn chat(&mut self, value: &Json, reported: Option<TokenUsage>, facts: &mut Vec<GatewayEvent>) -> (
    outcome: Result<(), ProviderError>)
        ensures
            reaches(
                final(self)@,
                final(facts)@,
                outcome,
                chat_step(at(old(self)@, facts_view(old(facts)@)), value@, reported),
            ),
    {
        reveal(chat_step);
        let ghost begun = at(self@, facts_view(facts@));
        let ghost metered = if present(get(Some(value@), "usage"@)) {
            at(counted(self@, reported), facts_view(facts@))
        } else {
            begun
        };
        if let Some(usage) = value.get("usage") {
            if !usage.is_null() {
                self.observe_usage(reported);
            }
        }
        assert(at(self@, facts_view(facts@)) == metered);
        let choices = match value.array_at("choices") {
            Some(choices) => choices,
            None => return Err(protocol()),
        };
        let ghost values = items_view(choices@);
        proof {
            lemma_items_view(choices@);
            assert(values.skip(0) =~= values);
        }
        let mut i: usize = 0;
        while i < choices.len()
            invariant
                i <= choices.len(),
                values == items_view(choices@),
                values.len() == choices.len(),
                forall|j: int| 0 <= j < choices.len() ==> #[trigger] values[j] == choices@[j]@,
                chat_step(at(old(self)@, facts_view(old(facts)@)), value@, reported)
                    == choices_step(metered, values),
                choices_step(metered, values) == choices_step(
                    at(self@, facts_view(facts@)),
                    values.skip(i as int),
                ),
            decreases choices.len() - i,
        {
            proof {
                reveal_with_fuel(choices_step, 2);
                assert(values.skip(i as int)[0] == values[i as int]);
                assert(values.skip(i as int).drop_first() =~= values.skip(i + 1));
            }
            self.choice(&choices[i], facts)?;
            i += 1;
        }
        Ok(())
    }

    fn message_start(&mut self, value: &Json, facts: &mut Vec<GatewayEvent>)
        ensures
            ({
                let step = message_start_step(at(old(self)@, facts_view(old(facts)@)), value@);
                final(self)@ == step.state && facts_view(final(facts)@) == step.facts && step.ok
            }),
    {
        if let Some(message) = value.get("message") {
            self.name(message);
            self.observe_anthropic_usage(message.get("usage"));
        }
        self.start(facts);
    }

    fn block_start(&mut self, value: &Json, facts: &mut Vec<GatewayEvent>) -> (outcome: Result<
        (),
        ProviderError,
    >)
        ensures
            reaches(
                final(self)@,
                final(facts)@,
                outcome,
                block_start_step(at(old(self)@, facts_view(old(facts)@)), value@),
            ),
    {
        reveal(block_start_step);
        let index: u64 = match value.u64_at("index") {
            Some(index) => index,
            None => return Err(protocol()),
        };
        let block = match value.get("content_block") {
            Some(block) => block,
            None => return Err(protocol()),
        };
        let kind = match block.text_at("type") {
            Some(kind) => kind,
            None => return Err(protocol()),
        };
        if same_text(kind, "text") {
            self.text(text_in(block.get("text"), ""), false, key("text:", index), facts)
        } else if same_text(kind, "thinking") {
            self.text(text_in(block.get("thinking"), ""), true, key("reasoning:", index), facts)
        } else if same_text(kind, "redacted_thinking") {
            Ok(())
        } else if same_text(kind, "tool_use") {
            match (block.text_at("id"), block.text_at("name")) {
                (Some(id), Some(name)) => {
                    self.set_tool(index, id.to_owned(), name.to_owned());
                    let arguments = first_arguments(block);
                    self.tool(index, arguments.as_str(), facts)
                },
                _ => Err(protocol()),
            }
        } else {
            Err(protocol())
        }
    }

    fn block_delta(&mut self, value: &Json, facts: &mut Vec<GatewayEvent>) -> (outcome: Result<
        (),
        ProviderError,
    >)
        ensures
            reaches(
                final(self)@,
                final(facts)@,
                outcome,
                block_delta_step(at(old(self)@, facts_view(old(facts)@)), value@),
            ),
    {
        reveal(block_delta_step);
        let index: u64 = match value.u64_at("index") {
            Some(index) => index,
            None => return Err(protocol()),
        };
        let delta = match value.get("delta") {
            Some(delta) => delta,
            None => return Err(protocol()),
        };
        let kind = match delta.text_at("type") {
            Some(kind) => kind,
            None => return Err(protocol()),
        };
        if same_text(kind, "text_delta") {
            match delta.text_at("text") {
                Some(text) => self.text(text, false, key("text:", index), facts),
                None => Err(protocol()),
            }
        } else if same_text(kind, "thinking_delta") {
            match delta.text_at("thinking") {
                Some(text) => self.text(text, true, key("reasoning:", index), facts),
                None => Err(protocol()),
            }
        } else if same_text(kind, "input_json_delta") {
            match delta.text_at("partial_json") {
                Some(text) => self.tool(index, text, facts),
                None => Err(protocol()),
            }
        } else if same_text(kind, "signature_delta") {
            Ok(())
        } else {
            Err(protocol())
        }
    }

    fn close(&mut self, facts: &mut Vec<GatewayEvent>)
        ensures
            final(self)@ == (DecoderView { terminal: true, ..old(self)@ }),
            facts_view(final(facts)@) == facts_view(old(facts)@) + closing_facts(old(self)@),
    {
        self.terminal = true;
        push_fact(facts, GatewayEvent::Usage(self.usage));
        push_fact(facts, GatewayEvent::Completed(self.meta.with_finish_reason(self.finish)));
        assert(facts_view(facts@) =~= facts_view(old(facts)@) + closing_facts(old(self)@));
    }

    fn messages(&mut self, value: &Json, facts: &mut Vec<GatewayEvent>) -> (outcome: Result<
        (),
        ProviderError,
    >)
        ensures
            reaches(
                final(self)@,
                final(facts)@,
                outcome,
                messages_step(at(old(self)@, facts_view(old(facts)@)), value@),
            ),
    {
        reveal(messages_step);
        let kind = text_in(value.get("type"), "");
        if same_text(kind, "ping") {
            Ok(())
        } else if same_text(kind, "message_start") {
            self.message_start(value, facts);
            Ok(())
        } else if same_text(kind, "content_block_start") {
            self.block_start(value, facts)
        } else if same_text(kind, "content_block_delta") {
            self.block_delta(value, facts)
        } else if same_text(kind, "message_delta") {
            let reason = match value.get("delta") {
                Some(delta) => delta.get("stop_reason"),
                None => None,
            };
            self.observe_finish(reason);
            self.observe_anthropic_usage(value.get("usage"));
            Ok(())
        } else if same_text(kind, "message_stop") {
            if !self.started || !self.finish_seen {
                return Err(protocol());
            }
            self.close(facts);
            Ok(())
        } else if same_text(kind, "content_block_stop") {
            Ok(())
        } else {
            Err(protocol())
        }
    }

    /// Writes the facts of an event.
    fn write(&mut self, facts: Vec<GatewayEvent>) -> (events: Result<
        Vec<ProviderEvent>,
        ProviderError,
    >)
        ensures
            decodes(final(self)@, events, written(at(old(self)@, facts_view(facts@)))),
    {
        self.writer.encode(facts)
    }

    fn responses(&mut self, event: SseEvent, value: Json, reported: Option<TokenUsage>) -> (events:
        Result<Vec<ProviderEvent>, ProviderError>)
        ensures
            decodes(
                final(self)@,
                events,
                responses_decoded(old(self)@, event@, value@, reported),
            ),
    {
        reveal(responses_decoded);
        let kind = match (value.text_at("type"), &event.event) {
            (Some(kind), _) => kind.to_owned(),
            (None, Some(kind)) => kind.clone(),
            (None, None) => "".to_owned(),
        };
        let kind = kind.as_str();
        assert(kind@ == responses_kind(event@, value@));
        if same_text(kind, "response.failed") || same_text(kind, "response.error") {
            return Err(protocol());
        }
        let mut facts: Vec<GatewayEvent> = Vec::new();
        assert(facts_view(facts@) =~= seq![]);
        let response = value.get("response");
        if !self.started {
            if let Some(response) = response {
                self.name(response);
                self.start(&mut facts);
            }
        }
        let usage = match response {
            Some(response) => response.get("usage"),
            None => None,
        };
        if usage.is_some() {
            self.observe_usage(reported);
            push_fact(&mut facts, GatewayEvent::Usage(self.usage));
        }
        let incomplete = same_text(kind, "response.incomplete");
        if incomplete || same_text(kind, "response.completed") {
            self.start(&mut facts);
            self.terminal = true;
            let reason = if incomplete {
                FinishReason::Length
            } else {
                FinishReason::Stop
            };
            push_fact(&mut facts, GatewayEvent::Completed(self.meta.with_finish_reason(reason)));
        }
        assert(at(self@, facts_view(facts@)) == responses_step(
            at(old(self)@, seq![]),
            kind@,
            value@,
            reported,
        ));
        let wire = WireEvent { event: event.event, data: value, id: event.id, retry: event.retry };
        let mut events: Vec<ProviderEvent> = Vec::new();
        push_event(&mut events, ProviderEvent { canonical: facts, wire });
        assert(events_view(events@) =~= responses_decoded(
            old(self)@,
            event@,
            value@,
            reported,
        ).events->0);
        Ok(events)
    }

    /// Takes in an event whose text was read as this document; nothing where it was no JSON.
    pub fn decode_document(
        &mut self,
        event: SseEvent,
        document: Option<Json>,
        reported: Option<TokenUsage>,
    ) -> (events: Result<Vec<ProviderEvent>, ProviderError>)
        ensures
            decodes(
                final(self)@,
                events,
                document_decoded(
                    old(self)@,
                    event@,
                    match document {
                        Some(document) => Some(document@),
                        None => None,
                    },
                    reported,
                ),
            ),
    {
        let value = match document {
            Some(value) => value,
            None => return Err(protocol()),
        };
        if value.get("error").is_some() {
            return Err(protocol());
        }
        if let Some(kind) = value.text_at("type") {
            if same_text(kind, "error") {
                return Err(protocol());
            }
        }
        let mut facts: Vec<GatewayEvent> = Vec::new();
        assert(facts_view(facts@) =~= seq![]);
        match self.protocol {
            Protocol::Responses => return self.responses(event, value, reported),
            Protocol::Chat => self.chat(&value, reported, &mut facts)?,
            Protocol::Messages => self.messages(&value, &mut facts)?,
        }
        self.write(facts)
    }

    /// Takes in an event of the upstream's stream, together with the counters that its usage
    /// report was read as. The events that come back are those of the client's stream.
    pub fn decode(&mut self, event: SseEvent, reported: Option<TokenUsage>) -> (events: Result<
        Vec<ProviderEvent>,
        ProviderError,
    >)
        ensures
            decodes(
                final(self)@,
                events,
                event_decoded(old(self)@, event@, parsed_json(event.data@), reported),
            ),
    {
        if self.terminal {
            let events: Vec<ProviderEvent> = Vec::new();
            assert(events_view(events@) =~= seq![]);
            return Ok(events);
        }
        if same_text(event.data.as_str(), "[DONE]") {
            if self.protocol != Protocol::Chat || !self.started || !self.finish_seen {
                return Err(protocol());
            }
            let mut facts: Vec<GatewayEvent> = Vec::new();
            self.close(&mut facts);
            assert(facts_view(facts@) =~= closing_facts(old(self)@));
            return self.write(facts);
        }
        if blank(event.data.as_str()) {
            let events: Vec<ProviderEvent> = Vec::new();
            assert(events_view(events@) =~= seq![]);
            return Ok(events);
        }
        let document = Json::parse(event.data.as_str());
        self.decode_document(event, document, reported)
    }
}

/// The arguments that a call starts with.
fn first_arguments(block: &Json) -> (arguments: String)
    ensures
        arguments@ == initial_arguments(block@),
{
    match block.get("input") {
        Some(input) => match input.as_object() {
            Some(fields) => if fields.is_empty() {
                String::new()
            } else {
                input.print()
            },
            None => String::new(),
        },
        None => String::new(),
    }
}

} // verus!
