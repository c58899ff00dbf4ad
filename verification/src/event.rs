//! What the host learns of a running answer: the facts that it meters, and the events that it
//! passes on to the client.

use crate::json::{view_string, Json, JsonView};
use vstd::prelude::*;

verus! {

/// Why an answer ended.
#[derive(Debug, Clone, Copy, PartialEq, Eq, Structural)]
pub enum FinishReason {
    Stop,
    Length,
    ToolCall,
    ContentFilter,
}

#[derive(Debug, Clone, Copy, PartialEq, Eq, Structural)]
pub enum ContentKind {
    Text,
    Reasoning,
    ToolCall,
}

/// The counters of an answer, each as far as it is known.
#[derive(Debug, Clone, Copy, PartialEq, Eq)]
pub struct Usage {
    pub input_tokens: Option<u64>,
    pub output_tokens: Option<u64>,
    pub cached_tokens: Option<u64>,
    pub cache_write_tokens: Option<u64>,
    pub reasoning_tokens: Option<u64>,
    pub total_tokens: Option<u64>,
}

/// A complete report of the counters.
#[derive(Debug, Clone, Copy, PartialEq, Eq)]
pub struct TokenUsage {
    pub input_tokens: u64,
    pub output_tokens: u64,
    pub cached_tokens: u64,
    pub cache_write_tokens: u64,
    pub reasoning_tokens: u64,
    pub total_tokens: u64,
}

/// A counter after a later report: the report's where it states one.
pub open spec fn later(known: Option<u64>, reported: Option<u64>) -> Option<u64> {
    match reported {
        Some(_) => reported,
        None => known,
    }
}

/// The counters after a later report, each on its own.
pub open spec fn merged(known: Usage, reported: Usage) -> Usage {
    Usage {
        input_tokens: later(known.input_tokens, reported.input_tokens),
        output_tokens: later(known.output_tokens, reported.output_tokens),
        cached_tokens: later(known.cached_tokens, reported.cached_tokens),
        cache_write_tokens: later(known.cache_write_tokens, reported.cache_write_tokens),
        reasoning_tokens: later(known.reasoning_tokens, reported.reasoning_tokens),
        total_tokens: later(known.total_tokens, reported.total_tokens),
    }
}

/// No counter known.
pub open spec fn no_usage() -> Usage {
    Usage {
        input_tokens: None,
        output_tokens: None,
        cached_tokens: None,
        cache_write_tokens: None,
        reasoning_tokens: None,
        total_tokens: None,
    }
}

fn later_counter(known: Option<u64>, reported: Option<u64>) -> (counter: Option<u64>)
    ensures
        counter == later(known, reported),
{
    match reported {
        Some(_) => reported,
        None => known,
    }
}

impl Usage {
    pub fn new() -> (usage: Usage)
        ensures
            usage == no_usage(),
    {
        Usage {
            input_tokens: None,
            output_tokens: None,
            cached_tokens: None,
            cache_write_tokens: None,
            reasoning_tokens: None,
            total_tokens: None,
        }
    }

    /// Takes over every counter that a later report states.
    pub fn merge(&mut self, reported: &Usage)
        ensures
            *final(self) == merged(*old(self), *reported),
    {
        self.input_tokens = later_counter(self.input_tokens, reported.input_tokens);
        self.output_tokens = later_counter(self.output_tokens, reported.output_tokens);
        self.cached_tokens = later_counter(self.cached_tokens, reported.cached_tokens);
        self.cache_write_tokens = later_counter(
            self.cache_write_tokens,
            reported.cache_write_tokens,
        );
        self.reasoning_tokens = later_counter(self.reasoning_tokens, reported.reasoning_tokens);
        self.total_tokens = later_counter(self.total_tokens, reported.total_tokens);
    }
}

/// Merging in an empty report changes nothing, merging a report twice is merging it once, and
/// merging in two reports is merging in the two merged.
pub proof fn lemma_merged(known: Usage, first: Usage, second: Usage)
    ensures
        merged(known, no_usage()) == known,
        merged(merged(known, first), first) == merged(known, first),
        merged(merged(known, first), second) == merged(known, merged(first, second)),
{
}

/// Which answer is meant, the model that gives it, and why it ended.
#[derive(Debug, PartialEq)]
pub struct ResponseMeta {
    pub response_id: String,
    pub model: String,
    pub finish_reason: Option<FinishReason>,
}

#[verifier::ext_equal]
pub struct MetaView {
    pub response_id: Seq<char>,
    pub model: Seq<char>,
    pub finish_reason: Option<FinishReason>,
}

impl ResponseMeta {
    pub open spec fn view(&self) -> MetaView {
        MetaView {
            response_id: self.response_id@,
            model: self.model@,
            finish_reason: self.finish_reason,
        }
    }

    /// An answer that has not ended yet.
    pub fn new(response_id: &str, model: &str) -> (meta: ResponseMeta)
        ensures
            meta@ == (MetaView { response_id: response_id@, model: model@, finish_reason: None }),
    {
        ResponseMeta {
            response_id: response_id.to_owned(),
            model: model.to_owned(),
            finish_reason: None,
        }
    }

    /// The same answer, ended.
    pub fn with_finish_reason(&self, reason: FinishReason) -> (meta: ResponseMeta)
        ensures
            meta@ == ended(self@, reason),
    {
        ResponseMeta {
            response_id: self.response_id.clone(),
            model: self.model.clone(),
            finish_reason: Some(reason),
        }
    }
}

pub open spec fn ended(meta: MetaView, reason: FinishReason) -> MetaView {
    MetaView { finish_reason: Some(reason), ..meta }
}

impl Clone for ResponseMeta {
    fn clone(&self) -> (copy: ResponseMeta)
        ensures
            copy@ == self@,
    {
        ResponseMeta {
            response_id: self.response_id.clone(),
            model: self.model.clone(),
            finish_reason: self.finish_reason,
        }
    }
}

/// One fact of a running answer.
#[derive(Debug, PartialEq)]
pub enum GatewayEvent {
    Started(ResponseMeta),
    ContentAdded { index: u32, kind: ContentKind },
    TextDelta { content_index: u32, text: String },
    ReasoningDelta { content_index: u32, text: String },
    ToolCallDelta {
        content_index: u32,
        call_id: String,
        name: Option<String>,
        arguments_delta: String,
    },
    Usage(Usage),
    Completed(ResponseMeta),
}

#[verifier::ext_equal]
pub enum FactView {
    Started(MetaView),
    ContentAdded(u32, ContentKind),
    TextDelta(u32, Seq<char>),
    ReasoningDelta(u32, Seq<char>),
    /// The index, the call's identifier, its name and the arguments added.
    ToolCallDelta(u32, Seq<char>, Option<Seq<char>>, Seq<char>),
    Usage(Usage),
    Completed(MetaView),
}

impl GatewayEvent {
    pub open spec fn view(&self) -> FactView {
        match self {
            GatewayEvent::Started(meta) => FactView::Started(meta@),
            GatewayEvent::ContentAdded { index, kind } => FactView::ContentAdded(*index, *kind),
            GatewayEvent::TextDelta { content_index, text } => FactView::TextDelta(
                *content_index,
                text@,
            ),
            GatewayEvent::ReasoningDelta { content_index, text } => FactView::ReasoningDelta(
                *content_index,
                text@,
            ),
            GatewayEvent::ToolCallDelta {
                content_index,
                call_id,
                name,
                arguments_delta,
            } => FactView::ToolCallDelta(
                *content_index,
                call_id@,
                view_string(*name),
                arguments_delta@,
            ),
            GatewayEvent::Usage(usage) => FactView::Usage(*usage),
            GatewayEvent::Completed(meta) => FactView::Completed(meta@),
        }
    }
}

pub open spec fn facts_view(facts: Seq<GatewayEvent>) -> Seq<FactView> {
    facts.map_values(|fact: GatewayEvent| fact.view())
}

/// Adds a fact at the end.
pub fn push_fact(facts: &mut Vec<GatewayEvent>, fact: GatewayEvent)
    ensures
        facts_view(final(facts)@) == facts_view(old(facts)@).push(fact@),
{
    facts.push(fact);
    assert(facts_view(facts@) =~= facts_view(old(facts)@).push(fact@));
}

/// An event of the client's protocol, with what the upstream's event stream said of it.
#[derive(Debug, PartialEq)]
pub struct WireEvent {
    pub event: Option<String>,
    pub data: Json,
    pub id: Option<String>,
    pub retry: Option<u64>,
}

#[verifier::ext_equal]
pub struct WireEventView {
    pub event: Option<Seq<char>>,
    pub data: JsonView,
    pub id: Option<Seq<char>>,
    pub retry: Option<u64>,
}

impl WireEvent {
    pub open spec fn view(&self) -> WireEventView {
        WireEventView {
            event: view_string(self.event),
            data: self.data@,
            id: view_string(self.id),
            retry: self.retry,
        }
    }
}

/// An event for the client together with the facts that become known with it.
#[derive(Debug, PartialEq)]
pub struct ProviderEvent {
    pub canonical: Vec<GatewayEvent>,
    pub wire: WireEvent,
}

#[verifier::ext_equal]
pub struct ProviderEventView {
    pub canonical: Seq<FactView>,
    pub wire: WireEventView,
}

impl ProviderEvent {
    pub open spec fn view(&self) -> ProviderEventView {
        ProviderEventView { canonical: facts_view(self.canonical@), wire: self.wire@ }
    }
}

pub open spec fn events_view(events: Seq<ProviderEvent>) -> Seq<ProviderEventView> {
    events.map_values(|event: ProviderEvent| event.view())
}

/// Adds an event at the end.
pub fn push_event(events: &mut Vec<ProviderEvent>, event: ProviderEvent)
    ensures
        events_view(final(events)@) == events_view(old(events)@).push(event@),
{
    events.push(event);
    assert(events_view(events@) =~= events_view(old(events)@).push(event@));
}

} // verus!
