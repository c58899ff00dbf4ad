use provider_opencode::catalog::Protocol;
use provider_opencode::error::{ProviderErrorKind, UpstreamSendState};
use provider_opencode::event::{
    ContentKind, FinishReason, GatewayEvent, ProviderEvent, ResponseMeta, TokenUsage, Usage,
};
use provider_opencode::json::Json;
use provider_opencode::response::{ResponseWriter, TEXT_LIMIT};
use provider_opencode::stream::{usage_report, Decoder, SseEvent};

fn event(data: &str) -> SseEvent {
    SseEvent { event: None, data: data.to_owned(), id: None, retry: None }
}

fn decoder(protocol: Protocol) -> Decoder {
    Decoder::with_id(protocol, "model", "resp_1")
}

/// Decodes events that all make sense and gives back everything that came of them.
fn run(decoder: &mut Decoder, events: &[&str]) -> Vec<ProviderEvent> {
    let mut all = Vec::new();
    for data in events {
        all.extend(decoder.decode(event(data), None).unwrap());
    }
    all
}

fn facts(events: &[ProviderEvent]) -> Vec<&GatewayEvent> {
    events.iter().flat_map(|event| event.canonical.iter()).collect()
}

fn kinds(events: &[ProviderEvent]) -> Vec<&str> {
    events.iter().map(|event| event.wire.event.as_deref().unwrap()).collect()
}

fn numbers(events: &[ProviderEvent]) -> Vec<u64> {
    events.iter().map(|event| event.wire.data.u64_at("sequence_number").unwrap()).collect()
}

fn json(text: &str) -> Json {
    Json::parse(text).unwrap()
}

fn refused(decoder: &mut Decoder, data: &str) {
    let error = decoder.decode(event(data), None).unwrap_err();
    assert_eq!(error.kind, ProviderErrorKind::Protocol, "{data}");
    assert_eq!(error.send_state, UpstreamSendState::Sent);
}

#[test]
fn chat_answer_becomes_a_responses_stream() {
    let mut decoder = decoder(Protocol::Chat);
    let events = run(
        &mut decoder,
        &[
            r#"{"choices":[{"index":0,"delta":{"role":"assistant"}}]}"#,
            r#"{"choices":[{"index":0,"delta":{"content":"hel"}}]}"#,
            r#"{"choices":[{"index":0,"delta":{"content":"lo"},"finish_reason":"stop"}]}"#,
            "[DONE]",
        ],
    );
    assert!(decoder.terminal);
    assert_eq!(
        kinds(&events),
        vec![
            "response.created",
            "response.output_item.added",
            "response.content_part.added",
            "response.output_text.delta",
            "response.output_text.delta",
            "response.output_text.done",
            "response.content_part.done",
            "response.output_item.done",
            "response.completed",
        ]
    );
    assert_eq!(numbers(&events), (0..9).collect::<Vec<u64>>());
    assert_eq!(
        events[3].wire.data.print(),
        json(
            r#"{"type":"response.output_text.delta","item_id":"item_resp_1_0","output_index":0,
                "content_index":0,"delta":"hel","sequence_number":3}"#
        )
        .print()
    );
    let last = events.last().unwrap();
    assert_eq!(
        last.wire.data.get("response").unwrap().print(),
        json(
            r#"{"id":"resp_1","object":"response","model":"model","status":"completed",
                "output":[{"id":"item_resp_1_0","type":"message","role":"assistant","status":"completed",
                           "content":[{"type":"output_text","text":"hello","annotations":[]}]}],
                "usage":null,"error":null,"incomplete_details":null}"#
        )
        .print()
    );
    let completed = ResponseMeta {
        response_id: "resp_1".to_owned(),
        model: "model".to_owned(),
        finish_reason: Some(FinishReason::Stop),
    };
    assert_eq!(last.canonical.last(), Some(&GatewayEvent::Completed(completed)));
}

#[test]
fn every_fact_goes_out_once_and_in_order() {
    let mut decoder = decoder(Protocol::Chat);
    let events = run(
        &mut decoder,
        &[
            r#"{"choices":[{"delta":{"tool_calls":[{"index":3,"id":"c1","function":{"name":"we"}}]}}]}"#,
            r#"{"choices":[{"delta":{"tool_calls":[{"index":3,"function":{"name":"ather","arguments":"{}"}}]}}]}"#,
            r#"{"choices":[{"delta":{},"finish_reason":"tool_calls"}]}"#,
            "[DONE]",
        ],
    );
    let seen = facts(&events);
    assert_eq!(seen.len(), 6);
    assert!(matches!(seen[0], GatewayEvent::Started(_)));
    assert_eq!(
        seen[1],
        &GatewayEvent::ContentAdded { index: 0, kind: ContentKind::ToolCall }
    );
    assert_eq!(
        seen[2],
        &GatewayEvent::ToolCallDelta {
            content_index: 0,
            call_id: "c1".to_owned(),
            name: Some("we".to_owned()),
            arguments_delta: String::new(),
        }
    );
    assert_eq!(
        seen[3],
        &GatewayEvent::ToolCallDelta {
            content_index: 0,
            call_id: "c1".to_owned(),
            name: Some("weather".to_owned()),
            arguments_delta: "{}".to_owned(),
        }
    );
    assert_eq!(seen[4], &GatewayEvent::Usage(Usage::new()));
    assert!(matches!(
        seen[5],
        GatewayEvent::Completed(meta) if meta.finish_reason == Some(FinishReason::ToolCall)
    ));
}

#[test]
fn nothing_comes_after_the_end() {
    let mut decoder = decoder(Protocol::Chat);
    run(
        &mut decoder,
        &[r#"{"choices":[{"delta":{"content":"x"},"finish_reason":"stop"}]}"#, "[DONE]"],
    );
    for data in ["[DONE]", "no json", r#"{"error":1}"#] {
        assert!(decoder.decode(event(data), None).unwrap().is_empty());
    }
}

#[test]
fn an_end_needs_a_beginning_and_a_reason() {
    refused(&mut decoder(Protocol::Chat), "[DONE]");
    let mut chat = decoder(Protocol::Chat);
    run(&mut chat, &[r#"{"choices":[{"delta":{"content":"x"}}]}"#]);
    refused(&mut chat, "[DONE]");
    assert!(!chat.terminal);
    refused(&mut decoder(Protocol::Messages), r#"{"type":"message_stop"}"#);
    let mut messages = decoder(Protocol::Messages);
    run(&mut messages, &[r#"{"type":"message_start","message":{}}"#]);
    refused(&mut messages, r#"{"type":"message_stop"}"#);
    refused(&mut decoder(Protocol::Responses), "[DONE]");
    refused(&mut decoder(Protocol::Messages), "[DONE]");
}

#[test]
fn events_that_break_the_protocol_are_refused() {
    for data in [
        "{",
        r#"{"error":null}"#,
        r#"{"type":"error"}"#,
        r#"{}"#,
        r#"{"choices":[{"index":1}]}"#,
        r#"{"choices":[{"delta":{"tool_calls":[{}]}}]}"#,
        r#"{"choices":[{"delta":{"tool_calls":[{"index":0,"id":"c"}]}}]}"#,
    ] {
        refused(&mut decoder(Protocol::Chat), data);
    }
    for data in [
        r#"{"type":"unknown"}"#,
        r#"{}"#,
        r#"{"type":"content_block_start","index":0}"#,
        r#"{"type":"content_block_start","content_block":{"type":"text"}}"#,
        r#"{"type":"content_block_start","index":0,"content_block":{"type":"image"}}"#,
        r#"{"type":"content_block_start","index":0,"content_block":{"type":"tool_use","id":"c"}}"#,
        r#"{"type":"content_block_delta","index":0,"delta":{"type":"text_delta"}}"#,
        r#"{"type":"content_block_delta","index":0,"delta":{"type":"thinking_delta"}}"#,
        r#"{"type":"content_block_delta","index":0,"delta":{"type":"input_json_delta","partial_json":"{}"}}"#,
        r#"{"type":"content_block_delta","index":0,"delta":{"type":"citation"}}"#,
    ] {
        refused(&mut decoder(Protocol::Messages), data);
    }
    for data in [r#"{"type":"response.failed"}"#, r#"{"type":"response.error"}"#] {
        refused(&mut decoder(Protocol::Responses), data);
    }
}

#[test]
fn quiet_events_change_nothing() {
    let mut decoder = decoder(Protocol::Messages);
    for data in [
        "",
        " \u{3000}\n",
        r#"{"type":"ping"}"#,
        r#"{"type":"content_block_stop"}"#,
        r#"{"type":"content_block_delta","index":0,"delta":{"type":"signature_delta"}}"#,
        r#"{"type":"content_block_start","index":0,"content_block":{"type":"redacted_thinking"}}"#,
        r#"{"type":"content_block_start","index":0,"content_block":{"type":"text","text":""}}"#,
    ] {
        assert!(decoder.decode(event(data), None).unwrap().is_empty(), "{data}");
    }
    assert!(!decoder.started);
}

#[test]
fn messages_usage_adds_the_cached_part() {
    let mut decoder = decoder(Protocol::Messages);
    let events = run(
        &mut decoder,
        &[
            r#"{"type":"message_start","message":{"id":"msg_1","usage":{"input_tokens":10,"cache_read_input_tokens":3,"cache_creation_input_tokens":2}}}"#,
            r#"{"type":"message_delta","delta":{"stop_reason":"max_tokens"},"usage":{"output_tokens":7}}"#,
            r#"{"type":"message_stop"}"#,
        ],
    );
    let expected = Usage {
        input_tokens: Some(15),
        output_tokens: Some(7),
        cached_tokens: Some(3),
        cache_write_tokens: Some(2),
        reasoning_tokens: None,
        total_tokens: None,
    };
    assert!(facts(&events).contains(&&GatewayEvent::Usage(expected)));
    let response = events.last().unwrap().wire.data.get("response").unwrap();
    assert_eq!(response.text_at("id"), Some("msg_1"));
    assert_eq!(response.text_at("model"), Some("unknown"));
    assert_eq!(response.text_at("status"), Some("incomplete"));
    assert_eq!(
        response.get("usage").unwrap().print(),
        json(
            r#"{"input_tokens":15,"output_tokens":7,"total_tokens":22,
                "input_tokens_details":{"cached_tokens":3},"output_tokens_details":{"reasoning_tokens":0}}"#
        )
        .print()
    );
}

#[test]
fn a_sum_that_does_not_fit_is_not_known() {
    let mut decoder = decoder(Protocol::Messages);
    run(
        &mut decoder,
        &[r#"{"type":"message_start","message":{"usage":{"input_tokens":18446744073709551615,"cache_read_input_tokens":1}}}"#],
    );
    assert_eq!(decoder.usage.input_tokens, None);
    assert_eq!(decoder.usage.cached_tokens, Some(1));
}

#[test]
fn a_report_reaches_the_host_and_comes_back() {
    let document = json(r#"{"choices":[],"usage":{"prompt_tokens":8}}"#);
    let report = usage_report(Protocol::Chat, &document).unwrap();
    assert_eq!(report.print(), r#"{"usage":{"prompt_tokens":8}}"#);
    assert!(usage_report(Protocol::Chat, &json(r#"{"usage":null}"#)).is_none());
    assert!(usage_report(Protocol::Messages, &document).is_none());
    let nested = json(r#"{"response":{"usage":null}}"#);
    assert_eq!(usage_report(Protocol::Responses, &nested).unwrap().print(), r#"{"usage":null}"#);
    let counters = TokenUsage {
        input_tokens: 8,
        output_tokens: 2,
        cached_tokens: 1,
        cache_write_tokens: 0,
        reasoning_tokens: 0,
        total_tokens: 10,
    };
    let mut decoder = decoder(Protocol::Chat);
    let with_usage = r#"{"choices":[],"usage":{"prompt_tokens":8}}"#;
    decoder.decode(event(with_usage), Some(counters)).unwrap();
    assert_eq!(decoder.usage.total_tokens, Some(10));
    let other = TokenUsage { total_tokens: 99, ..counters };
    decoder.decode(event(r#"{"choices":[]}"#), Some(other)).unwrap();
    assert_eq!(decoder.usage.total_tokens, Some(10));
}

#[test]
fn a_document_is_decoded_as_it_was_read() {
    let mut read = decoder(Protocol::Chat);
    let data = r#"{"choices":[{"delta":{"content":"x"}}]}"#;
    let direct = decoder(Protocol::Chat).decode(event(data), None).unwrap();
    let given = read.decode_document(event(data), Some(json(data)), None).unwrap();
    assert_eq!(kinds(&direct), kinds(&given));
    assert!(read.decode_document(event(data), None, None).is_err());
}

#[test]
fn initial_tool_input_is_printed() {
    let mut decoder = decoder(Protocol::Messages);
    let events = run(
        &mut decoder,
        &[r#"{"type":"content_block_start","index":2,"content_block":{"type":"tool_use","id":"c","name":"f","input":{"b":1,"a":[true]}}}"#],
    );
    assert!(facts(&events).contains(&&GatewayEvent::ToolCallDelta {
        content_index: 0,
        call_id: "c".to_owned(),
        name: Some("f".to_owned()),
        arguments_delta: r#"{"a":[true],"b":1}"#.to_owned(),
    }));
}

#[test]
fn pieces_of_content_get_consecutive_indices() {
    let mut decoder = decoder(Protocol::Messages);
    let events = run(
        &mut decoder,
        &[
            r#"{"type":"content_block_delta","index":7,"delta":{"type":"text_delta","text":"a"}}"#,
            r#"{"type":"content_block_delta","index":7,"delta":{"type":"thinking_delta","thinking":"b"}}"#,
            r#"{"type":"content_block_delta","index":9,"delta":{"type":"text_delta","text":"c"}}"#,
            r#"{"type":"content_block_delta","index":7,"delta":{"type":"text_delta","text":"d"}}"#,
        ],
    );
    let indices: Vec<u32> = facts(&events)
        .into_iter()
        .filter_map(|fact| match fact {
            GatewayEvent::TextDelta { content_index, .. } => Some(*content_index),
            GatewayEvent::ReasoningDelta { content_index, .. } => Some(*content_index),
            _ => None,
        })
        .collect();
    assert_eq!(indices, vec![0, 1, 2, 0]);
    assert_eq!(decoder.content, vec!["text:7", "reasoning:7", "text:9"]);
}

#[test]
fn content_has_a_limit() {
    let mut decoder = decoder(Protocol::Messages);
    for index in 0..=4096 {
        decoder.content.push(format!("text:{index}"));
    }
    refused(
        &mut decoder,
        r#"{"type":"content_block_delta","index":5000,"delta":{"type":"text_delta","text":"a"}}"#,
    );
}

#[test]
fn fresh_answers_have_fresh_identifiers() {
    let first = Decoder::new(Protocol::Chat, "m");
    let second = Decoder::new(Protocol::Chat, "m");
    assert_ne!(first.meta.response_id, second.meta.response_id);
    let digits = first.meta.response_id.strip_prefix("resp_").unwrap();
    assert_eq!(digits.len(), 32);
    assert!(digits.bytes().all(|byte| matches!(byte, b'0'..=b'9' | b'a'..=b'f')));
}

#[test]
fn finish_reasons_are_read() {
    for (name, reason) in [
        ("stop", FinishReason::Stop),
        ("end_turn", FinishReason::Stop),
        ("length", FinishReason::Length),
        ("max_tokens", FinishReason::Length),
        ("tool_calls", FinishReason::ToolCall),
        ("tool_use", FinishReason::ToolCall),
        ("content_filter", FinishReason::ContentFilter),
    ] {
        let mut decoder = decoder(Protocol::Chat);
        run(&mut decoder, &[&format!(r#"{{"choices":[{{"finish_reason":"{name}"}}]}}"#)]);
        assert_eq!(decoder.finish, reason, "{name}");
        assert!(decoder.finish_seen);
    }
}

#[test]
fn reasoning_is_read_from_the_first_field_that_is_there() {
    let mut decoder = decoder(Protocol::Chat);
    let events = run(
        &mut decoder,
        &[
            r#"{"choices":[{"delta":{"reasoning":"a"}}]}"#,
            r#"{"choices":[{"delta":{"reasoning_content":"b","reasoning":"c"}}]}"#,
            r#"{"choices":[{"delta":{"reasoning_content":null,"reasoning":"d"}}]}"#,
        ],
    );
    let texts: Vec<&str> = facts(&events)
        .into_iter()
        .filter_map(|fact| match fact {
            GatewayEvent::ReasoningDelta { text, .. } => Some(text.as_str()),
            _ => None,
        })
        .collect();
    assert_eq!(texts, vec!["a", "b"]);
}

#[test]
fn the_writer_refuses_what_has_no_place() {
    let mut writer = ResponseWriter::new();
    assert!(writer
        .encode(vec![GatewayEvent::ContentAdded { index: 0, kind: ContentKind::Text }])
        .is_err());
    assert!(writer
        .encode(vec![GatewayEvent::TextDelta { content_index: 0, text: "ab".to_owned() }])
        .is_err());
    assert_eq!(writer.bytes, 2);
    assert!(writer
        .encode(vec![GatewayEvent::Completed(ResponseMeta::new("r", "m"))])
        .is_err());
}

#[test]
fn a_call_without_a_name_is_refused() {
    let mut writer = ResponseWriter::new();
    let delta = GatewayEvent::ToolCallDelta {
        content_index: 0,
        call_id: "c".to_owned(),
        name: None,
        arguments_delta: String::new(),
    };
    assert!(writer
        .encode(vec![
            GatewayEvent::Started(ResponseMeta::new("r", "m")),
            GatewayEvent::ContentAdded { index: 0, kind: ContentKind::ToolCall },
            delta,
        ])
        .is_err());
    assert_eq!(writer.items[0].1.call_id, "c");
}

#[test]
fn text_has_a_limit_and_is_never_cut() {
    let mut writer = ResponseWriter::new();
    writer
        .encode(vec![
            GatewayEvent::Started(ResponseMeta::new("r", "m")),
            GatewayEvent::ContentAdded { index: 0, kind: ContentKind::Text },
        ])
        .unwrap();
    writer.bytes = TEXT_LIMIT - 3;
    writer
        .encode(vec![GatewayEvent::TextDelta { content_index: 0, text: "中".to_owned() }])
        .unwrap();
    assert_eq!(writer.bytes, 33_554_432);
    assert!(writer
        .encode(vec![GatewayEvent::TextDelta { content_index: 0, text: "x".to_owned() }])
        .is_err());
    assert_eq!(writer.items[0].1.text, "中");
}

#[test]
fn items_are_closed_in_the_order_of_their_indices() {
    let mut writer = ResponseWriter::new();
    writer
        .encode(vec![
            GatewayEvent::Started(ResponseMeta::new("r", "m")),
            GatewayEvent::ContentAdded { index: 5, kind: ContentKind::Reasoning },
            GatewayEvent::ContentAdded { index: 1, kind: ContentKind::Text },
            GatewayEvent::ReasoningDelta { content_index: 5, text: "why".to_owned() },
            GatewayEvent::TextDelta { content_index: 1, text: "so".to_owned() },
        ])
        .unwrap();
    let meta = ResponseMeta::new("r", "m").with_finish_reason(FinishReason::ContentFilter);
    let events = writer.encode(vec![GatewayEvent::Completed(meta)]).unwrap();
    assert_eq!(
        kinds(&events),
        vec![
            "response.output_text.done",
            "response.content_part.done",
            "response.output_item.done",
            "response.reasoning_summary_text.done",
            "response.reasoning_summary_part.done",
            "response.output_item.done",
            "response.incomplete",
        ]
    );
    assert_eq!(
        events[4].wire.data.print(),
        json(
            r#"{"type":"response.reasoning_summary_part.done","item_id":"item_r_5","output_index":5,
                "summary_index":0,"part":{"type":"summary_text","text":"why"},"sequence_number":11}"#
        )
        .print()
    );
    let response = events[6].wire.data.get("response").unwrap();
    assert_eq!(
        response.get("incomplete_details").unwrap().print(),
        r#"{"reason":"content_filter"}"#
    );
}

#[test]
fn numbers_end_at_the_largest() {
    let mut writer = ResponseWriter::new();
    writer.sequence = u64::MAX;
    assert!(writer.encode(vec![GatewayEvent::Started(ResponseMeta::new("r", "m"))]).is_err());
}

#[test]
fn a_later_report_replaces_only_what_it_states() {
    let mut usage = Usage { input_tokens: Some(1), output_tokens: Some(2), ..Usage::new() };
    usage.merge(&Usage { output_tokens: Some(3), ..Usage::new() });
    assert_eq!(usage, Usage { input_tokens: Some(1), output_tokens: Some(3), ..Usage::new() });
}

#[test]
fn an_answer_begins_first_and_ends_last() {
    let streams: [(Protocol, &[&str]); 3] = [
        (
            Protocol::Chat,
            &[
                r#"{"choices":[]}"#,
                r#"{"choices":[{"delta":{"content":"a"}},{"delta":{"content":"b"}}]}"#,
                r#"{"choices":[{"delta":{},"finish_reason":"stop"}]}"#,
                "[DONE]",
            ],
        ),
        (
            Protocol::Messages,
            &[
                r#"{"type":"ping"}"#,
                r#"{"type":"content_block_delta","index":0,"delta":{"type":"text_delta","text":"a"}}"#,
                r#"{"type":"message_start","message":{"id":"late"}}"#,
                r#"{"type":"message_delta","delta":{"stop_reason":"end_turn"}}"#,
                r#"{"type":"message_stop"}"#,
            ],
        ),
        (
            Protocol::Responses,
            &[
                r#"{"type":"response.created","response":{"id":"r"}}"#,
                r#"{"type":"response.in_progress","response":{"id":"r","usage":{}}}"#,
                r#"{"type":"response.completed"}"#,
            ],
        ),
    ];
    for (protocol, inputs) in streams {
        let mut decoder = decoder(protocol);
        let mut told = 0;
        let mut started = Vec::new();
        let mut completed = Vec::new();
        for data in inputs {
            for output in decoder.decode(event(data), None).unwrap() {
                for fact in &output.canonical {
                    match fact {
                        GatewayEvent::Started(_) => started.push(told),
                        GatewayEvent::Completed(_) => completed.push(told),
                        _ => {}
                    }
                    told += 1;
                }
            }
            assert_eq!(decoder.terminal, !completed.is_empty());
        }
        assert_eq!(started, vec![0]);
        assert_eq!(completed, vec![told - 1]);
    }
}

#[test]
fn refused_text_is_not_counted() {
    let mut writer = ResponseWriter::new();
    let delta = |text: &str| GatewayEvent::TextDelta { content_index: 0, text: text.to_owned() };
    writer
        .encode(vec![
            GatewayEvent::Started(ResponseMeta::new("r", "m")),
            GatewayEvent::ContentAdded { index: 0, kind: ContentKind::Text },
        ])
        .unwrap();
    writer.bytes = TEXT_LIMIT - 3;
    assert!(writer.observe(&delta("xxxx")).is_err());
    assert!(writer.observe(&delta("xx")).is_ok());
    assert!(writer.observe(&delta("xx")).is_err());
    assert!(writer.observe(&delta("x")).is_ok());
    assert_eq!(writer.bytes, TEXT_LIMIT);
    assert_eq!(writer.items[0].1.text, "xxx");
}

#[test]
fn room_is_given_while_there_is_any() {
    let mut writer = ResponseWriter::new();
    assert!(writer.reserve(TEXT_LIMIT - 5).is_ok());
    let error = writer.reserve(6).unwrap_err();
    assert_eq!(error.kind, ProviderErrorKind::Protocol);
    assert_eq!(error.send_state, UpstreamSendState::Sent);
    assert!(writer.reserve(usize::MAX).is_err());
    assert!(writer.reserve(3).is_ok());
    assert!(writer.reserve(3).is_err());
    assert!(writer.reserve(2).is_ok());
    assert!(writer.reserve(1).is_err());
    assert!(writer.reserve(0).is_ok());
    assert_eq!(writer.bytes, TEXT_LIMIT);
    assert!(writer.items.is_empty());
}

#[test]
fn the_end_reports_each_item_once() {
    let mut writer = ResponseWriter::new();
    writer
        .encode(vec![
            GatewayEvent::Started(ResponseMeta::new("r", "m")),
            GatewayEvent::ContentAdded { index: 9, kind: ContentKind::Text },
            GatewayEvent::ContentAdded { index: 2, kind: ContentKind::ToolCall },
            GatewayEvent::ContentAdded { index: 4, kind: ContentKind::Reasoning },
            GatewayEvent::TextDelta { content_index: 9, text: "a".to_owned() },
            GatewayEvent::ReasoningDelta { content_index: 4, text: "why".to_owned() },
            GatewayEvent::TextDelta { content_index: 9, text: "b".to_owned() },
        ])
        .unwrap();
    let events = writer
        .encode(vec![GatewayEvent::Completed(ResponseMeta::new("r", "m"))])
        .unwrap();
    let done: Vec<String> = events
        .iter()
        .filter(|event| event.wire.event.as_deref() == Some("response.output_item.done"))
        .map(|event| event.wire.data.get("item").unwrap().print())
        .collect();
    let last = events.last().unwrap();
    assert_eq!(last.wire.event.as_deref(), Some("response.completed"));
    let output: Vec<String> = last
        .wire
        .data
        .get("response")
        .unwrap()
        .array_at("output")
        .unwrap()
        .iter()
        .map(Json::print)
        .collect();
    assert_eq!(done, output);
    assert_eq!(done.len(), 3);
    assert!(done[0].contains("function_call") && done[1].contains("why") && done[2].contains("ab"));
}
