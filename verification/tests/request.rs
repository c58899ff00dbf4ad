use provider_opencode::catalog::{Model, Protocol};
use provider_opencode::credential::Tier;
use provider_opencode::error::{ProviderErrorKind, UpstreamSendState};
use provider_opencode::json::{Json, JsonObject};
use provider_opencode::operation::ProtocolPayload;
use provider_opencode::request::content::content;
use provider_opencode::request::encode;
use provider_opencode::request::history::encode_tool_use;
use provider_opencode::request::merge::{merge_chat_tool_calls, merge_messages};

fn json(text: &str) -> Json {
    Json::parse(text).unwrap()
}

fn object(text: &str) -> JsonObject {
    match json(text) {
        Json::Object(object) => object,
        _ => panic!("no object"),
    }
}

fn model(protocol: Protocol) -> Model {
    Model {
        tier: Tier::Zen,
        id: "m".to_owned(),
        name: "M".to_owned(),
        protocol,
        tools: true,
        vision: true,
        reasoning: true,
        context: 200_000,
        output: 65_536,
    }
}

fn payload(body: &str) -> ProtocolPayload {
    ProtocolPayload {
        protocol: "openai".to_owned(),
        body: object(body),
        context: JsonObject::new(),
    }
}

fn encoded(protocol: Protocol, body: &str) -> String {
    encode(&payload(body), &model(protocol)).unwrap().print()
}

fn refused(protocol: Protocol, body: &str) -> ProviderErrorKind {
    let error = encode(&payload(body), &model(protocol)).unwrap_err();
    assert_eq!(error.send_state, UpstreamSendState::NotSent);
    assert!(error.status.is_none() && error.retry_after.is_none() && !error.replay_safe);
    error.kind
}

fn plain(text: &str) -> String {
    json(text).print()
}

fn list(text: &str) -> Vec<Json> {
    match json(text) {
        Json::Array(items) => items,
        _ => panic!("no array"),
    }
}

#[test]
fn responses_keep_every_field_but_model_and_stream() {
    let body = r#"{"model":"alias","stream":false,"input":"hi","background":true,"x":[1,-2,0.5]}"#;
    assert_eq!(
        encoded(Protocol::Responses, body),
        plain(r#"{"model":"m","stream":true,"input":"hi","background":true,"x":[1,-2,0.5]}"#)
    );
}

#[test]
fn only_the_openai_protocol_is_taken() {
    let mut request = payload(r#"{"input":"hi"}"#);
    request.protocol = "anthropic".to_owned();
    for protocol in [Protocol::Responses, Protocol::Chat, Protocol::Messages] {
        let error = encode(&request, &model(protocol)).unwrap_err();
        assert_eq!(error.kind, ProviderErrorKind::InvalidRequest);
    }
}

#[test]
fn chat_request_has_all_settings() {
    let body = r#"{
        "instructions":"be brief","input":"hi","max_output_tokens":7,"temperature":0.5,"top_p":1,
        "reasoning":{"effort":"low"},"parallel_tool_calls":false,
        "text":{"format":{"type":"json_schema","name":"n","schema":{"type":"object"}}},
        "tools":[{"type":"function","name":"f","description":"d","parameters":{"type":"object"},"strict":true},
                 {"type":"function","name":"g"}],
        "tool_choice":{"type":"function","name":"f"}}"#;
    assert_eq!(
        encoded(Protocol::Chat, body),
        plain(
            r#"{"model":"m","stream":true,"stream_options":{"include_usage":true},"max_tokens":7,
            "reasoning_effort":"low",
            "response_format":{"type":"json_schema","json_schema":{"name":"n","schema":{"type":"object"}}},
            "parallel_tool_calls":false,"temperature":0.5,"top_p":1,
            "messages":[{"role":"system","content":"be brief"},
                        {"role":"user","content":[{"type":"text","text":"hi"}]}],
            "tools":[{"type":"function","function":{"name":"f","description":"d","parameters":{"type":"object"},"strict":true}},
                     {"type":"function","function":{"name":"g"}}],
            "tool_choice":{"type":"function","function":{"name":"f"}}}"#
        )
    );
}

#[test]
fn messages_request_has_all_settings() {
    let body = r#"{
        "instructions":"be brief",
        "input":[{"role":"developer","content":"dev"},{"role":"user","content":"hi"},
                 {"role":"user","content":[{"type":"input_text","text":"more"}]}],
        "reasoning":{"effort":"none"},"text":{"format":{"type":"text"}},
        "temperature":0.5,
        "tools":[{"type":"function","name":"f","description":"d","parameters":{"type":"object"},"strict":true},
                 {"type":"function","name":"g"}],
        "tool_choice":"required"}"#;
    assert_eq!(
        encoded(Protocol::Messages, body),
        plain(
            r#"{"model":"m","stream":true,"max_tokens":8192,"temperature":0.5,
            "system":[{"type":"text","text":"be brief"},{"type":"text","text":"dev"}],
            "messages":[{"role":"user","content":[{"type":"text","text":"hi"},{"type":"text","text":"more"}]}],
            "tools":[{"name":"f","description":"d","input_schema":{"type":"object"}},
                     {"name":"g","input_schema":{"type":"object","properties":{}}}],
            "tool_choice":{"type":"any"}}"#
        )
    );
}

#[test]
fn messages_output_is_limited_by_the_model() {
    let mut small = model(Protocol::Messages);
    small.output = 4096;
    let body = encode(&payload(r#"{"input":"hi"}"#), &small).unwrap();
    assert_eq!(body.u64_at("max_tokens"), Some(4096));
    let body = encode(&payload(r#"{"input":"hi","max_output_tokens":9}"#), &small).unwrap();
    assert_eq!(body.u64_at("max_tokens"), Some(9));
}

#[test]
fn tool_history_is_translated_for_messages() {
    let body = r#"{"input":[
        {"role":"user","content":"go"},
        {"type":"reasoning","encrypted_content":"secret"},
        {"type":"function_call","call_id":"c1","name":"f","arguments":"{\"a\":1}"},
        {"type":"function_call","call_id":"c2","name":"g","arguments":"{}"},
        {"type":"function_call_output","call_id":"c1","output":"one"},
        {"type":"function_call_output","call_id":"c2","output":[{"type":"output_text","text":"two"}]}]}"#;
    let body = encode(&payload(body), &model(Protocol::Messages)).unwrap();
    assert_eq!(
        body.get("messages").unwrap().print(),
        plain(
            r#"[{"role":"user","content":[{"type":"text","text":"go"}]},
                {"role":"assistant","content":[{"type":"tool_use","id":"c1","name":"f","input":{"a":1}},
                                               {"type":"tool_use","id":"c2","name":"g","input":{}}]},
                {"role":"user","content":[{"type":"tool_result","tool_use_id":"c1","content":[{"type":"text","text":"one"}]},
                                          {"type":"tool_result","tool_use_id":"c2","content":[{"type":"text","text":"two"}]}]}]"#
        )
    );
}

#[test]
fn tool_output_in_chat_keeps_plain_text() {
    let body = r#"{"input":[
        {"type":"function_call_output","call_id":"c1","output":"one"},
        {"type":"function_call_output","call_id":"c2","output":[{"type":"text","text":"two"}]}]}"#;
    let body = encode(&payload(body), &model(Protocol::Chat)).unwrap();
    assert_eq!(
        body.get("messages").unwrap().print(),
        plain(
            r#"[{"role":"tool","tool_call_id":"c1","content":"one"},
                {"role":"tool","tool_call_id":"c2","content":[{"type":"text","text":"two"}]}]"#
        )
    );
}

#[test]
fn what_only_responses_can_do_is_unsupported() {
    for protocol in [Protocol::Chat, Protocol::Messages] {
        for body in [
            r#"{"input":"hi","previous_response_id":"resp_1"}"#,
            r#"{"input":"hi","background":true}"#,
            r#"{"input":[{"type":"web_search_call"}]}"#,
            r#"{"input":"hi","tools":[{"type":"web_search"}]}"#,
            r#"{"input":"hi","tool_choice":{"type":"web_search"}}"#,
            r#"{"input":[{"role":"user","content":[{"type":"input_file"}]}]}"#,
        ] {
            assert_eq!(refused(protocol, body), ProviderErrorKind::Unsupported, "{body}");
        }
        assert!(encode(
            &payload(r#"{"input":"hi","previous_response_id":null,"background":false}"#),
            &model(protocol)
        )
        .is_ok());
    }
    assert_eq!(
        refused(Protocol::Messages, r#"{"input":"hi","reasoning":{"effort":"high"}}"#),
        ProviderErrorKind::Unsupported
    );
    assert_eq!(
        refused(Protocol::Messages, r#"{"input":"hi","text":{"format":{"type":"json_object"}}}"#),
        ProviderErrorKind::Unsupported
    );
}

#[test]
fn what_makes_no_sense_is_invalid() {
    for protocol in [Protocol::Chat, Protocol::Messages] {
        for body in [
            r#"{}"#,
            r#"{"input":7}"#,
            r#"{"input":[]}"#,
            r#"{"input":[{"type":"reasoning"}]}"#,
            r#"{"input":"hi","instructions":7}"#,
            r#"{"input":[{"content":"hi"}]}"#,
            r#"{"input":[{"role":"user"}]}"#,
            r#"{"input":[{"role":"tool","content":"hi"}]}"#,
            r#"{"input":[{"role":"user","content":7}]}"#,
            r#"{"input":[{"role":"user","content":[{"type":"input_text"}]}]}"#,
            r#"{"input":[{"role":"user","content":[{"type":"input_image"}]}]}"#,
            r#"{"input":[{"type":"function_call","call_id":"c","name":"f"}]}"#,
            r#"{"input":[{"type":"function_call_output","call_id":"c"}]}"#,
            r#"{"input":"hi","tools":null}"#,
            r#"{"input":"hi","tools":[{"type":"function"}]}"#,
            r#"{"input":"hi","tool_choice":{"type":"function"}}"#,
        ] {
            assert_eq!(refused(protocol, body), ProviderErrorKind::InvalidRequest, "{body}");
        }
    }
    assert_eq!(
        refused(Protocol::Chat, r#"{"input":"hi","text":{"format":"json"}}"#),
        ProviderErrorKind::InvalidRequest
    );
    assert_eq!(
        refused(Protocol::Messages, r#"{"input":"hi","tool_choice":"sometimes"}"#),
        ProviderErrorKind::InvalidRequest
    );
    assert_eq!(
        refused(
            Protocol::Messages,
            r#"{"input":[{"type":"function_call","call_id":"c","name":"f","arguments":"[1]"}]}"#
        ),
        ProviderErrorKind::InvalidRequest
    );
}

#[test]
fn images_are_translated() {
    let chat = content(
        &json(r#"[{"type":"input_image","image_url":"data:image/png;base64,AA=="},
                  {"type":"input_image","image_url":"x","detail":"low"}]"#),
        false,
    )
    .unwrap();
    assert_eq!(
        Json::array(chat).print(),
        plain(
            r#"[{"type":"image_url","image_url":{"url":"data:image/png;base64,AA==","detail":"auto"}},
                {"type":"image_url","image_url":{"url":"x","detail":"low"}}]"#
        )
    );
    let messages = content(
        &json(r#"[{"type":"input_image","image_url":"data:image/png;base64,AA;base64,=="},
                  {"type":"input_image","image_url":"https://example.com/a"},
                  {"type":"input_image","image_url":"http://example.com/a"}]"#),
        true,
    )
    .unwrap();
    assert_eq!(
        Json::array(messages).print(),
        plain(
            r#"[{"type":"image","source":{"type":"base64","media_type":"image/png","data":"AA;base64,=="}},
                {"type":"image","source":{"type":"url","url":"https://example.com/a"}},
                {"type":"image","source":{"type":"url","url":"http://example.com/a"}}]"#
        )
    );
    for url in ["data:image/png,AA", "ftp://example.com", ""] {
        let part = format!(r#"[{{"type":"input_image","image_url":"{url}"}}]"#);
        assert_eq!(content(&json(&part), true).unwrap_err(), ProviderErrorKind::InvalidRequest);
    }
}

#[test]
fn the_first_part_that_is_refused_decides() {
    let parts = r#"[{"type":"text","text":"ok"},{"type":"audio"},{"type":"text"}]"#;
    assert_eq!(content(&json(parts), true).unwrap_err(), ProviderErrorKind::Unsupported);
    let parts = r#"[{"type":"text","text":"ok"},{"type":"text"},{"type":"audio"}]"#;
    assert_eq!(content(&json(parts), true).unwrap_err(), ProviderErrorKind::InvalidRequest);
}

#[test]
fn tool_use_takes_an_object() {
    let message = encode_tool_use("c", "f", Some(json(r#"{"a":1}"#))).unwrap();
    assert_eq!(
        message.print(),
        plain(r#"{"role":"assistant","content":[{"type":"tool_use","id":"c","name":"f","input":{"a":1}}]}"#)
    );
    for arguments in [None, Some(Json::Null), Some(json("[]"))] {
        assert_eq!(
            encode_tool_use("c", "f", arguments).unwrap_err(),
            ProviderErrorKind::InvalidRequest
        );
    }
}

#[test]
fn joining_turns_keeps_every_part() {
    let merged = merge_messages(list(
        r#"[{"role":"user","content":[1]},{"role":"user","content":[2,3]},{"role":"assistant","content":[4]},
            {"role":"assistant","content":null},{"role":"user","content":[5]}]"#,
    ));
    assert_eq!(
        Json::array(merged).print(),
        plain(
            r#"[{"role":"user","content":[1,2,3]},{"role":"assistant","content":[4]},
                {"role":"assistant","content":null},{"role":"user","content":[5]}]"#
        )
    );
}

#[test]
fn joining_calls_keeps_every_call() {
    let merged = merge_chat_tool_calls(list(
        r#"[{"role":"assistant","content":"text"},{"role":"assistant","content":null,"tool_calls":[1]},
            {"role":"assistant","content":null,"tool_calls":[2]},{"role":"user","content":"x"},
            {"role":"assistant","content":null,"tool_calls":[3]}]"#,
    ));
    assert_eq!(
        Json::array(merged).print(),
        plain(
            r#"[{"role":"assistant","content":"text","tool_calls":[1,2]},{"role":"user","content":"x"},
                {"role":"assistant","content":null,"tool_calls":[3]}]"#
        )
    );
}

#[test]
fn a_reasoning_item_changes_nothing() {
    let with = encoded(
        Protocol::Chat,
        r#"{"input":[{"role":"user","content":"a"},{"type":"reasoning","id":"r"},{"role":"user","content":"b"}]}"#,
    );
    let without = encoded(
        Protocol::Chat,
        r#"{"input":[{"role":"user","content":"a"},{"role":"user","content":"b"}]}"#,
    );
    assert_eq!(with, without);
}

#[test]
fn turns_are_told_apart_by_any_role() {
    let merged = |messages: &str| Json::array(merge_messages(list(messages))).print();
    assert_eq!(
        merged(r#"[{"role":1,"content":[1]},{"role":2,"content":[2]}]"#),
        plain(r#"[{"role":1,"content":[1]},{"role":2,"content":[2]}]"#)
    );
    assert_eq!(
        merged(r#"[{"role":1,"content":[1]},{"role":1,"content":[2]}]"#),
        plain(r#"[{"role":1,"content":[1,2]}]"#)
    );
    assert_eq!(
        merged(r#"[{"content":[1]},{"content":[2]},{"role":null,"content":[3]}]"#),
        plain(r#"[{"content":[1,2]},{"role":null,"content":[3]}]"#)
    );
}
