use base64::Engine as _;
use provider_opencode::identity::digest::{digest, hexadecimal, identifier, identifier_from};
use provider_opencode::identity::{quota_session, read_header_text, read_headers, Identity};
use provider_opencode::json::{Json, JsonObject};
use provider_opencode::operation::ProtocolPayload;

fn object(text: &str) -> JsonObject {
    match Json::parse(text).unwrap() {
        Json::Object(object) => object,
        _ => panic!("no object"),
    }
}

fn identity(body: &str, context: &str) -> Identity {
    let payload = ProtocolPayload {
        protocol: "openai".to_owned(),
        body: object(body),
        context: object(context),
    };
    Identity::new(&payload, "key", "req_1")
}

fn header(name: &str, value: &[u8]) -> String {
    format!(r#"["{name}","{}"]"#, base64::engine::general_purpose::STANDARD.encode(value))
}

#[test]
fn names_are_derived_exactly() {
    assert_eq!(quota_session("acct_a"), "ses_6a1665157392qgs7NtjuJQ21ci");
    let identity = identity(r#"{"prompt_cache_key":"cache"}"#, "{}");
    assert_eq!(
        identity.project,
        "605c0a7490956dfb60b188827b60aad35e15c4330db09fe104e7b7258b1b6a18"
    );
    assert_eq!(identity.session, "ses_abcd70ecebef0EBucpRcb45Ebc");
    assert_eq!(
        identity.affinity,
        "abcd70ecebef7c0ec576a2af1ba2df80bf0e6364183a6ef103c72f02bfcd3a95"
    );
    assert_eq!(identity.request, "msg_44afe220f913IfZ5Nz9iSx9s17");
    assert_eq!(identity.parent, None);
    assert_eq!(
        digest(&[]),
        "e3b0c44298fc1c149afbf4c8996fb92427ae41e4649b934ca495991b7852b855"
    );
}

#[test]
fn names_cut_otherwise_are_other_names() {
    assert_ne!(digest(&["ab", "c"]), digest(&["a", "bc"]));
    assert_ne!(digest(&["abc"]), digest(&["abc", ""]));
    assert_eq!(identifier("ses", &["a"]), identifier("ses", &["a"]));
}

#[test]
fn identifiers_have_their_shape() {
    let mut bytes = [0u8; 32];
    for (index, byte) in bytes.iter_mut().enumerate() {
        *byte = (index * 9) as u8;
    }
    assert_eq!(
        hexadecimal(&bytes),
        "0009121b242d363f48515a636c757e879099a2abb4bdc6cfd8e1eaf3fc050e17"
    );
    assert_eq!(identifier_from("ses", &bytes), "ses_0009121b242ds1AJSbkt2BKTcl");
}

#[test]
fn the_first_place_that_has_a_name_decides() {
    let body = r#"{"metadata":{"session_id":"meta"}}"#;
    let by_metadata = identity(body, "{}");
    let by_context = identity(body, r#"{"session_id":"context"}"#);
    assert_eq!(by_metadata.session, identity("{}", r#"{"session_id":"meta"}"#).session);
    assert_eq!(by_context.session, identity("{}", r#"{"session_id":"context"}"#).session);
    let unusable = identity(body, r#"{"session_id":"two words"}"#);
    assert_eq!(unusable.session, identity("{}", "{}").session);
    let number = identity(body, r#"{"session_id":7}"#);
    assert_eq!(number.session, identity("{}", "{}").session);
}

#[test]
fn headers_come_first_and_the_last_readable_one_counts() {
    let named = |headers: &str| {
        identity(
            r#"{"metadata":{"x-opencode-session":"meta"}}"#,
            &format!(r#"{{"opaque_request_headers":[{headers}]}}"#),
        )
        .session
    };
    let plain = |name: &str| {
        identity(&format!(r#"{{"metadata":{{"x-opencode-session":"{name}"}}}}"#), "{}").session
    };
    let first = header("x-opencode-session", b"first");
    let second = header("x-opencode-session", b"second");
    let broken = header("x-opencode-session", &[0xff, 0xfe]);
    assert_eq!(named(&format!("{first},{second}")), plain("second"));
    assert_eq!(named(&format!("{first},{broken}")), plain("first"));
    assert_eq!(named(r#"["x-opencode-session","not base64!"]"#), plain("meta"));
    assert_eq!(named(r#"["x-opencode-session"],7,[7,"AA=="]"#), plain("meta"));
    assert_eq!(named(&header("x-other", b"first")), plain("meta"));
}

#[test]
fn only_naming_headers_are_read() {
    let context = object(&format!(
        r#"{{"opaque_request_headers":[{},{}]}}"#,
        header("authorization", b"secret"),
        header("x-opencode-project", b"p")
    ));
    let headers = read_headers(&context);
    assert_eq!(Json::object(headers).print(), r#"{"x-opencode-project":"p"}"#);
    assert_eq!(read_header_text(Some(vec![0x61, 0xc3, 0xa9])).as_deref(), Some("aé"));
    assert_eq!(read_header_text(Some(vec![0xc3])), None);
    assert_eq!(read_header_text(None), None);
}

#[test]
fn names_have_limits() {
    let of = |name: &str| identity(&format!(r#"{{"metadata":{{"x-opencode-request":"{name}"}}}}"#), "{}");
    let long = "x".repeat(256);
    assert_eq!(of(&long).request, long);
    for name in ["x".repeat(257), String::new(), "é".to_owned(), "a b".to_owned()] {
        assert_eq!(of(&name).request, identity("{}", "{}").request, "{name}");
    }
}

#[test]
fn the_last_message_of_the_user_names_the_request() {
    let of = |items: &str| identity(&format!(r#"{{"input":[{items}]}}"#), "{}").request;
    assert_eq!(
        of(r#"{"role":"user","id":"a"},{"role":"user","id":"b"},{"role":"assistant","id":"c"}"#),
        "b"
    );
    let derived = identity("{}", "{}").request;
    assert_eq!(of(r#"{"role":"user","id":"a"},{"role":"user","id":""}"#), derived);
    assert_eq!(of(r#"{"role":"assistant","id":"c"}"#), derived);
    assert_eq!(identity(r#"{"input":"hi"}"#, "{}").request, derived);
}

#[test]
fn parents_are_named_like_their_own_requests() {
    let child = identity(r#"{"metadata":{"session_id":"c","parent_thread_id":"p"}}"#, "{}");
    let parent = identity(r#"{"metadata":{"session_id":"p"}}"#, "{}");
    assert_eq!(child.parent, Some(parent.session));
}
