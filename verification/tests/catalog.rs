use provider_opencode::catalog::{Catalog, Model, Protocol};
use provider_opencode::credential::{Credential, Tier};
use provider_opencode::error::AdminErrorKind;
use provider_opencode::initialize;
use provider_opencode::json::{Json, JsonObject};

fn model(tier: Tier, id: &str, name: &str, context: u64, output: u64) -> Model {
    Model {
        tier,
        id: id.to_owned(),
        name: name.to_owned(),
        protocol: Protocol::Chat,
        tools: true,
        vision: true,
        reasoning: true,
        context,
        output,
    }
}

#[test]
fn shared_models_respect_the_smaller_product_limits_before_account_selection() {
    let catalog = Catalog {
        models: vec![
            model(Tier::Zen, "glm-5.1", "GLM-5.1", 204_800, 131_072),
            model(Tier::Go, "glm-5.1", "GLM-5.1", 202_752, 32_768),
        ],
    };
    let provider = initialize(Some(catalog)).ok().unwrap().core_provider();
    let models = provider.query_model_capabilities();
    let model = models.iter().find(|model| model.id == "glm-5.1").unwrap();
    assert_eq!(model.output, 32_768);
    assert_eq!(model.context, 202_752);
}

#[test]
fn models_are_listed_once_and_in_order() {
    let mut first = model(Tier::Zen, "b", "first", 5, 9);
    first.vision = false;
    let mut second = model(Tier::Go, "b", "second", 7, 8);
    second.tools = false;
    let catalog = Catalog {
        models: vec![
            model(Tier::Zen, "é", "e", 1, 1),
            first,
            model(Tier::Zen, "ba", "ba", 1, 1),
            second,
            model(Tier::Zen, "B", "B", 1, 1),
        ],
    };
    let entries = catalog.capabilities();
    let ids: Vec<&str> = entries.iter().map(|entry| entry.id.as_str()).collect();
    assert_eq!(ids, vec!["B", "b", "ba", "é"]);
    let shared = &entries[1];
    assert_eq!(shared.name, "first");
    assert_eq!((shared.context, shared.output), (5, 8));
    assert_eq!((shared.tools, shared.vision, shared.reasoning), (false, false, true));
}

#[test]
fn an_entry_belongs_to_one_product() {
    let catalog = Catalog {
        models: vec![model(Tier::Zen, "a", "first", 1, 1), model(Tier::Zen, "a", "again", 2, 2)],
    };
    assert_eq!(catalog.find(Tier::Zen, "a").unwrap().name, "first");
    assert!(catalog.find(Tier::Go, "a").is_none());
    assert!(catalog.find(Tier::Zen, "A").is_none());
}

#[test]
fn names_and_addresses_are_fixed() {
    assert_eq!(Protocol::Responses.path(), "responses");
    assert_eq!(Protocol::Chat.path(), "chat/completions");
    assert_eq!(Protocol::Messages.path(), "messages");
    assert_eq!((Tier::Zen.as_str(), Tier::Go.as_str()), ("zen", "go"));
    assert_eq!(Tier::Zen.base_url(), "https://opencode.ai/zen/v1");
    assert_eq!(Tier::Go.base_url(), "https://opencode.ai/zen/go/v1");
    assert_eq!(Tier::default(), Tier::Zen);
}

#[test]
fn credentials_are_read() {
    let read = |text: &str| {
        Credential::parse(&Json::parse(text).unwrap()).map(|found| (found.api_key, found.tier))
    };
    let key = || "k!~".to_owned();
    assert_eq!(read(r#"{"api_key":"k!~"}"#), Ok((key(), Tier::Zen)));
    assert_eq!(read(r#"{"api_key":"k!~","tier":"go"}"#), Ok((key(), Tier::Go)));
    assert_eq!(read(r#"{"api_key":"k!~","tier":{"go":null}}"#), Ok((key(), Tier::Go)));
    assert_eq!(read(r#"["k!~"]"#), Ok((key(), Tier::Zen)));
    assert_eq!(read(r#"["k!~","go"]"#), Ok((key(), Tier::Go)));
    for text in [
        r#"{}"#,
        r#"{"api_key":7}"#,
        r#"{"api_key":""}"#,
        r#"{"api_key":" k"}"#,
        r#"{"api_key":"k k"}"#,
        r#"{"api_key":"é"}"#,
        r#"{"api_key":"k","tier":"GO"}"#,
        r#"{"api_key":"k","tier":null}"#,
        r#"{"api_key":"k","tier":{"go":1}}"#,
        r#"{"api_key":"k","tier":{"go":null,"zen":null}}"#,
        r#"{"api_key":"k","other":1}"#,
        r#"[]"#,
        r#"["k","go",1]"#,
        r#""k""#,
    ] {
        assert_eq!(read(text).unwrap_err().kind, AdminErrorKind::Invalid, "{text}");
    }
}

#[test]
fn a_credential_is_read_back_from_its_document() {
    for tier in [Tier::Zen, Tier::Go] {
        let credential = Credential { api_key: "key".to_owned(), tier };
        let read = Credential::parse(&Json::object(credential.document())).ok().unwrap();
        assert_eq!((read.api_key.as_str(), read.tier), ("key", tier));
    }
}

#[test]
fn objects_keep_the_last_value_of_a_key() {
    let mut object = JsonObject {
        fields: vec![
            ("a".to_owned(), Json::unsigned(1)),
            ("b".to_owned(), Json::unsigned(2)),
            ("a".to_owned(), Json::unsigned(3)),
        ],
    };
    assert_eq!(object.get("a").unwrap().as_u64(), Some(3));
    assert_eq!(Json::object(object.clone()).print(), r#"{"a":3,"b":2}"#);
    object.set("b", Json::Null);
    assert_eq!(object.remove("a").unwrap().as_u64(), Some(3));
    assert_eq!(Json::object(object.clone()).print(), r#"{"b":null}"#);
    assert!(object.remove("a").is_none());
    let _ = object.remove("b");
    assert!(object.is_empty());
}

#[test]
fn documents_are_read_and_printed() {
    let text = r#"{"a":[null,true,-7,1.5,18446744073709551615],"b":"é\n"}"#;
    let document = Json::parse(text).unwrap();
    assert_eq!(document.print(), "{\"a\":[null,true,-7,1.5,18446744073709551615],\"b\":\"é\\n\"}");
    let items = document.array_at("a").unwrap();
    assert_eq!(items[4].as_u64(), Some(u64::MAX));
    assert_eq!(items[2].as_u64(), None);
    assert_eq!(items[3].as_u64(), None);
    match &items[2] {
        Json::Number(number) => assert_eq!(number.binary64(), Some((-7.0f64).to_bits())),
        _ => panic!("no number"),
    }
    assert_eq!(document.clone().print(), document.print());
    for text in ["", "{", "{} x", "nul"] {
        assert!(Json::parse(text).is_none(), "{text}");
    }
}

#[test]
fn documents_are_compared_by_what_they_hold() {
    let same = |left: &str, right: &str| {
        Json::parse(left).unwrap().same(&Json::parse(right).unwrap())
    };
    assert!(same(r#"{"a":[1,"x"],"b":null}"#, r#"{"b":null,"a":[1,"x"]}"#));
    assert!(same("-0.0", "0.0"));
    assert!(same("-3", "-3"));
    for (left, right) in [
        ("1", "1.0"),
        ("1.5", "2.5"),
        ("1", "-1"),
        ("[1]", "[1,2]"),
        (r#"{"a":1}"#, r#"{"a":1,"b":1}"#),
        (r#"{"a":1}"#, r#"{"a":2}"#),
        ("null", "false"),
        (r#""a""#, r#""b""#),
    ] {
        assert!(!same(left, right), "{left} {right}");
    }
}
