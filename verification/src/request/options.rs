//! The settings of a request: tools, the choice among them, and the form of the answer.

use crate::error::ProviderErrorKind;
use crate::json::{
    as_array, as_object, as_text, field, get, items_view, lemma_items_view, lemma_items_view_push,
    single, view_option, Fields, Json, JsonObject, JsonView,
};
use crate::request::content::{
    collected, lemma_collected_prefix, required, required_text, yields, yields_all,
};
use crate::text::same_text;
use vstd::prelude::*;

verus! {

/// The fields with `key` set, where there is a value for it.
pub open spec fn with_field(fields: Fields, key: Seq<char>, value: Option<JsonView>) -> Fields {
    match value {
        Some(value) => fields.insert(key, value),
        None => fields,
    }
}

/// Sets a field where there is a value for it.
pub fn set_field(object: &mut JsonObject, key: &str, value: Option<&Json>)
    ensures
        final(object)@ == with_field(old(object)@, key@, view_option(value)),
{
    if let Some(value) = value {
        object.set(key, value.clone());
    }
}

/// The schema of a function that takes no arguments.
pub open spec fn empty_schema() -> JsonView {
    JsonView::Object(
        single("type"@, JsonView::Text("object"@)).insert(
            "properties"@,
            JsonView::Object(Map::empty()),
        ),
    )
}

/// A function as the Messages protocol lists it: the parameters are its input schema, and there
/// is always one.
pub open spec fn messages_tool(tool: JsonView, name: Seq<char>) -> JsonView {
    let described = with_field(
        single("name"@, JsonView::Text(name)),
        "description"@,
        get(Some(tool), "description"@),
    );
    let schema = match get(Some(tool), "parameters"@) {
        Some(parameters) => parameters,
        None => empty_schema(),
    };
    JsonView::Object(described.insert("input_schema"@, schema))
}

/// A function as Chat lists it.
pub open spec fn chat_tool(tool: JsonView, name: Seq<char>) -> JsonView {
    let described = with_field(
        single("name"@, JsonView::Text(name)),
        "description"@,
        get(Some(tool), "description"@),
    );
    let typed = with_field(described, "parameters"@, get(Some(tool), "parameters"@));
    let function = with_field(typed, "strict"@, get(Some(tool), "strict"@));
    JsonView::Object(
        single("type"@, JsonView::Text("function"@)).insert(
            "function"@,
            JsonView::Object(function),
        ),
    )
}

/// One tool of the request. Only functions can be offered.
pub open spec fn tool_encoded(tool: JsonView, anthropic: bool) -> Result<
    JsonView,
    ProviderErrorKind,
> {
    if as_text(get(Some(tool), "type"@)) != Some("function"@) {
        Err(ProviderErrorKind::Unsupported)
    } else {
        match required_text(tool, "name"@) {
            Err(kind) => Err(kind),
            Ok(name) => Ok(
                if anthropic {
                    messages_tool(tool, name)
                } else {
                    chat_tool(tool, name)
                },
            ),
        }
    }
}

/// What becomes of each tool.
pub open spec fn tool_results(tools: Seq<JsonView>, anthropic: bool) -> Seq<
    Result<JsonView, ProviderErrorKind>,
> {
    tools.map_values(|tool: JsonView| tool_encoded(tool, anthropic))
}

/// The list of tools.
pub open spec fn tools_encoded(tools: JsonView, anthropic: bool) -> Result<
    Seq<JsonView>,
    ProviderErrorKind,
> {
    match tools {
        JsonView::Array(tools) => collected(tool_results(tools, anthropic)),
        _ => Err(ProviderErrorKind::InvalidRequest),
    }
}

/// What the Messages protocol calls a mode of choosing tools.
pub open spec fn choice_mode(mode: Seq<char>) -> Result<JsonView, ProviderErrorKind> {
    let named = if mode == "required"@ {
        Some("any"@)
    } else if mode == "auto"@ {
        Some("auto"@)
    } else if mode == "none"@ {
        Some("none"@)
    } else {
        None
    };
    match named {
        Some(named) => Ok(JsonView::Object(single("type"@, JsonView::Text(named)))),
        None => Err(ProviderErrorKind::InvalidRequest),
    }
}

/// Which tool the model is to use: a mode, or one function by its name.
pub open spec fn choice_encoded(choice: JsonView, anthropic: bool) -> Result<
    JsonView,
    ProviderErrorKind,
> {
    match choice {
        JsonView::Text(mode) => if anthropic {
            choice_mode(mode)
        } else {
            Ok(choice)
        },
        _ => if as_text(get(Some(choice), "type"@)) == Some("function"@) {
            match required_text(choice, "name"@) {
                Err(kind) => Err(kind),
                Ok(name) => Ok(
                    if anthropic {
                        JsonView::Object(
                            single("type"@, JsonView::Text("tool"@)).insert(
                                "name"@,
                                JsonView::Text(name),
                            ),
                        )
                    } else {
                        JsonView::Object(
                            single("type"@, JsonView::Text("function"@)).insert(
                                "function"@,
                                JsonView::Object(single("name"@, JsonView::Text(name))),
                            ),
                        )
                    },
                ),
            }
        } else {
            Err(ProviderErrorKind::Unsupported)
        },
    }
}

/// The form of the answer for Chat. A schema moves one level down, without the type that named
/// it.
pub open spec fn format_encoded(format: JsonView) -> Result<JsonView, ProviderErrorKind> {
    match format {
        JsonView::Object(fields) => if as_text(field(fields, "type"@)) == Some("json_schema"@) {
            Ok(
                JsonView::Object(
                    single("type"@, JsonView::Text("json_schema"@)).insert(
                        "json_schema"@,
                        JsonView::Object(fields.remove("type"@)),
                    ),
                ),
            )
        } else {
            Ok(format)
        },
        _ => Err(ProviderErrorKind::InvalidRequest),
    }
}

fn encode_tool(tool: &Json, anthropic: bool) -> (encoded: Result<Json, ProviderErrorKind>)
    ensures
        yields(encoded, tool_encoded(tool@, anthropic)),
{
    let kind = match tool.text_at("type") {
        Some(kind) => kind,
        None => return Err(ProviderErrorKind::Unsupported),
    };
    if !same_text(kind, "function") {
        return Err(ProviderErrorKind::Unsupported);
    }
    let name = required(tool, "name")?;
    let mut function = JsonObject::new().with("name", Json::text(name));
    set_field(&mut function, "description", tool.get("description"));
    if anthropic {
        let schema = match tool.get("parameters") {
            Some(parameters) => parameters.clone(),
            None => Json::object(
                JsonObject::new().with("type", Json::text("object")).with(
                    "properties",
                    Json::object(JsonObject::new()),
                ),
            ),
        };
        function.set("input_schema", schema);
        Ok(Json::object(function))
    } else {
        set_field(&mut function, "parameters", tool.get("parameters"));
        set_field(&mut function, "strict", tool.get("strict"));
        Ok(
            Json::object(
                JsonObject::new().with("type", Json::text("function")).with(
                    "function",
                    Json::object(function),
                ),
            ),
        )
    }
}

/// The tools of a request for one of the upstream protocols.
pub fn encode_tools(tools: &Json, anthropic: bool) -> (encoded: Result<
    Vec<Json>,
    ProviderErrorKind,
>)
    ensures
        yields_all(encoded, tools_encoded(tools@, anthropic)),
{
    let items = match tools.as_array() {
        Some(items) => items,
        None => return Err(ProviderErrorKind::InvalidRequest),
    };
    let mut encoded: Vec<Json> = Vec::new();
    let ghost results = tool_results(items_view(items@), anthropic);
    proof {
        lemma_items_view(items@);
    }
    let mut i: usize = 0;
    assert(results.take(0) == Seq::<Result<JsonView, ProviderErrorKind>>::empty());
    while i < items.len()
        invariant
            i <= items.len(),
            results == tool_results(items_view(items@), anthropic),
            tools_encoded(tools@, anthropic) == collected(results),
            items_view(items@).len() == items.len(),
            forall|j: int| 0 <= j < items.len() ==> #[trigger] items_view(items@)[j] == items@[j]@,
            collected(results.take(i as int)) == Ok::<_, ProviderErrorKind>(items_view(encoded@)),
        decreases items.len() - i,
    {
        proof {
            assert(results.take(i + 1).drop_last() == results.take(i as int));
            assert(results[i as int] == tool_encoded(items_view(items@)[i as int], anthropic));
        }
        match encode_tool(&items[i], anthropic) {
            Ok(tool) => {
                proof {
                    lemma_items_view_push(encoded@, tool);
                }
                encoded.push(tool);
            },
            Err(kind) => {
                proof {
                    lemma_collected_prefix(results, i + 1);
                }
                return Err(kind);
            },
        }
        i += 1;
    }
    assert(results.take(i as int) == results);
    Ok(encoded)
}

fn encode_choice_mode(mode: &str) -> (encoded: Result<Json, ProviderErrorKind>)
    ensures
        yields(encoded, choice_mode(mode@)),
{
    let named = if same_text(mode, "required") {
        "any"
    } else if same_text(mode, "auto") {
        "auto"
    } else if same_text(mode, "none") {
        "none"
    } else {
        return Err(ProviderErrorKind::InvalidRequest);
    };
    Ok(Json::object(JsonObject::new().with("type", Json::text(named))))
}

/// The choice among the tools for one of the upstream protocols.
pub fn encode_choice(choice: &Json, anthropic: bool) -> (encoded: Result<Json, ProviderErrorKind>)
    ensures
        yields(encoded, choice_encoded(choice@, anthropic)),
{
    if let Some(mode) = choice.as_text() {
        return if anthropic {
            encode_choice_mode(mode)
        } else {
            Ok(choice.clone())
        };
    }
    let kind = match choice.text_at("type") {
        Some(kind) => kind,
        None => return Err(ProviderErrorKind::Unsupported),
    };
    if !same_text(kind, "function") {
        return Err(ProviderErrorKind::Unsupported);
    }
    let name = required(choice, "name")?;
    if anthropic {
        Ok(
            Json::object(
                JsonObject::new().with("type", Json::text("tool")).with("name", Json::text(name)),
            ),
        )
    } else {
        Ok(
            Json::object(
                JsonObject::new().with("type", Json::text("function")).with(
                    "function",
                    Json::object(JsonObject::new().with("name", Json::text(name))),
                ),
            ),
        )
    }
}

/// The form of the answer for Chat.
pub fn encode_format(format: &Json) -> (encoded: Result<Json, ProviderErrorKind>)
    ensures
        yields(encoded, format_encoded(format@)),
{
    let fields = match format.as_object() {
        Some(fields) => fields,
        None => return Err(ProviderErrorKind::InvalidRequest),
    };
    let schema = match format.text_at("type") {
        Some(kind) => same_text(kind, "json_schema"),
        None => false,
    };
    if schema {
        let mut inner = fields.clone();
        let _ = inner.remove("type");
        Ok(
            Json::object(
                JsonObject::new().with("type", Json::text("json_schema")).with(
                    "json_schema",
                    Json::object(inner),
                ),
            ),
        )
    } else {
        Ok(format.clone())
    }
}

} // verus!
