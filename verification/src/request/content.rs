//! The parts of a message, and pieces that every translation shares.

use crate::error::ProviderErrorKind;
use crate::json::{
    as_array, as_text, get, items_view, lemma_items_view, lemma_items_view_push, single, Json,
    JsonObject, JsonView,
};
use crate::text::{
    begins_with, same_text, split_at_first, split_once, starts_with, strip_prefix,
};
use vstd::prelude::*;

verus! {

/// The values of all results, or the first error among them.
pub open spec fn collected<T>(results: Seq<Result<T, ProviderErrorKind>>) -> Result<
    Seq<T>,
    ProviderErrorKind,
>
    decreases results.len(),
{
    if results.len() == 0 {
        Ok(Seq::empty())
    } else {
        match collected(results.drop_last()) {
            Err(kind) => Err(kind),
            Ok(values) => match results.last() {
                Err(kind) => Err(kind),
                Ok(value) => Ok(values.push(value)),
            },
        }
    }
}

/// An error among the first results is the error of all of them.
pub proof fn lemma_collected_prefix<T>(results: Seq<Result<T, ProviderErrorKind>>, count: int)
    requires
        0 <= count <= results.len(),
        collected(results.take(count)) is Err,
    ensures
        collected(results) == collected(results.take(count)),
    decreases results.len(),
{
    if count < results.len() {
        assert(results.drop_last().take(count) == results.take(count));
        lemma_collected_prefix(results.drop_last(), count);
    } else {
        assert(results.take(count) == results);
    }
}

/// Collecting succeeds exactly where every result is a value, and then keeps all of them in
/// their places; otherwise the error is that of the first result that is no value.
pub proof fn lemma_collected<T>(results: Seq<Result<T, ProviderErrorKind>>)
    ensures
        match collected(results) {
            Ok(values) => values.len() == results.len() && forall|i: int|
                0 <= i < results.len() ==> #[trigger] results[i] == Ok::<T, ProviderErrorKind>(
                    values[i],
                ),
            Err(kind) => exists|i: int|
                0 <= i < results.len() && #[trigger] results[i] == Err::<T, ProviderErrorKind>(kind)
                    && forall|j: int| 0 <= j < i ==> (#[trigger] results[j]) is Ok,
        },
    decreases results.len(),
{
    if results.len() > 0 {
        let front = results.drop_last();
        lemma_collected(front);
        match collected(front) {
            Ok(values) => {
                assert forall|i: int| 0 <= i < front.len() implies #[trigger] results[i] == Ok::<
                    T,
                    ProviderErrorKind,
                >(values[i]) by {
                    assert(front[i] == results[i]);
                }
                let last = results.len() - 1;
                assert(results[last] == results.last());
            },
            Err(kind) => {
                let i = choose|i: int|
                    0 <= i < front.len() && #[trigger] front[i] == Err::<T, ProviderErrorKind>(kind)
                        && forall|j: int| 0 <= j < i ==> (#[trigger] front[j]) is Ok;
                assert(results[i] == front[i]);
                assert forall|j: int| 0 <= j < i implies (#[trigger] results[j]) is Ok by {
                    assert(front[j] == results[j]);
                }
            },
        }
    }
}

/// The text that a value has to hold under `key`.
pub open spec fn required_text(value: JsonView, key: Seq<char>) -> Result<
    Seq<char>,
    ProviderErrorKind,
> {
    match as_text(get(Some(value), key)) {
        Some(text) => Ok(text),
        None => Err(ProviderErrorKind::InvalidRequest),
    }
}

/// The text under `key`, which has to be there.
pub fn required<'a>(value: &'a Json, key: &str) -> (text: Result<&'a str, ProviderErrorKind>)
    ensures
        match required_text(value@, key@) {
            Ok(expected) => text matches Ok(text) && text@ == expected,
            Err(kind) => text == Err::<&'a str, ProviderErrorKind>(kind),
        },
{
    match value.text_at(key) {
        Some(text) => Ok(text),
        None => Err(ProviderErrorKind::InvalidRequest),
    }
}

/// A text part, which both upstream protocols write alike.
pub open spec fn text_part(text: Seq<char>) -> JsonView {
    JsonView::Object(single("type"@, JsonView::Text("text"@)).insert("text"@, JsonView::Text(text)))
}

pub fn encode_text(text: &str) -> (part: Json)
    ensures
        part@ == text_part(text@),
{
    Json::object(JsonObject::new().with("type", Json::text("text")).with("text", Json::text(text)))
}

/// An image part of the Chat protocol: the address as it stands and the level of detail, which
/// is `auto` unless the part names one.
pub open spec fn chat_image(part: JsonView, url: Seq<char>) -> JsonView {
    let detail = match as_text(get(Some(part), "detail"@)) {
        Some(detail) => detail,
        None => "auto"@,
    };
    JsonView::Object(
        single("type"@, JsonView::Text("image_url"@)).insert(
            "image_url"@,
            JsonView::Object(
                single("url"@, JsonView::Text(url)).insert("detail"@, JsonView::Text(detail)),
            ),
        ),
    )
}

/// Where the Messages protocol takes an image from: the bytes inside a `data:` address, or a web
/// address.
pub open spec fn image_source(url: Seq<char>) -> Result<JsonView, ProviderErrorKind> {
    if starts_with(url, "data:"@) {
        match split_at_first(url.skip("data:"@.len() as int), ";base64,"@) {
            Some((media_type, data)) => Ok(
                JsonView::Object(
                    single("type"@, JsonView::Text("base64"@)).insert(
                        "media_type"@,
                        JsonView::Text(media_type),
                    ).insert("data"@, JsonView::Text(data)),
                ),
            ),
            None => Err(ProviderErrorKind::InvalidRequest),
        }
    } else if starts_with(url, "https://"@) || starts_with(url, "http://"@) {
        Ok(
            JsonView::Object(
                single("type"@, JsonView::Text("url"@)).insert("url"@, JsonView::Text(url)),
            ),
        )
    } else {
        Err(ProviderErrorKind::InvalidRequest)
    }
}

/// One part of a message, for the Messages protocol where `anthropic` holds and for Chat
/// otherwise.
pub open spec fn part_encoded(part: JsonView, anthropic: bool) -> Result<
    JsonView,
    ProviderErrorKind,
> {
    let kind = as_text(get(Some(part), "type"@));
    if kind == Some("input_text"@) || kind == Some("output_text"@) || kind == Some("text"@) {
        match required_text(part, "text"@) {
            Ok(text) => Ok(text_part(text)),
            Err(kind) => Err(kind),
        }
    } else if kind == Some("input_image"@) {
        match required_text(part, "image_url"@) {
            Err(kind) => Err(kind),
            Ok(url) => if !anthropic {
                Ok(chat_image(part, url))
            } else {
                match image_source(url) {
                    Err(kind) => Err(kind),
                    Ok(source) => Ok(
                        JsonView::Object(
                            single("type"@, JsonView::Text("image"@)).insert("source"@, source),
                        ),
                    ),
                }
            },
        }
    } else {
        Err(ProviderErrorKind::Unsupported)
    }
}

/// What becomes of each part of a message.
pub open spec fn part_results(parts: Seq<JsonView>, anthropic: bool) -> Seq<
    Result<JsonView, ProviderErrorKind>,
> {
    parts.map_values(|part: JsonView| part_encoded(part, anthropic))
}

/// The content of a message: one text part for a plain text, else every part of the list.
pub open spec fn content_encoded(value: JsonView, anthropic: bool) -> Result<
    Seq<JsonView>,
    ProviderErrorKind,
> {
    match value {
        JsonView::Text(text) => Ok(seq![text_part(text)]),
        JsonView::Array(parts) => collected(part_results(parts, anthropic)),
        _ => Err(ProviderErrorKind::InvalidRequest),
    }
}

/// Whether an outcome is the expected one.
pub open spec fn yields(
    outcome: Result<Json, ProviderErrorKind>,
    expected: Result<JsonView, ProviderErrorKind>,
) -> bool {
    match expected {
        Ok(value) => outcome matches Ok(json) && json@ == value,
        Err(kind) => outcome == Err::<Json, ProviderErrorKind>(kind),
    }
}

/// Whether a list of outcomes is the expected one.
pub open spec fn yields_all(
    outcome: Result<Vec<Json>, ProviderErrorKind>,
    expected: Result<Seq<JsonView>, ProviderErrorKind>,
) -> bool {
    match expected {
        Ok(values) => outcome matches Ok(items) && items_view(items@) == values,
        Err(kind) => outcome == Err::<Vec<Json>, ProviderErrorKind>(kind),
    }
}

fn encode_chat_image(part: &Json, url: &str) -> (image: Json)
    ensures
        image@ == chat_image(part@, url@),
{
    let detail = match part.text_at("detail") {
        Some(detail) => Json::text(detail),
        None => Json::text("auto"),
    };
    let address = JsonObject::new().with("url", Json::text(url)).with("detail", detail);
    Json::object(
        JsonObject::new().with("type", Json::text("image_url")).with(
            "image_url",
            Json::object(address),
        ),
    )
}

fn encode_image_source(url: &str) -> (source: Result<Json, ProviderErrorKind>)
    ensures
        yields(source, image_source(url@)),
{
    match strip_prefix(url, "data:") {
        Some(data) => match split_once(data.as_str(), ";base64,") {
            Some((media_type, data)) => Ok(
                Json::object(
                    JsonObject::new().with("type", Json::text("base64")).with(
                        "media_type",
                        Json::Text(media_type),
                    ).with("data", Json::Text(data)),
                ),
            ),
            None => Err(ProviderErrorKind::InvalidRequest),
        },
        None => if begins_with(url, "https://") || begins_with(url, "http://") {
            Ok(
                Json::object(
                    JsonObject::new().with("type", Json::text("url")).with("url", Json::text(url)),
                ),
            )
        } else {
            Err(ProviderErrorKind::InvalidRequest)
        },
    }
}

fn encode_part(part: &Json, anthropic: bool) -> (encoded: Result<Json, ProviderErrorKind>)
    ensures
        yields(encoded, part_encoded(part@, anthropic)),
{
    let kind = match part.text_at("type") {
        Some(kind) => kind,
        None => return Err(ProviderErrorKind::Unsupported),
    };
    if same_text(kind, "input_text") || same_text(kind, "output_text") || same_text(kind, "text") {
        return Ok(encode_text(required(part, "text")?));
    }
    if !same_text(kind, "input_image") {
        return Err(ProviderErrorKind::Unsupported);
    }
    let url = required(part, "image_url")?;
    if !anthropic {
        return Ok(encode_chat_image(part, url));
    }
    let source = encode_image_source(url)?;
    Ok(
        Json::object(
            JsonObject::new().with("type", Json::text("image")).with("source", source),
        ),
    )
}

/// The content of a message for one of the upstream protocols.
pub fn content(value: &Json, anthropic: bool) -> (encoded: Result<Vec<Json>, ProviderErrorKind>)
    ensures
        yields_all(encoded, content_encoded(value@, anthropic)),
{
    let mut encoded: Vec<Json> = Vec::new();
    if let Some(text) = value.as_text() {
        encoded.push(encode_text(text));
        proof {
            lemma_items_view_push(Seq::empty(), encoded@.last());
            assert(encoded@ == Seq::empty().push(encoded@.last()));
        }
        return Ok(encoded);
    }
    let parts = match value.as_array() {
        Some(parts) => parts,
        None => return Err(ProviderErrorKind::InvalidRequest),
    };
    let ghost results = part_results(items_view(parts@), anthropic);
    proof {
        lemma_items_view(parts@);
    }
    let mut i: usize = 0;
    assert(results.take(0) == Seq::<Result<JsonView, ProviderErrorKind>>::empty());
    while i < parts.len()
        invariant
            i <= parts.len(),
            results == part_results(items_view(parts@), anthropic),
            content_encoded(value@, anthropic) == collected(results),
            items_view(parts@).len() == parts.len(),
            forall|j: int| 0 <= j < parts.len() ==> #[trigger] items_view(parts@)[j] == parts@[j]@,
            collected(results.take(i as int)) == Ok::<_, ProviderErrorKind>(items_view(encoded@)),
        decreases parts.len() - i,
    {
        proof {
            assert(results.take(i + 1).drop_last() == results.take(i as int));
            assert(results[i as int] == part_encoded(items_view(parts@)[i as int], anthropic));
        }
        match encode_part(&parts[i], anthropic) {
            Ok(part) => {
                proof {
                    lemma_items_view_push(encoded@, part);
                }
                encoded.push(part);
            },
            Err(kind) => {
                proof {
                    lemma_collected_prefix(results, i + 1);
                }
                return Err(kind);
            },
        }
        i += 1;
    }
    assert(results.take(i as int) == results);
    Ok(encoded)
}

} // verus!
