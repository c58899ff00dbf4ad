//! Under which names a request goes upstream. Every name is derived within the client's scope, so
//! that clients never share a session, and a repeated attempt keeps all of them.

pub mod digest;
pub mod laws;

use crate::identity::digest::{
    digest, digest_of, fingerprint_of, frames, identifier, identifier_of, lemma_frames_injective,
    names_view,
};
use crate::json::{
    as_array, as_text, field, get, items_view, lemma_items_view, view_text, Fields, Json,
    JsonObject, JsonView,
};
use crate::operation::ProtocolPayload;
use crate::text::{byte_length, count_bytes, graphic, is_graphic, same_text};
use vstd::prelude::*;
use vstd::utf8::{decode_utf8, valid_utf8};

verus! {

/// How many bytes a name may take that a client gives.
pub const NAME_LIMIT: usize = 256;

/// The bytes that a text in standard base64 stands for; `None` where it is no such text.
pub uninterp spec fn base64_decoded(text: Seq<char>) -> Option<Seq<u8>>;

/// `base64::engine::general_purpose::STANDARD.decode` either fails or gives the bytes that the
/// text stands for, which depend on the text alone.
#[verifier::external_body]
fn decode_base64(text: &str) -> (bytes: Option<Vec<u8>>)
    ensures
        bytes is Some <==> base64_decoded(text@) is Some,
        bytes matches Some(bytes) ==> base64_decoded(text@) == Some(bytes@),
{
    base64::Engine::decode(&base64::engine::general_purpose::STANDARD, text).ok()
}

/// `String::from_utf8` takes bytes that are well-formed UTF-8, and only those, as the text that
/// they encode.
#[verifier::external_body]
fn text_from_utf8(bytes: Vec<u8>) -> (text: Option<String>)
    ensures
        text is Some <==> valid_utf8(bytes@),
        text matches Some(text) ==> text@ == decode_utf8(bytes@),
{
    String::from_utf8(bytes).ok()
}

/// The request headers that name a request.
pub open spec fn is_identity_header(name: Seq<char>) -> bool {
    name == "x-opencode-project"@ || name == "x-opencode-session"@ || name == "x-opencode-request"@
        || name == "x-parent-session-id"@
}

/// What a header says, from the bytes that it was sent as.
pub open spec fn header_text(bytes: Option<Seq<u8>>) -> Option<Seq<char>> {
    match bytes {
        Some(bytes) if valid_utf8(bytes) => Some(decode_utf8(bytes)),
        _ => None,
    }
}

/// A header that names a request: a pair of its name and its bytes in base64.
pub open spec fn header_read(header: JsonView) -> Option<(Seq<char>, Seq<char>)> {
    match header {
        JsonView::Array(pair) => if pair.len() >= 2 {
            match (as_text(Some(pair[0])), as_text(Some(pair[1]))) {
                (Some(name), Some(encoded)) if is_identity_header(name) => match header_text(
                    base64_decoded(encoded),
                ) {
                    Some(text) => Some((name, text)),
                    None => None,
                },
                _ => None,
            }
        } else {
            None
        },
        _ => None,
    }
}

/// What the headers say; of a header that stands more than once, the last readable one counts.
pub open spec fn headers_read(headers: Seq<JsonView>) -> Fields
    decreases headers.len(),
{
    if headers.len() == 0 {
        Map::empty()
    } else {
        let before = headers_read(headers.drop_last());
        match header_read(headers.last()) {
            Some((name, text)) => before.insert(name, JsonView::Text(text)),
            None => before,
        }
    }
}

/// The headers that a request came with, as far as they name it.
pub open spec fn request_headers(context: Fields) -> Fields {
    match as_array(field(context, "opaque_request_headers"@)) {
        Some(headers) => headers_read(headers),
        None => Map::empty(),
    }
}

/// Whether a name that a client gives can be used.
pub open spec fn is_name(text: Seq<char>) -> bool {
    0 < text.len() && byte_length(text) <= NAME_LIMIT && is_graphic(text)
}

pub open spec fn usable(value: Option<JsonView>) -> Option<Seq<char>> {
    match as_text(value) {
        Some(text) if is_name(text) => Some(text),
        _ => None,
    }
}

/// What a request says under `key`: in a header, else in its context, else in its metadata. The
/// first place that has the key decides, even where what stands there cannot be used.
pub open spec fn named_value(
    headers: Fields,
    context: Fields,
    body: Fields,
    key: Seq<char>,
) -> Option<Seq<char>> {
    usable(
        if headers.contains_key(key) {
            field(headers, key)
        } else if context.contains_key(key) {
            field(context, key)
        } else {
            get(field(body, "metadata"@), key)
        },
    )
}

pub open spec fn first_of(first: Option<Seq<char>>, second: Option<Seq<char>>) -> Option<
    Seq<char>,
> {
    match first {
        Some(_) => first,
        None => second,
    }
}

/// The last message of the user among the items.
pub open spec fn last_user_item(items: Seq<JsonView>) -> Option<JsonView>
    decreases items.len(),
{
    if items.len() == 0 {
        None
    } else if as_text(get(Some(items.last()), "role"@)) == Some("user"@) {
        Some(items.last())
    } else {
        last_user_item(items.drop_last())
    }
}

/// The identifier of the last message of the user, if it can be used.
pub open spec fn last_user_id(body: Fields) -> Option<Seq<char>> {
    match as_array(field(body, "input"@)) {
        Some(items) => usable(get(last_user_item(items), "id"@)),
        None => None,
    }
}

/// The names of a request.
#[verifier::ext_equal]
pub struct IdentityView {
    pub project: Seq<char>,
    pub session: Seq<char>,
    pub request: Seq<char>,
    pub parent: Option<Seq<char>>,
    pub affinity: Seq<char>,
}

/// A session's identifier within the client's scope and project.
pub open spec fn session_id(scope: Seq<char>, project: Seq<char>, session: Seq<char>) -> Seq<char> {
    identifier_of("ses"@, fingerprint_of(seq![scope, project, session]))
}

/// What the client calls the project.
pub open spec fn project_name(headers: Fields, context: Fields, body: Fields) -> Seq<char> {
    match named_value(headers, context, body, "x-opencode-project"@) {
        Some(project) => project,
        None => "default"@,
    }
}

/// What the client calls the session: as it says, else the key of its prompt cache, else every
/// request is a session of its own.
pub open spec fn session_name(
    headers: Fields,
    context: Fields,
    body: Fields,
    request_id: Seq<char>,
) -> Seq<char> {
    let said = first_of(
        named_value(headers, context, body, "x-opencode-session"@),
        named_value(headers, context, body, "session_id"@),
    );
    match first_of(said, as_text(field(body, "prompt_cache_key"@))) {
        Some(session) => session,
        None => request_id,
    }
}

/// What the client calls the session that this one comes from.
pub open spec fn parent_name(headers: Fields, context: Fields, body: Fields) -> Option<Seq<char>> {
    first_of(
        named_value(headers, context, body, "x-parent-session-id"@),
        named_value(headers, context, body, "parent_thread_id"@),
    )
}

/// The names of a request, derived from what it says and the client's scope.
pub open spec fn identity_of(
    headers: Fields,
    context: Fields,
    body: Fields,
    scope: Seq<char>,
    request_id: Seq<char>,
) -> IdentityView {
    let project = project_name(headers, context, body);
    let session = session_name(headers, context, body, request_id);
    let said = first_of(
        named_value(headers, context, body, "x-opencode-request"@),
        last_user_id(body),
    );
    IdentityView {
        project: digest_of(seq![scope, project]),
        session: session_id(scope, project, session),
        request: match said {
            Some(request) => request,
            None => identifier_of("msg"@, fingerprint_of(seq![scope, request_id])),
        },
        parent: match parent_name(headers, context, body) {
            Some(parent) => Some(session_id(scope, project, parent)),
            None => None,
        },
        affinity: digest_of(seq![scope, project, session]),
    }
}

/// Under which names a request goes upstream.
#[derive(Debug, PartialEq)]
pub struct Identity {
    pub project: String,
    pub session: String,
    pub request: String,
    pub parent: Option<String>,
    pub affinity: String,
}

impl Identity {
    pub open spec fn view(&self) -> IdentityView {
        IdentityView {
            project: self.project@,
            session: self.session@,
            request: self.request@,
            parent: crate::json::view_string(self.parent),
            affinity: self.affinity@,
        }
    }
}

/// What a header says, from the bytes that it was sent as.
pub fn read_header_text(bytes: Option<Vec<u8>>) -> (text: Option<String>)
    ensures
        crate::json::view_string(text) == header_text(
            match bytes {
                Some(bytes) => Some(bytes@),
                None => None,
            },
        ),
{
    match bytes {
        Some(bytes) => text_from_utf8(bytes),
        None => None,
    }
}

fn identity_header(name: &str) -> (result: bool)
    ensures
        result == is_identity_header(name@),
{
    same_text(name, "x-opencode-project") || same_text(name, "x-opencode-session") || same_text(
        name,
        "x-opencode-request",
    ) || same_text(name, "x-parent-session-id")
}

fn read_header(header: &Json) -> (read: Option<(&str, String)>)
    ensures
        match header_read(header@) {
            Some((name, text)) => read matches Some((n, t)) && n@ == name && t@ == text,
            None => read is None,
        },
{
    let pair = header.as_array()?;
    proof {
        lemma_items_view(pair@);
    }
    if pair.len() < 2 {
        return None;
    }
    let name = pair[0].as_text()?;
    let encoded = pair[1].as_text()?;
    if !identity_header(name) {
        return None;
    }
    let text = read_header_text(decode_base64(encoded))?;
    Some((name, text))
}

/// What the headers that a request came with say, as far as they name it.
pub fn read_headers(context: &JsonObject) -> (headers: JsonObject)
    ensures
        headers@ == request_headers(context@),
{
    let mut headers = JsonObject::new();
    let listed = match context.get("opaque_request_headers") {
        Some(Json::Array(listed)) => listed,
        _ => return headers,
    };
    let ghost values = items_view(listed@);
    proof {
        lemma_items_view(listed@);
        assert(values.take(0) =~= seq![]);
    }
    let mut i: usize = 0;
    while i < listed.len()
        invariant
            i <= listed.len(),
            values == items_view(listed@),
            values.len() == listed.len(),
            forall|j: int| 0 <= j < listed.len() ==> #[trigger] values[j] == listed@[j]@,
            headers@ == headers_read(values.take(i as int)),
        decreases listed.len() - i,
    {
        proof {
            assert(values.take(i + 1).drop_last() =~= values.take(i as int));
            assert(values[i as int] == listed@[i as int]@);
        }
        if let Some((name, text)) = read_header(&listed[i]) {
            headers.set(name, Json::Text(text));
        }
        i += 1;
    }
    assert(values.take(i as int) =~= values);
    headers
}

fn use_name(value: Option<&Json>) -> (name: Option<&str>)
    ensures
        view_text(name) == usable(crate::json::view_option(value)),
{
    let text = value?.as_text()?;
    if text.is_empty() || count_bytes(text) > NAME_LIMIT || !graphic(text) {
        return None;
    }
    Some(text)
}

fn read_value<'a>(headers: &'a JsonObject, payload: &'a ProtocolPayload, key: &str) -> (name:
    Option<&'a str>)
    ensures
        view_text(name) == named_value(headers@, payload.context@, payload.body@, key@),
{
    if let Some(value) = headers.get(key) {
        return use_name(Some(value));
    }
    if let Some(value) = payload.context.get(key) {
        return use_name(Some(value));
    }
    match payload.body.get("metadata") {
        Some(metadata) => use_name(metadata.get(key)),
        None => None,
    }
}

fn or<'a>(first: Option<&'a str>, second: Option<&'a str>) -> (text: Option<&'a str>)
    ensures
        view_text(text) == first_of(view_text(first), view_text(second)),
{
    match first {
        Some(_) => first,
        None => second,
    }
}

fn find_last_user_id(body: &JsonObject) -> (id: Option<&str>)
    ensures
        view_text(id) == last_user_id(body@),
{
    let items = match body.get("input") {
        Some(Json::Array(items)) => items,
        _ => return None,
    };
    let ghost values = items_view(items@);
    proof {
        lemma_items_view(items@);
        assert(values.take(values.len() as int) =~= values);
    }
    let mut i: usize = items.len();
    while i > 0
        invariant
            i <= items.len(),
            values == items_view(items@),
            values.len() == items.len(),
            forall|j: int| 0 <= j < items.len() ==> #[trigger] values[j] == items@[j]@,
            last_user_item(values) == last_user_item(values.take(i as int)),
            as_array(field(body@, "input"@)) == Some(values),
        decreases i,
    {
        proof {
            assert(values.take(i as int).drop_last() =~= values.take(i - 1));
            assert(values[i - 1] == items@[i - 1]@);
        }
        i -= 1;
        if let Some(role) = items[i].text_at("role") {
            if same_text(role, "user") {
                return use_name(items[i].get("id"));
            }
        }
    }
    None
}

fn make_session_id(scope: &str, project: &str, session: &str) -> (id: String)
    ensures
        id@ == session_id(scope@, project@, session@),
{
    let names = [scope, project, session];
    assert(names_view(names@) =~= seq![scope@, project@, session@]);
    identifier("ses", &names)
}

impl Identity {
    /// The names of a request of the client with this scope.
    pub fn new(payload: &ProtocolPayload, scope: &str, request_id: &str) -> (identity: Identity)
        ensures
            identity@ == identity_of(
                request_headers(payload.context@),
                payload.context@,
                payload.body@,
                scope@,
                request_id@,
            ),
    {
        Identity::with_headers(&read_headers(&payload.context), payload, scope, request_id)
    }

    /// The names of a request whose headers say this.
    pub fn with_headers(
        headers: &JsonObject,
        payload: &ProtocolPayload,
        scope: &str,
        request_id: &str,
    ) -> (identity: Identity)
        ensures
            identity@ == identity_of(
                headers@,
                payload.context@,
                payload.body@,
                scope@,
                request_id@,
            ),
    {
        let project = match read_value(headers, payload, "x-opencode-project") {
            Some(project) => project,
            None => "default",
        };
        let said = or(
            read_value(headers, payload, "x-opencode-session"),
            read_value(headers, payload, "session_id"),
        );
        let cached = match payload.body.get("prompt_cache_key") {
            Some(key) => key.as_text(),
            None => None,
        };
        let session = match or(said, cached) {
            Some(session) => session,
            None => request_id,
        };
        let parent = match or(
            read_value(headers, payload, "x-parent-session-id"),
            read_value(headers, payload, "parent_thread_id"),
        ) {
            Some(parent) => Some(make_session_id(scope, project, parent)),
            None => None,
        };
        let request = match or(
            read_value(headers, payload, "x-opencode-request"),
            find_last_user_id(&payload.body),
        ) {
            Some(request) => request.to_owned(),
            None => {
                let names = [scope, request_id];
                assert(names_view(names@) =~= seq![scope@, request_id@]);
                identifier("msg", &names)
            },
        };
        let place = [scope, project];
        assert(names_view(place@) =~= seq![scope@, project@]);
        let names = [scope, project, session];
        assert(names_view(names@) =~= seq![scope@, project@, session@]);
        Identity {
            project: digest(&place),
            session: make_session_id(scope, project, session),
            request,
            parent,
            affinity: digest(&names),
        }
    }
}

/// The session under which an account's quota is asked for, the same one every time.
pub open spec fn quota_session_id(account_id: Seq<char>) -> Seq<char> {
    identifier_of("ses"@, fingerprint_of(seq!["quota"@, account_id]))
}

pub fn quota_session(account_id: &str) -> (session: String)
    ensures
        session@ == quota_session_id(account_id@),
{
    let names = ["quota", account_id];
    assert(names_view(names@) =~= seq!["quota"@, account_id@]);
    identifier("ses", &names)
}

/// A request that names another session as its parent carries the very identifier that requests
/// of that session carry, within one scope and project.
pub proof fn lemma_parent_is_that_session(
    child: ProtocolPayload,
    parent: ProtocolPayload,
    scope: Seq<char>,
    child_id: Seq<char>,
    parent_id: Seq<char>,
)
    requires
        ({
            let own = request_headers(child.context@);
            let other = request_headers(parent.context@);
            &&& project_name(own, child.context@, child.body@) == project_name(
                other,
                parent.context@,
                parent.body@,
            )
            &&& parent_name(own, child.context@, child.body@) == Some(
                session_name(other, parent.context@, parent.body@, parent_id),
            )
        }),
    ensures
        identity_of(
            request_headers(child.context@),
            child.context@,
            child.body@,
            scope,
            child_id,
        ).parent == Some(
            identity_of(
                request_headers(parent.context@),
                parent.context@,
                parent.body@,
                scope,
                parent_id,
            ).session,
        ),
{
}

/// Two clients never share what a session is derived from, whatever they call their projects and
/// sessions; nor do two projects of a client, or two sessions of a project.
pub proof fn lemma_scopes_stay_apart(
    first: (Seq<char>, Seq<char>, Seq<char>),
    second: (Seq<char>, Seq<char>, Seq<char>),
)
    requires
        first != second,
        digest::countable(seq![first.0, first.1, first.2]),
        digest::countable(seq![second.0, second.1, second.2]),
    ensures
        frames(seq![first.0, first.1, first.2]) != frames(seq![second.0, second.1, second.2]),
{
    let left = seq![first.0, first.1, first.2];
    let right = seq![second.0, second.1, second.2];
    if frames(left) == frames(right) {
        lemma_frames_injective(left, right);
        assert(left[0] == right[0] && left[1] == right[1] && left[2] == right[2]);
    }
}

/// A session that a client names is the same one in every request and every attempt: it does
/// not depend on the request's own identifier.
pub proof fn lemma_named_session_is_stable(
    headers: Fields,
    context: Fields,
    body: Fields,
    scope: Seq<char>,
    first: Seq<char>,
    second: Seq<char>,
)
    requires
        named_value(headers, context, body, "x-opencode-session"@) is Some,
    ensures
        identity_of(headers, context, body, scope, first).session == identity_of(
            headers,
            context,
            body,
            scope,
            second,
        ).session,
        identity_of(headers, context, body, scope, first).affinity == identity_of(
            headers,
            context,
            body,
            scope,
            second,
        ).affinity,
{
}

/// Two requests are bound to one account by the same key only if they are of the same client,
/// project and session, or if SHA-256 maps two different strings of bytes to one digest.
pub proof fn lemma_affinity_is_the_session(
    first: (Seq<char>, Seq<char>, Seq<char>),
    second: (Seq<char>, Seq<char>, Seq<char>),
)
    requires
        digest::countable(seq![first.0, first.1, first.2]),
        digest::countable(seq![second.0, second.1, second.2]),
        digest_of(seq![first.0, first.1, first.2]) == digest_of(
            seq![second.0, second.1, second.2],
        ),
    ensures
        first == second || ({
            let left = frames(seq![first.0, first.1, first.2]);
            let right = frames(seq![second.0, second.1, second.2]);
            left != right && digest::sha256(left) == digest::sha256(right)
        }),
{
    let left = seq![first.0, first.1, first.2];
    let right = seq![second.0, second.1, second.2];
    digest::lemma_same_digest_is_same_names(left, right);
    if left == right {
        assert(left[0] == right[0] && left[1] == right[1] && left[2] == right[2]);
    }
}

} // verus!
