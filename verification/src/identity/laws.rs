//! Where the names of a request come from.

use crate::identity::digest::{digest_of, fingerprint_of, identifier_of};
use crate::identity::{
    base64_decoded, header_read, headers_read, identity_of, last_user_item, named_value,
    quota_session_id, request_headers,
};
use crate::json::{field, get, Fields, JsonView};
use crate::text::byte_length;
use vstd::prelude::*;
use vstd::utf8::{decode_utf8, valid_utf8};

verus! {

/// Whether a name that a client gives is taken: at least one and at most 256 bytes of visible
/// ASCII.
pub open spec fn is_taken(text: Seq<char>) -> bool {
    &&& text.len() > 0
    &&& byte_length(text) <= 256
    &&& forall|i: int| 0 <= i < text.len() ==> '!' <= #[trigger] text[i] && text[i] <= '~'
}

/// What a request says under a name, from the first place that has it: a header, the context, or
/// the metadata of the body. What cannot be taken there counts as not said.
pub open spec fn said_under(headers: Fields, context: Fields, body: Fields, key: Seq<char>) -> Option<
    Seq<char>,
> {
    let value = match field(headers, key) {
        Some(value) => Some(value),
        None => match field(context, key) {
            Some(value) => Some(value),
            None => get(field(body, "metadata"@), key),
        },
    };
    match value {
        Some(JsonView::Text(text)) => if is_taken(text) {
            Some(text)
        } else {
            None
        },
        _ => None,
    }
}

/// A place that has a name decides it: a header over the context, the context over the metadata.
pub proof fn lemma_names_are_looked_up(
    headers: Fields,
    context: Fields,
    body: Fields,
    key: Seq<char>,
)
    ensures
        named_value(headers, context, body, key) == said_under(headers, context, body, key),
{
}

/// The project that a request belongs to: the one that it names, else a default.
pub open spec fn project_said(headers: Fields, context: Fields, body: Fields) -> Seq<char> {
    match said_under(headers, context, body, "x-opencode-project"@) {
        Some(project) => project,
        None => "default"@,
    }
}

/// The session that a request belongs to: the one that it names under either of its names, else
/// the key of its prompt cache, else one of its own.
pub open spec fn session_said(
    headers: Fields,
    context: Fields,
    body: Fields,
    request_id: Seq<char>,
) -> Seq<char> {
    let first = said_under(headers, context, body, "x-opencode-session"@);
    let second = said_under(headers, context, body, "session_id"@);
    if first is Some {
        first->0
    } else if second is Some {
        second->0
    } else {
        match field(body, "prompt_cache_key"@) {
            Some(JsonView::Text(key)) => key,
            _ => request_id,
        }
    }
}

/// Whether a message is the last one of the user among the items.
pub open spec fn is_last_of_user(items: Seq<JsonView>, at: int) -> bool {
    &&& 0 <= at < items.len()
    &&& get(Some(items[at]), "role"@) == Some(JsonView::Text("user"@))
    &&& forall|i: int|
        at < i < items.len() ==> get(Some(#[trigger] items[i]), "role"@) != Some(
            JsonView::Text("user"@),
        )
}

proof fn lemma_last_user_item(items: Seq<JsonView>)
    ensures
        match last_user_item(items) {
            Some(item) => exists|at: int| #[trigger] is_last_of_user(items, at) && items[at] == item,
            None => forall|i: int|
                0 <= i < items.len() ==> get(Some(#[trigger] items[i]), "role"@) != Some(
                    JsonView::Text("user"@),
                ),
        },
    decreases items.len(),
{
    if items.len() > 0 {
        let front = items.drop_last();
        let last = items.len() - 1;
        lemma_last_user_item(front);
        assert(items[last] == items.last());
        if get(Some(items.last()), "role"@) == Some(JsonView::Text("user"@)) {
            assert(is_last_of_user(items, last));
        } else if let Some(item) = last_user_item(front) {
            let at = choose|at: int| #[trigger] is_last_of_user(front, at) && front[at] == item;
            assert forall|i: int| at < i < items.len() implies get(
                Some(#[trigger] items[i]),
                "role"@,
            ) != Some(JsonView::Text("user"@)) by {
                if i < last {
                    assert(front[i] == items[i]);
                }
            }
            assert(is_last_of_user(items, at));
        } else {
            assert forall|i: int| 0 <= i < items.len() implies get(
                Some(#[trigger] items[i]),
                "role"@,
            ) != Some(JsonView::Text("user"@)) by {
                if i < last {
                    assert(front[i] == items[i]);
                }
            }
        }
    }
}

/// The names of a request. Its project, its session, the session that it comes from and what binds
/// it to an account are derived within the client's scope, each from what the request says of it;
/// the session and the binding from the same project and session. The request itself goes by the
/// name that it gives, else by the identifier of the user's last message, else by one derived from
/// its own identifier.
pub proof fn lemma_names_of_a_request(
    headers: Fields,
    context: Fields,
    body: Fields,
    scope: Seq<char>,
    request_id: Seq<char>,
)
    ensures
        ({
            let identity = identity_of(headers, context, body, scope, request_id);
            let project = project_said(headers, context, body);
            let session = session_said(headers, context, body, request_id);
            let parent = if said_under(headers, context, body, "x-parent-session-id"@) is Some {
                said_under(headers, context, body, "x-parent-session-id"@)
            } else {
                said_under(headers, context, body, "parent_thread_id"@)
            };
            &&& identity.project == digest_of(seq![scope, project])
            &&& identity.session == identifier_of(
                "ses"@,
                fingerprint_of(seq![scope, project, session]),
            )
            &&& identity.affinity == digest_of(seq![scope, project, session])
            &&& match parent {
                Some(parent) => identity.parent == Some(
                    identifier_of("ses"@, fingerprint_of(seq![scope, project, parent])),
                ),
                None => identity.parent is None,
            }
        }),
{
}

/// How the request itself is named.
pub proof fn lemma_name_of_the_request(
    headers: Fields,
    context: Fields,
    body: Fields,
    scope: Seq<char>,
    request_id: Seq<char>,
    items: Seq<JsonView>,
    at: int,
)
    requires
        field(body, "input"@) == Some(JsonView::Array(items)),
        is_last_of_user(items, at) || forall|i: int|
            0 <= i < items.len() ==> get(Some(#[trigger] items[i]), "role"@) != Some(
                JsonView::Text("user"@),
            ),
    ensures
        ({
            let name = identity_of(headers, context, body, scope, request_id).request;
            let own = identifier_of("msg"@, fingerprint_of(seq![scope, request_id]));
            match said_under(headers, context, body, "x-opencode-request"@) {
                Some(said) => name == said,
                None => if is_last_of_user(items, at) {
                    match get(Some(items[at]), "id"@) {
                        Some(JsonView::Text(id)) => if is_taken(id) {
                            name == id
                        } else {
                            name == own
                        },
                        _ => name == own,
                    }
                } else {
                    name == own
                },
            }
        }),
{
    lemma_last_user_item(items);
    if is_last_of_user(items, at) {
        if let Some(item) = last_user_item(items) {
            let found = choose|k: int| #[trigger] is_last_of_user(items, k) && items[k] == item;
            if found < at {
                assert(get(Some(items[at]), "role"@) != Some(JsonView::Text("user"@)));
            }
            if at < found {
                assert(get(Some(items[found]), "role"@) != Some(JsonView::Text("user"@)));
            }
        } else {
            assert(get(Some(items[at]), "role"@) != Some(JsonView::Text("user"@)));
        }
    } else if let Some(item) = last_user_item(items) {
        let found = choose|k: int| #[trigger] is_last_of_user(items, k) && items[k] == item;
        assert(get(Some(items[found]), "role"@) != Some(JsonView::Text("user"@)));
    }
}

/// Whether a header is a readable one of this name: a pair of the name and of bytes in base64 that
/// are a text.
pub open spec fn is_header(header: JsonView, name: Seq<char>, text: Seq<char>) -> bool {
    &&& header matches JsonView::Array(pair)
    &&& pair.len() >= 2
    &&& pair[0] == JsonView::Text(name)
    &&& pair[1] matches JsonView::Text(encoded)
    &&& base64_decoded(encoded) matches Some(bytes)
    &&& valid_utf8(bytes)
    &&& decode_utf8(bytes) == text
}

/// Whether a header can name a request.
pub open spec fn names_requests(name: Seq<char>) -> bool {
    name == "x-opencode-project"@ || name == "x-opencode-session"@ || name == "x-opencode-request"@
        || name == "x-parent-session-id"@
}

/// What is known of the headers: of each that can name a request, the text of the last readable
/// one; and nothing of any other.
pub proof fn lemma_headers_are_read(headers: Seq<JsonView>, name: Seq<char>)
    ensures
        match field(headers_read(headers), name) {
            Some(value) => names_requests(name) && exists|at: int|
                0 <= at < headers.len() && value is Text && is_header(
                    #[trigger] headers[at],
                    name,
                    value->Text_0,
                ) && forall|i: int, text: Seq<char>|
                    at < i < headers.len() ==> !#[trigger] is_header(headers[i], name, text),
            None => !names_requests(name) || forall|i: int, text: Seq<char>|
                0 <= i < headers.len() ==> !#[trigger] is_header(headers[i], name, text),
        },
    decreases headers.len(),
{
    if headers.len() > 0 {
        let front = headers.drop_last();
        let last = headers.len() - 1;
        lemma_headers_are_read(front, name);
        assert(headers[last] == headers.last());
        let read = match header_read(headers.last()) {
            Some((own, text)) if own == name => Some(text),
            _ => None,
        };
        if let Some(text) = read {
            assert(is_header(headers[last], name, text));
        } else {
            assert forall|text: Seq<char>| names_requests(name) implies !#[trigger] is_header(
                headers[last],
                name,
                text,
            ) by {
            }
            if let Some(value) = field(headers_read(front), name) {
                let at = choose|at: int|
                    0 <= at < front.len() && value is Text && is_header(
                        #[trigger] front[at],
                        name,
                        value->Text_0,
                    ) && forall|i: int, text: Seq<char>|
                        at < i < front.len() ==> !#[trigger] is_header(front[i], name, text);
                assert(headers[at] == front[at]);
                assert forall|i: int, text: Seq<char>|
                    at < i < headers.len() implies !#[trigger] is_header(headers[i], name, text) by {
                    if i < last {
                        assert(!is_header(front[i], name, text));
                    }
                }
            } else if names_requests(name) {
                assert forall|i: int, text: Seq<char>|
                    0 <= i < headers.len() implies !#[trigger] is_header(headers[i], name, text) by {
                    if i < last {
                        assert(!is_header(front[i], name, text));
                    }
                }
            }
        }
    }
}

/// Headers come from the request's context, and nowhere else.
pub proof fn lemma_headers_come_with_the_request(context: Fields)
    ensures
        match field(context, "opaque_request_headers"@) {
            Some(JsonView::Array(headers)) => request_headers(context) == headers_read(headers),
            _ => request_headers(context) == Map::<Seq<char>, JsonView>::empty(),
        },
{
}

/// The session under which quotas are asked for depends on the account alone, and is derived from
/// two names where the session of a request is derived from three.
pub proof fn lemma_quota_session(account_id: Seq<char>)
    ensures
        quota_session_id(account_id) == identifier_of(
            "ses"@,
            fingerprint_of(seq!["quota"@, account_id]),
        ),
{
}

} // verus!
