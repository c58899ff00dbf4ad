//! The product that an account belongs to and the key that it is used with.

pub mod laws;

use crate::error::{admin_failure, invalid, AdminError, AdminErrorKind};
use crate::json::{field, single, Fields, Json, JsonObject, JsonView};
use crate::text::{byte_length, count_bytes, graphic, is_graphic, same_text};
use vstd::prelude::*;

verus! {

/// How many bytes a key may take.
pub const KEY_LIMIT: usize = 4096;

/// The two products.
#[derive(Debug, Clone, Copy, PartialEq, Eq, Structural)]
pub enum Tier {
    Zen,
    Go,
}

/// The name of a product in documents and endpoints.
pub open spec fn tier_name(tier: Tier) -> Seq<char> {
    match tier {
        Tier::Zen => "zen"@,
        Tier::Go => "go"@,
    }
}

impl Tier {
    pub fn as_str(self) -> (name: &'static str)
        ensures
            name@ == tier_name(self),
    {
        match self {
            Tier::Zen => "zen",
            Tier::Go => "go",
        }
    }

    /// Where the product's interface stands.
    pub fn base_url(self) -> (url: &'static str)
        ensures
            url@ == (match self {
                Tier::Zen => "https://opencode.ai/zen/v1"@,
                Tier::Go => "https://opencode.ai/zen/go/v1"@,
            }),
    {
        match self {
            Tier::Zen => "https://opencode.ai/zen/v1",
            Tier::Go => "https://opencode.ai/zen/go/v1",
        }
    }
}

impl Default for Tier {
    fn default() -> (tier: Tier)
        ensures
            tier == Tier::Zen,
    {
        Tier::Zen
    }
}

/// What an account is used with. It cannot be printed, so that no key ends up in a log.
pub struct Credential {
    pub api_key: String,
    pub tier: Tier,
}

#[verifier::ext_equal]
pub struct CredentialView {
    pub api_key: Seq<char>,
    pub tier: Tier,
}

impl Credential {
    pub open spec fn view(&self) -> CredentialView {
        CredentialView { api_key: self.api_key@, tier: self.tier }
    }
}

/// Whether a key can be used: not empty, not too long, and visible ASCII throughout.
pub open spec fn is_key(key: Seq<char>) -> bool {
    0 < key.len() && byte_length(key) <= KEY_LIMIT && is_graphic(key)
}

pub open spec fn is_named(value: JsonView, tier: Tier) -> bool {
    value == JsonView::Text(tier_name(tier)) || value == JsonView::Object(
        single(tier_name(tier), JsonView::Null),
    )
}

/// The product that a value names: by its name, or as an object with nothing but the name as a
/// key and `null`.
pub open spec fn tier_read(value: JsonView) -> Option<Tier> {
    if is_named(value, Tier::Zen) {
        Some(Tier::Zen)
    } else if is_named(value, Tier::Go) {
        Some(Tier::Go)
    } else {
        None
    }
}

/// The product of a document that may leave it out.
pub open spec fn tier_or_default(value: Option<JsonView>) -> Option<Tier> {
    match value {
        Some(value) => tier_read(value),
        None => Some(Tier::Zen),
    }
}

/// A key and a product, if both can be used.
pub open spec fn credential_of(key: Option<JsonView>, tier: Option<JsonView>) -> Option<
    CredentialView,
> {
    match (key, tier_or_default(tier)) {
        (Some(JsonView::Text(api_key)), Some(tier)) if is_key(api_key) => Some(
            CredentialView { api_key, tier },
        ),
        _ => None,
    }
}

/// The credential that a document holds: an object with the key, the product unless it is the
/// default, and nothing else; or the two as a list.
pub open spec fn credential_read(value: JsonView) -> Option<CredentialView> {
    match value {
        JsonView::Object(fields) => if fields.remove("api_key"@).remove("tier"@) == Map::<
            Seq<char>,
            JsonView,
        >::empty() {
            credential_of(field(fields, "api_key"@), field(fields, "tier"@))
        } else {
            None
        },
        JsonView::Array(items) => if items.len() == 1 {
            credential_of(Some(items[0]), None)
        } else if items.len() == 2 {
            credential_of(Some(items[0]), Some(items[1]))
        } else {
            None
        },
        _ => None,
    }
}

/// The document that holds a credential.
pub open spec fn credential_document(credential: CredentialView) -> Fields {
    single("api_key"@, JsonView::Text(credential.api_key)).insert(
        "tier"@,
        JsonView::Text(tier_name(credential.tier)),
    )
}

fn names(value: &Json, tier: Tier) -> (result: bool)
    ensures
        result == is_named(value@, tier),
{
    match value {
        Json::Text(name) => same_text(name.as_str(), tier.as_str()),
        Json::Object(object) => {
            let mut rest = object.clone();
            single_null(&mut rest, tier.as_str())
        },
        _ => false,
    }
}

/// Whether an object holds `null` under this key and nothing else.
fn single_null(object: &mut JsonObject, key: &str) -> (result: bool)
    ensures
        result == (old(object)@ == single(key@, JsonView::Null)),
{
    let ghost before = object@;
    match object.remove(key) {
        Some(value) => {
            let alone = object.is_empty();
            proof {
                assert(before =~= before.remove(key@).insert(key@, value@));
                assert(single(key@, JsonView::Null).remove(key@) =~= Map::empty());
                assert(single(key@, JsonView::Null)[key@] == JsonView::Null);
                if alone && value@ == JsonView::Null {
                    assert(before =~= single(key@, JsonView::Null));
                }
            }
            value.is_null() && alone
        },
        None => {
            assert(single(key@, JsonView::Null).contains_key(key@));
            false
        },
    }
}

fn read_tier(value: &Json) -> (tier: Option<Tier>)
    ensures
        tier == tier_read(value@),
{
    if names(value, Tier::Zen) {
        Some(Tier::Zen)
    } else if names(value, Tier::Go) {
        Some(Tier::Go)
    } else {
        None
    }
}

fn read_credential(key: &Json, tier: Option<&Json>) -> (credential: Option<Credential>)
    ensures
        match credential_of(Some(key@), crate::json::view_option(tier)) {
            Some(expected) => credential matches Some(credential) && credential@ == expected,
            None => credential is None,
        },
{
    let tier = match tier {
        Some(tier) => read_tier(tier)?,
        None => Tier::Zen,
    };
    let api_key = key.as_text()?;
    if api_key.is_empty() || count_bytes(api_key) > KEY_LIMIT || !graphic(api_key) {
        return None;
    }
    Some(Credential { api_key: api_key.to_owned(), tier })
}

impl Credential {
    /// Reads the document of a credential.
    pub fn parse(value: &Json) -> (credential: Result<Credential, AdminError>)
        ensures
            match credential_read(value@) {
                Some(expected) => credential matches Ok(credential) && credential@ == expected,
                None => credential == Err::<Credential, AdminError>(
                    admin_failure(AdminErrorKind::Invalid),
                ),
            },
    {
        let credential = match value {
            Json::Object(object) => Credential::read_object(object),
            Json::Array(items) => {
                proof {
                    crate::json::lemma_items_view(items@);
                }
                if items.len() == 1 {
                    read_credential(&items[0], None)
                } else if items.len() == 2 {
                    read_credential(&items[0], Some(&items[1]))
                } else {
                    None
                }
            },
            _ => None,
        };
        match credential {
            Some(credential) => Ok(credential),
            None => Err(invalid()),
        }
    }

    fn read_object(object: &JsonObject) -> (credential: Option<Credential>)
        ensures
            match credential_read(JsonView::Object(object@)) {
                Some(expected) => credential matches Some(credential) && credential@ == expected,
                None => credential is None,
            },
    {
        let mut rest = object.clone();
        let _ = rest.remove("api_key");
        let _ = rest.remove("tier");
        if !rest.is_empty() {
            return None;
        }
        read_credential(object.get("api_key")?, object.get("tier"))
    }

    /// The document that holds the credential.
    pub fn document(&self) -> (document: JsonObject)
        ensures
            document@ == credential_document(self@),
    {
        JsonObject::new().with("api_key", Json::text(self.api_key.as_str())).with(
            "tier",
            Json::text(self.tier.as_str()),
        )
    }
}

/// A credential that can be used is read back from its document unchanged.
pub proof fn lemma_document_reads_back(credential: CredentialView)
    requires
        is_key(credential.api_key),
    ensures
        credential_read(JsonView::Object(credential_document(credential))) == Some(credential),
{
    let fields = credential_document(credential);
    reveal_strlit("api_key");
    reveal_strlit("tier");
    reveal_strlit("zen");
    reveal_strlit("go");
    assert("api_key"@.len() != "tier"@.len());
    assert("zen"@.len() != "go"@.len());
    assert(fields.remove("api_key"@).remove("tier"@) =~= Map::empty());
}

/// Every credential that is read has a usable key.
pub proof fn lemma_read_is_usable(value: JsonView)
    ensures
        credential_read(value) matches Some(credential) ==> is_key(credential.api_key),
{
}

} // verus!
