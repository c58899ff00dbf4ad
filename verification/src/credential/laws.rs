//! Which documents hold a credential.

use crate::credential::{credential_document, credential_read, is_named, CredentialView, Tier};
use crate::json::{field, single, Fields, JsonView};
use crate::text::byte_length;
use vstd::prelude::*;

verus! {

/// Whether a text is a key: at least one and at most 4096 bytes of visible ASCII.
pub open spec fn is_usable_key(key: Seq<char>) -> bool {
    &&& key.len() > 0
    &&& byte_length(key) <= 4096
    &&& forall|i: int| 0 <= i < key.len() ==> '!' <= #[trigger] key[i] && key[i] <= '~'
}

/// Whether a value names a product.
pub open spec fn names_product(value: Option<JsonView>, tier: Tier) -> bool {
    match tier {
        Tier::Zen => value is None || value == Some(JsonView::Text("zen"@)) || value == Some(
            JsonView::Object(single("zen"@, JsonView::Null)),
        ),
        Tier::Go => value == Some(JsonView::Text("go"@)) || value == Some(
            JsonView::Object(single("go"@, JsonView::Null)),
        ),
    }
}

/// Whether a document has no field but the key and the product.
pub open spec fn has_nothing_else(fields: Fields) -> bool {
    forall|key: Seq<char>| #[trigger]
        fields.contains_key(key) ==> key == "api_key"@ || key == "tier"@
}

/// An object holds a credential exactly where its key is a usable text, its product, which is Zen
/// unless it is stated, is one of the two, and nothing else stands in it; the credential is then
/// that key in that product.
pub proof fn lemma_objects_hold_credentials(fields: Fields)
    ensures
        match credential_read(JsonView::Object(fields)) {
            Some(credential) => {
                &&& field(fields, "api_key"@) == Some(JsonView::Text(credential.api_key))
                &&& is_usable_key(credential.api_key)
                &&& names_product(field(fields, "tier"@), credential.tier)
                &&& has_nothing_else(fields)
            },
            None => {
                ||| !(field(fields, "api_key"@) matches Some(JsonView::Text(key)) && is_usable_key(
                    key,
                ))
                ||| !names_product(field(fields, "tier"@), Tier::Zen) && !names_product(
                    field(fields, "tier"@),
                    Tier::Go,
                )
                ||| !has_nothing_else(fields)
            },
        },
{
    reveal_strlit("zen");
    reveal_strlit("go");
    assert("zen"@.len() != "go"@.len());
    let rest = fields.remove("api_key"@).remove("tier"@);
    if rest == Map::<Seq<char>, JsonView>::empty() {
        assert forall|key: Seq<char>| #[trigger] fields.contains_key(key) implies key
            == "api_key"@ || key == "tier"@ by {
            if key != "api_key"@ && key != "tier"@ {
                assert(rest.contains_key(key));
            }
        }
    } else if has_nothing_else(fields) {
        assert(rest =~= Map::<Seq<char>, JsonView>::empty());
    }
    lemma_products_differ();
}

/// No value names both products.
proof fn lemma_products_differ()
    ensures
        forall|value: JsonView|
            #![trigger is_named(value, Tier::Go)]
            !(is_named(value, Tier::Zen) && is_named(value, Tier::Go)),
{
    reveal_strlit("zen");
    reveal_strlit("go");
    assert("zen"@.len() != "go"@.len());
    assert(single("zen"@, JsonView::Null).contains_key("zen"@));
    assert(!single("go"@, JsonView::Null).contains_key("zen"@));
}

/// The document of a credential states its key and its product by name, and nothing else.
pub proof fn lemma_document_states_the_credential(credential: CredentialView)
    ensures
        field(credential_document(credential), "api_key"@) == Some(
            JsonView::Text(credential.api_key),
        ),
        field(credential_document(credential), "tier"@) == Some(
            JsonView::Text(
                match credential.tier {
                    Tier::Zen => "zen"@,
                    Tier::Go => "go"@,
                },
            ),
        ),
        has_nothing_else(credential_document(credential)),
{
    reveal_strlit("api_key");
    reveal_strlit("tier");
    assert("api_key"@.len() != "tier"@.len());
}

/// A list holds a credential exactly where its first entry is a usable key and its second, if
/// there is one, names a product, and nothing follows; a list of one is for Zen. No other value
/// but an object holds any.
pub proof fn lemma_lists_hold_credentials(value: JsonView)
    ensures
        match value {
            JsonView::Array(items) => match credential_read(value) {
                Some(credential) => {
                    &&& items.len() == 1 || items.len() == 2
                    &&& items[0] == JsonView::Text(credential.api_key)
                    &&& is_usable_key(credential.api_key)
                    &&& items.len() == 1 ==> credential.tier == Tier::Zen
                    &&& items.len() == 2 ==> names_product(Some(items[1]), credential.tier)
                },
                None => {
                    ||| items.len() == 0
                    ||| items.len() > 2
                    ||| !(items[0] matches JsonView::Text(key) && is_usable_key(key))
                    ||| items.len() == 2 && !names_product(Some(items[1]), Tier::Zen)
                        && !names_product(Some(items[1]), Tier::Go)
                },
            },
            JsonView::Object(_) => true,
            _ => credential_read(value) is None,
        },
{
    lemma_products_differ();
}

} // verus!
