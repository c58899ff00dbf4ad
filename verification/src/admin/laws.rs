//! What administration reads, keeps and writes of accounts.

use crate::admin::{
    completed, current_read, entries_read, entry_read, entry_value, entry_values, export_document,
    exports_read, import_read, input_ids, is_quota_failure, model_names, prepares, product_models,
    rotated, test_body, AccountRecord, EntryView, ExportInput, PreparedCredential,
};
use crate::catalog::Model;
use crate::credential::laws::{
    is_usable_key, lemma_objects_hold_credentials, names_product,
};
use crate::credential::{credential_read, CredentialView, Tier};
use crate::error::{AdminError, AdminErrorKind};
use crate::json::{field, get, Fields, JsonView, NumberView};
use crate::quota::QuotaError;
use crate::text::{byte_length, is_white_space};
use vstd::prelude::*;

verus! {

/// Whether an account can be called so: not only white space, and at most 256 bytes.
pub open spec fn can_be_called(name: Seq<char>) -> bool {
    &&& exists|i: int| 0 <= i < name.len() && !is_white_space(#[trigger] name[i])
    &&& byte_length(name) <= 256
}

/// Whether an entry of an import describes an account: a name that it can be called by, a usable
/// key, a product, and nothing else.
pub open spec fn describes(entry: JsonView, account: EntryView) -> bool {
    &&& entry matches JsonView::Object(fields)
    &&& field(fields, "name"@) == Some(JsonView::Text(account.name))
    &&& can_be_called(account.name)
    &&& field(fields, "api_key"@) == Some(JsonView::Text(account.credential.api_key))
    &&& is_usable_key(account.credential.api_key)
    &&& names_product(field(fields, "tier"@), account.credential.tier)
    &&& forall|key: Seq<char>| #[trigger]
        fields.contains_key(key) ==> key == "name"@ || key == "api_key"@ || key == "tier"@
}

proof fn lemma_entry_keys()
    ensures
        "name"@.len() == 4,
        "tier"@.len() == 4,
        "name"@ != "tier"@,
        "api_key"@.len() == 7,
{
    reveal_strlit("name");
    reveal_strlit("tier");
    reveal_strlit("api_key");
    assert("name"@[0] != "tier"@[0]);
}

/// An entry of an import is read as the account that it describes, and is refused where it
/// describes none.
pub proof fn lemma_entry_is_what_it_describes(entry: JsonView, other: EntryView)
    ensures
        entry_read(entry) matches Some(account) ==> describes(entry, account),
        entry_read(entry) is None ==> !describes(entry, other),
{
    lemma_entry_keys();
    if let JsonView::Object(fields) = entry {
        let rest = fields.remove("name"@);
        lemma_objects_hold_credentials(rest);
        assert(field(rest, "api_key"@) == field(fields, "api_key"@));
        assert(field(rest, "tier"@) == field(fields, "tier"@));
        if entry_read(entry) is Some {
            assert forall|key: Seq<char>| #[trigger] fields.contains_key(key) implies key
                == "name"@ || key == "api_key"@ || key == "tier"@ by {
                if key != "name"@ {
                    assert(rest.contains_key(key));
                }
            }
        } else if describes(entry, other) {
            assert forall|key: Seq<char>| #[trigger] rest.contains_key(key) implies key
                == "api_key"@ || key == "tier"@ by {
                assert(fields.contains_key(key));
            }
        }
    }
}

proof fn lemma_entries_described(entries: Seq<JsonView>)
    ensures
        match entries_read(entries) {
            Some(accounts) => accounts.len() == entries.len() && forall|i: int|
                0 <= i < entries.len() ==> describes(#[trigger] entries[i], accounts[i]),
            None => exists|i: int|
                0 <= i < entries.len() && entry_read(#[trigger] entries[i]) is None,
        },
    decreases entries.len(),
{
    if entries.len() > 0 {
        let front = entries.drop_last();
        let last = entries.len() - 1;
        lemma_entries_described(front);
        assert(entries[last] == entries.last());
        if let Some(accounts) = entries_read(entries) {
            let before = entries_read(front)->0;
            lemma_entry_is_what_it_describes(entries.last(), accounts.last());
            assert forall|i: int| 0 <= i < entries.len() implies describes(
                #[trigger] entries[i],
                accounts[i],
            ) by {
                if i < last {
                    assert(front[i] == entries[i]);
                    assert(describes(front[i], before[i]));
                }
            }
        } else if entries_read(front) is None {
            let i = choose|i: int| 0 <= i < front.len() && entry_read(#[trigger] front[i]) is None;
            assert(entry_read(entries[i]) is None);
        } else {
            assert(entry_read(entries[last]) is None);
        }
    }
}

/// An import brings in one account for each entry, in order, as the entry describes it. It is
/// refused as a whole where it has no list, none or more than 1000 entries, or an entry that
/// describes no account.
pub proof fn lemma_import_brings_in_what_it_describes(document: Fields)
    ensures
        match import_read(document) {
            Some(accounts) => {
                &&& field(document, "accounts"@) matches Some(JsonView::Array(entries))
                &&& 1 <= entries.len() <= 1000
                &&& accounts.len() == entries.len()
                &&& forall|i: int|
                    0 <= i < entries.len() ==> describes(#[trigger] entries[i], accounts[i])
            },
            None => match field(document, "accounts"@) {
                Some(JsonView::Array(entries)) => entries.len() == 0 || entries.len() > 1000
                    || exists|i: int|
                    0 <= i < entries.len() && entry_read(#[trigger] entries[i]) is None,
                _ => true,
            },
        },
{
    if let Some(JsonView::Array(entries)) = field(document, "accounts"@) {
        lemma_entries_described(entries);
    }
}

/// What is prepared for an account keeps all of it: its name, its product, its key, the proxy; it
/// is used with a key and in use from the start, under an identifier of its own.
pub proof fn lemma_prepared_account_keeps_the_entry(
    prepared: PreparedCredential,
    entry: EntryView,
    proxy: Option<Seq<char>>,
)
    requires
        prepares(prepared, entry, proxy),
    ensures
        prepared.name@ == entry.name,
        prepared.plan_type@ == match entry.credential.tier {
            Tier::Zen => "zen"@,
            Tier::Go => "go"@,
        },
        prepared.authentication_kind@ == "api_key"@,
        field(prepared.material@, "api_key"@) == Some(JsonView::Text(entry.credential.api_key)),
        field(prepared.material@, "tier"@) == Some(JsonView::Text(prepared.plan_type@)),
        crate::json::view_string(prepared.outbound_proxy) == proxy,
        prepared.enabled,
        prepared.account_id@.len() == 41,
        prepared.account_id@.take(5) == "acct_"@,
{
    crate::credential::laws::lemma_document_states_the_credential(entry.credential);
    reveal_strlit("acct_");
    let digits = choose|digits: Seq<char>| #[trigger]
        crate::admin::is_hyphenated_id(digits) && prepared.account_id@ == "acct_"@ + digits;
    assert(prepared.account_id@.take(5) =~= "acct_"@);
}

/// Whether a text is stated.
pub open spec fn states(material: Fields, key: Seq<char>, text: Seq<char>) -> bool {
    field(material, key) == Some(JsonView::Text(text))
}

/// A replacement takes the key that is stated unless it is empty, else keeps the old one; it takes
/// the product that is stated, else keeps the old one. It is made only for an account of this
/// provider that is used with a key, and only where the result can be used; nothing but a key and
/// a product may be stated.
pub proof fn lemma_rotation_takes_what_is_stated(
    account: AccountRecord,
    kind: Seq<char>,
    current: CredentialView,
    material: Fields,
)
    ensures
        ({
            let keeps = field(material, "api_key"@) is None || states(
                material,
                "api_key"@,
                seq![],
            );
            rotated(account, kind, current, material) matches Some(after) ==> {
                &&& account.provider_kind@ == kind
                &&& account.authentication_kind@ == "api_key"@
                &&& is_usable_key(after.api_key)
                &&& keeps ==> after.api_key == current.api_key
                &&& !keeps ==> states(material, "api_key"@, after.api_key)
                &&& match field(material, "tier"@) {
                    None => after.tier == current.tier,
                    Some(tier) => names_product(Some(tier), after.tier),
                }
                &&& forall|key: Seq<char>| #[trigger]
                    material.contains_key(key) ==> key == "api_key"@ || key == "tier"@
            }
        }),
{
    lemma_entry_keys();
    reveal_strlit("zen");
    reveal_strlit("go");
    assert("zen"@.len() != "go"@.len());
    let whole = completed(current, material);
    lemma_objects_hold_credentials(whole);
    if rotated(account, kind, current, material) is Some {
        assert forall|key: Seq<char>| #[trigger] material.contains_key(key) implies key
            == "api_key"@ || key == "tier"@ by {
            assert(whole.contains_key(key));
        }
        if field(material, "tier"@) is None {
            assert(!(crate::json::single("go"@, JsonView::Null).contains_key("zen"@)));
        }
    }
}

/// A usable replacement of an account's own key and product is made.
pub proof fn lemma_usable_rotation_is_made(
    account: AccountRecord,
    kind: Seq<char>,
    current: CredentialView,
    key: Seq<char>,
    tier: Tier,
)
    requires
        account.provider_kind@ == kind,
        account.authentication_kind@ == "api_key"@,
        is_usable_key(key),
    ensures
        rotated(
            account,
            kind,
            current,
            Map::<Seq<char>, JsonView>::empty().insert("api_key"@, JsonView::Text(key)).insert(
                "tier"@,
                JsonView::Text(
                    match tier {
                        Tier::Zen => "zen"@,
                        Tier::Go => "go"@,
                    },
                ),
            ),
        ) == Some(CredentialView { api_key: key, tier }),
{
    lemma_entry_keys();
    let material = Map::<Seq<char>, JsonView>::empty().insert(
        "api_key"@,
        JsonView::Text(key),
    ).insert(
        "tier"@,
        JsonView::Text(
            match tier {
                Tier::Zen => "zen"@,
                Tier::Go => "go"@,
            },
        ),
    );
    assert(key != Seq::<char>::empty());
    assert(completed(current, material) =~= material);
    assert(material =~= crate::credential::credential_document(
        CredentialView { api_key: key, tier },
    ));
    crate::credential::lemma_document_reads_back(CredentialView { api_key: key, tier });
}

/// An account's credential is read only where the account is one of this provider.
pub proof fn lemma_foreign_accounts_are_not_found(
    kind: Seq<char>,
    provider: Seq<char>,
    material: Fields,
)
    ensures
        provider != kind ==> current_read(kind, provider, material) == Err::<CredentialView, _>(
            AdminErrorKind::NotFound,
        ),
        provider == kind ==> match credential_read(JsonView::Object(material)) {
            Some(credential) => current_read(kind, provider, material) == Ok::<_, AdminErrorKind>(
                credential,
            ),
            None => current_read(kind, provider, material) == Err::<CredentialView, _>(
                AdminErrorKind::Invalid,
            ),
        },
{
}

/// Whether a value of an export is an account with this name and credential.
pub open spec fn writes_account(value: JsonView, name: Seq<char>, credential: CredentialView) -> bool {
    &&& get(Some(value), "name"@) == Some(JsonView::Text(name))
    &&& get(Some(value), "api_key"@) == Some(JsonView::Text(credential.api_key))
    &&& get(Some(value), "tier"@) == Some(
        JsonView::Text(
            match credential.tier {
                Tier::Zen => "zen"@,
                Tier::Go => "go"@,
            },
        ),
    )
}

proof fn lemma_exports_are_the_inputs(inputs: Seq<ExportInput>, kind: Seq<char>)
    ensures
        match exports_read(inputs, kind) {
            Some(entries) => entries.len() == inputs.len() && forall|i: int|
                0 <= i < inputs.len() ==> (#[trigger] inputs[i]).account.provider_kind@ == kind
                    && entries[i].name == inputs[i].account.name@ && credential_read(
                    JsonView::Object(inputs[i].material@),
                ) == Some(entries[i].credential),
            None => exists|i: int|
                0 <= i < inputs.len() && ((#[trigger] inputs[i]).account.provider_kind@ != kind
                    || credential_read(JsonView::Object(inputs[i].material@)) is None),
        },
    decreases inputs.len(),
{
    if inputs.len() > 0 {
        let front = inputs.drop_last();
        let last = inputs.len() - 1;
        lemma_exports_are_the_inputs(front, kind);
        assert(inputs[last] == inputs.last());
        if let Some(entries) = exports_read(inputs, kind) {
            assert forall|i: int| 0 <= i < inputs.len() implies (
            #[trigger] inputs[i]).account.provider_kind@ == kind && entries[i].name
                == inputs[i].account.name@ && credential_read(
                JsonView::Object(inputs[i].material@),
            ) == Some(entries[i].credential) by {
                if i < last {
                    assert(front[i] == inputs[i]);
                }
            }
        } else if exports_read(front, kind) is None {
            let i = choose|i: int|
                0 <= i < front.len() && ((#[trigger] front[i]).account.provider_kind@ != kind
                    || credential_read(JsonView::Object(front[i].material@)) is None);
            assert(inputs[i] == front[i]);
        }
    }
}

/// An export writes every account, in order, with its name, its key and its product, under the
/// provider's name. It is refused as a whole where an account is another provider's or its
/// credential cannot be read.
pub proof fn lemma_export_writes_every_account(inputs: Seq<ExportInput>, kind: Seq<char>)
    ensures
        match exports_read(inputs, kind) {
            Some(entries) => {
                let document = export_document(entries);
                &&& field(document, "provider"@) == Some(JsonView::Text("opencode"@))
                &&& field(document, "accounts"@) matches Some(JsonView::Array(values))
                &&& values.len() == inputs.len()
                &&& forall|i: int|
                    0 <= i < inputs.len() ==> {
                        &&& (#[trigger] inputs[i]).account.provider_kind@ == kind
                        &&& credential_read(
                            JsonView::Object(inputs[i].material@),
                        ) matches Some(credential)
                        &&& writes_account(values[i], inputs[i].account.name@, credential)
                    }
            },
            None => exists|i: int|
                0 <= i < inputs.len() && ((#[trigger] inputs[i]).account.provider_kind@ != kind
                    || credential_read(JsonView::Object(inputs[i].material@)) is None),
        },
        input_ids(inputs).len() == inputs.len(),
        forall|i: int|
            0 <= i < inputs.len() ==> input_ids(inputs)[i] == (#[trigger] inputs[i]).account.id@,
{
    lemma_entry_keys();
    reveal_strlit("provider");
    reveal_strlit("accounts");
    assert("provider"@[0] != "accounts"@[0]);
    lemma_exports_are_the_inputs(inputs, kind);
    if let Some(entries) = exports_read(inputs, kind) {
        let values = entry_values(entries);
        assert forall|i: int| 0 <= i < inputs.len() implies {
            &&& (#[trigger] inputs[i]).account.provider_kind@ == kind
            &&& credential_read(JsonView::Object(inputs[i].material@)) matches Some(credential)
            &&& writes_account(values[i], inputs[i].account.name@, credential)
        } by {
            assert(values[i] == entry_value(entries[i]));
        }
    }
}

/// An account can use exactly the models of its product, in the catalog's order.
pub proof fn lemma_models_of_the_product(models: Seq<Model>, tier: Tier)
    ensures
        product_models(models, tier) == models.filter(|model: Model| model.tier == tier),
        model_names(product_models(models, tier)).len() == product_models(models, tier).len(),
        forall|i: int|
            0 <= i < product_models(models, tier).len() ==> model_names(
                product_models(models, tier),
            )[i] == ((#[trigger] product_models(models, tier)[i]).id@, product_models(
                models,
                tier,
            )[i].name@),
    decreases models.len(),
{
    reveal(Seq::filter);
    if models.len() > 0 {
        lemma_models_of_the_product(models.drop_last(), tier);
    }
}

/// A connection test asks the model for a short streamed answer to the given text.
pub proof fn lemma_test_asks_for_a_short_answer(model: Seq<char>, input: Seq<char>)
    ensures
        ({
            let body = test_body(model, input);
            &&& field(body, "model"@) == Some(JsonView::Text(model))
            &&& field(body, "input"@) == Some(JsonView::Text(input))
            &&& field(body, "stream"@) == Some(JsonView::Bool(true))
            &&& field(body, "max_output_tokens"@) == Some(
                JsonView::Number(NumberView::Unsigned(128)),
            )
        }),
{
    reveal_strlit("model");
    reveal_strlit("input");
    reveal_strlit("stream");
    reveal_strlit("max_output_tokens");
    assert("model"@[0] != "input"@[0]);
    assert("model"@.len() == 5 && "input"@.len() == 5 && "stream"@.len() == 6
        && "max_output_tokens"@.len() == 17);
}

/// What an administrator is told where there is no quota: that the service could not be asked, or
/// else what is wrong with the account, each by its own fixed message.
pub proof fn lemma_missing_quota_is_explained(shown: AdminError, error: QuotaError)
    requires
        is_quota_failure(shown, error),
    ensures
        error is Upstream ==> shown.kind == AdminErrorKind::Unavailable,
        !(error is Upstream) ==> shown.kind == AdminErrorKind::Invalid,
        shown.public_message matches Some(message) && message@ == match error {
            QuotaError::Unauthorized => "OpenCode 额度查询凭据无效，请检查账号授权"@,
            QuotaError::NoPlan => "该 Key 没有 OpenCode Go 订阅，无法查询额度"@,
            QuotaError::Invalid => "OpenCode 额度数据无效，请检查账号授权"@,
            QuotaError::Upstream => "OpenCode 额度查询失败，请检查出站连接与上游服务"@,
        },
{
}

} // verus!
