//! Administration: preparing credentials, showing them and asking for their quota. Whatever is
//! prepared here the host commits together with its own records.

pub mod laws;

use crate::catalog::{Catalog, Model};
use crate::credential::{
    credential_document, credential_read, is_key, lemma_read_is_usable, tier_name, Credential,
    CredentialView, Tier,
};
use crate::error::{admin_failure, invalid, AdminError, AdminErrorKind};
use crate::json::{
    as_array, as_text, field, items_view, lemma_items_view, lemma_items_view_push, single,
    view_string, view_text, Fields, Json, JsonObject, JsonView, NumberView,
};
use crate::operation::ProtocolPayload;
use crate::provider::{user_agent, user_agent_text, CLIENT_KIND, CLIENT_VERSION};
use crate::quota::QuotaError;
use crate::text::{blank, byte_length, count_bytes, is_blank, same_text, texts_view};
use crate::time::Moment;
use vstd::prelude::*;

verus! {

/// How many accounts one import may hold.
pub const IMPORT_LIMIT: usize = 1000;

/// How many bytes an account's name may take.
pub const ACCOUNT_NAME_LIMIT: usize = 256;

/// How many tokens the answer to a connection test may have.
pub const TEST_OUTPUT: u64 = 128;

/// An account in the host's records.
#[derive(Debug, PartialEq)]
pub struct AccountRecord {
    pub id: String,
    pub provider_kind: String,
    pub name: String,
    pub authentication_kind: String,
    pub credential_revision: u64,
}

/// A new account, ready to be committed.
pub struct PreparedCredential {
    pub account_id: String,
    pub name: String,
    pub plan_type: String,
    pub authentication_kind: String,
    pub material: JsonObject,
    /// The proxy that the account is used through, if any.
    pub outbound_proxy: Option<String>,
    pub enabled: bool,
}

/// A name and a credential.
#[verifier::ext_equal]
pub struct EntryView {
    pub name: Seq<char>,
    pub credential: CredentialView,
}

/// Whether a name can be given to an account.
pub open spec fn is_account_name(name: Seq<char>) -> bool {
    !is_blank(name) && byte_length(name) <= ACCOUNT_NAME_LIMIT
}

/// An account of an import: its name, and next to it the fields of its credential.
pub open spec fn entry_read(entry: JsonView) -> Option<EntryView> {
    match entry {
        JsonView::Object(fields) => match (
            as_text(field(fields, "name"@)),
            credential_read(JsonView::Object(fields.remove("name"@))),
        ) {
            (Some(name), Some(credential)) if is_account_name(name) => Some(
                EntryView { name, credential },
            ),
            _ => None,
        },
        _ => None,
    }
}

/// The accounts of an import, if every one of them can be read.
pub open spec fn entries_read(entries: Seq<JsonView>) -> Option<Seq<EntryView>>
    decreases entries.len(),
{
    if entries.len() == 0 {
        Some(seq![])
    } else {
        match (entries_read(entries.drop_last()), entry_read(entries.last())) {
            (Some(before), Some(entry)) => Some(before.push(entry)),
            _ => None,
        }
    }
}

/// The accounts that a document holds: at least one, and not too many.
pub open spec fn import_read(document: Fields) -> Option<Seq<EntryView>> {
    match as_array(field(document, "accounts"@)) {
        Some(entries) => if 0 < entries.len() <= IMPORT_LIMIT {
            entries_read(entries)
        } else {
            None
        },
        None => None,
    }
}

/// 32 lower-case hexadecimal digits in five groups, with hyphens between them.
pub open spec fn is_hyphenated_id(text: Seq<char>) -> bool {
    text.len() == 36 && forall|i: int|
        0 <= i < 36 ==> (if i == 8 || i == 13 || i == 18 || i == 23 {
            #[trigger] text[i] == '-'
        } else {
            '0' <= text[i] <= '9' || 'a' <= text[i] <= 'f'
        })
}

/// `uuid::Uuid::new_v4` printed in the hyphenated form: 32 lower-case hexadecimal digits in five
/// groups. Which digits they are is chance.
#[verifier::external_body]
fn random_hyphenated_id() -> (text: String)
    ensures
        is_hyphenated_id(text@),
{
    uuid::Uuid::new_v4().to_string()
}

/// Whether an account identifier is a fresh one.
pub open spec fn is_fresh_account(id: Seq<char>) -> bool {
    exists|digits: Seq<char>| #[trigger] is_hyphenated_id(digits) && id == "acct_"@ + digits
}

/// Whether a prepared account is the one that an entry describes, behind this proxy.
pub open spec fn prepares(
    prepared: PreparedCredential,
    entry: EntryView,
    proxy: Option<Seq<char>>,
) -> bool {
    &&& is_fresh_account(prepared.account_id@)
    &&& prepared.name@ == entry.name
    &&& prepared.plan_type@ == tier_name(entry.credential.tier)
    &&& prepared.authentication_kind@ == "api_key"@
    &&& prepared.material@ == credential_document(entry.credential)
    &&& view_string(prepared.outbound_proxy) == proxy
    &&& prepared.enabled
}

fn fresh_account() -> (id: String)
    ensures
        is_fresh_account(id@),
{
    let digits = random_hyphenated_id();
    assert(is_hyphenated_id(digits@));
    let mut id = "acct_".to_owned();
    id.append(digits.as_str());
    id
}

fn read_entry(entry: &Json) -> (read: Option<(String, Credential)>)
    ensures
        match entry_read(entry@) {
            Some(expected) => read matches Some((name, credential)) && name@ == expected.name
                && credential@ == expected.credential,
            None => read is None,
        },
{
    let object = entry.as_object()?;
    let mut material = object.clone();
    let name = material.remove("name")?;
    let name = name.as_text()?;
    if blank(name) || count_bytes(name) > ACCOUNT_NAME_LIMIT {
        return None;
    }
    match Credential::parse(&Json::object(material)) {
        Ok(credential) => Some((name.to_owned(), credential)),
        Err(_) => None,
    }
}

fn own_text(text: Option<&str>) -> (owned: Option<String>)
    ensures
        view_string(owned) == view_text(text),
{
    match text {
        Some(text) => Some(text.to_owned()),
        None => None,
    }
}

/// Prepares new accounts from a document, all behind the same proxy. One that cannot be read
/// refuses the whole import.
pub fn prepare_import(document: &JsonObject, proxy: Option<&str>) -> (prepared: Result<
    Vec<PreparedCredential>,
    AdminError,
>)
    ensures
        match import_read(document@) {
            Some(entries) => prepared matches Ok(prepared) && prepared@.len() == entries.len()
                && forall|i: int|
                0 <= i < entries.len() ==> prepares(
                    #[trigger] prepared@[i],
                    entries[i],
                    view_text(proxy),
                ),
            None => prepared == Err::<Vec<PreparedCredential>, AdminError>(
                admin_failure(AdminErrorKind::Invalid),
            ),
        },
{
    let entries = match document.get("accounts") {
        Some(Json::Array(entries)) => entries,
        _ => return Err(invalid()),
    };
    let ghost values = items_view(entries@);
    proof {
        lemma_items_view(entries@);
        assert(values.take(0) =~= seq![]);
    }
    if entries.len() == 0 || entries.len() > IMPORT_LIMIT {
        return Err(invalid());
    }
    let mut prepared: Vec<PreparedCredential> = Vec::new();
    let mut i: usize = 0;
    while i < entries.len()
        invariant
            i <= entries.len(),
            0 < entries.len() <= IMPORT_LIMIT,
            values == items_view(entries@),
            values.len() == entries.len(),
            as_array(field(document@, "accounts"@)) == Some(values),
            forall|j: int| 0 <= j < entries.len() ==> #[trigger] values[j] == entries@[j]@,
            entries_read(values.take(i as int)) matches Some(read) && prepared@.len() == read.len()
                && read.len() == i && forall|j: int|
                0 <= j < read.len() ==> prepares(
                    #[trigger] prepared@[j],
                    read[j],
                    view_text(proxy),
                ),
        decreases entries.len() - i,
    {
        proof {
            assert(values.take(i + 1).drop_last() =~= values.take(i as int));
            assert(values[i as int] == entries@[i as int]@);
        }
        match read_entry(&entries[i]) {
            Some((name, credential)) => {
                prepared.push(
                    PreparedCredential {
                        account_id: fresh_account(),
                        name,
                        plan_type: credential.tier.as_str().to_owned(),
                        authentication_kind: "api_key".to_owned(),
                        material: credential.document(),
                        outbound_proxy: own_text(proxy),
                        enabled: true,
                    },
                );
            },
            None => {
                proof {
                    lemma_unreadable(values, i as int);
                }
                return Err(invalid());
            },
        }
        i += 1;
    }
    assert(values.take(i as int) =~= values);
    Ok(prepared)
}

/// An entry that cannot be read makes the whole list unreadable.
proof fn lemma_unreadable(entries: Seq<JsonView>, at: int)
    requires
        0 <= at < entries.len(),
        entry_read(entries[at]) is None,
    ensures
        entries_read(entries) is None,
    decreases entries.len(),
{
    if at < entries.len() - 1 {
        assert(entries.drop_last()[at] == entries[at]);
        lemma_unreadable(entries.drop_last(), at);
    }
}

/// The account's credential, if the account is one of this provider.
pub open spec fn current_read(kind: Seq<char>, provider: Seq<char>, material: Fields) -> Result<
    CredentialView,
    AdminErrorKind,
> {
    if provider != kind {
        Err(AdminErrorKind::NotFound)
    } else {
        match credential_read(JsonView::Object(material)) {
            Some(credential) => Ok(credential),
            None => Err(AdminErrorKind::Invalid),
        }
    }
}

/// Whether an outcome is a credential that is expected, or an error of the expected kind.
pub open spec fn yields_credential(
    outcome: Result<Credential, AdminError>,
    expected: Result<CredentialView, AdminErrorKind>,
) -> bool {
    match expected {
        Ok(credential) => outcome matches Ok(found) && found@ == credential,
        Err(kind) => outcome == Err::<Credential, AdminError>(admin_failure(kind)),
    }
}

/// Reads the credential of an account that the host has loaded.
pub fn current_credential(kind: &str, provider: &str, material: &JsonObject) -> (credential: Result<
    Credential,
    AdminError,
>)
    ensures
        yields_credential(credential, current_read(kind@, provider@, material@)),
{
    if !same_text(provider, kind) {
        return Err(AdminError::new(AdminErrorKind::NotFound));
    }
    Credential::parse(&Json::object(material.clone()))
}

/// Whether an account's credential can be replaced here.
pub open spec fn is_rotatable(account: AccountRecord, kind: Seq<char>) -> bool {
    account.provider_kind@ == kind && account.authentication_kind@ == "api_key"@
}

/// Refuses accounts whose credential cannot be replaced here.
pub fn check_rotation(account: &AccountRecord, kind: &str) -> (checked: Result<(), AdminError>)
    ensures
        if is_rotatable(*account, kind@) {
            checked == Ok::<(), AdminError>(())
        } else {
            checked == Err::<(), AdminError>(admin_failure(AdminErrorKind::Invalid))
        },
{
    if same_text(account.provider_kind.as_str(), kind) && same_text(
        account.authentication_kind.as_str(),
        "api_key",
    ) {
        Ok(())
    } else {
        Err(invalid())
    }
}

/// New material completed with what it leaves out: the key where it is absent or empty, and the
/// product where it is absent.
pub open spec fn completed(current: CredentialView, material: Fields) -> Fields {
    let key = field(material, "api_key"@);
    let keyed = if key is None || key == Some(JsonView::Text(seq![])) {
        material.insert("api_key"@, JsonView::Text(current.api_key))
    } else {
        material
    };
    if keyed.contains_key("tier"@) {
        keyed
    } else {
        keyed.insert("tier"@, JsonView::Text(tier_name(current.tier)))
    }
}

/// A new credential for an account, ready to be committed unless the old one was replaced
/// meanwhile.
pub struct PreparedRotation {
    pub account_id: String,
    pub expected_credential_revision: u64,
    pub name: String,
    pub plan_type: String,
    pub material: JsonObject,
}

/// The credential that replaces an account's current one, if the account's credential can be
/// replaced here and the new one can be used.
pub open spec fn rotated(
    account: AccountRecord,
    kind: Seq<char>,
    current: CredentialView,
    material: Fields,
) -> Option<CredentialView> {
    if is_rotatable(account, kind) {
        credential_read(JsonView::Object(completed(current, material)))
    } else {
        None
    }
}

fn complete(current: &Credential, material: &JsonObject) -> (whole: JsonObject)
    ensures
        whole@ == completed(current@, material@),
{
    let mut whole = material.clone();
    let missing = match whole.get("api_key") {
        None => true,
        Some(Json::Text(key)) => {
            assert(key@.len() == 0 ==> key@ =~= seq![]);
            key.as_str().is_empty()
        },
        Some(_) => false,
    };
    if missing {
        whole.set("api_key", Json::text(current.api_key.as_str()));
    }
    if whole.get("tier").is_none() {
        whole.set("tier", Json::text(current.tier.as_str()));
    }
    whole
}

/// Prepares a new credential for an account.
pub fn prepare_rotation(
    account: &AccountRecord,
    kind: &str,
    current: &Credential,
    material: &JsonObject,
) -> (prepared: Result<PreparedRotation, AdminError>)
    ensures
        match rotated(*account, kind@, current@, material@) {
            Some(credential) => {
                &&& prepared matches Ok(prepared)
                &&& prepared.account_id@ == account.id@
                &&& prepared.expected_credential_revision == account.credential_revision
                &&& prepared.name@ == account.name@
                &&& prepared.plan_type@ == tier_name(credential.tier)
                &&& prepared.material@ == credential_document(credential)
            },
            None => prepared == Err::<PreparedRotation, AdminError>(
                admin_failure(AdminErrorKind::Invalid),
            ),
        },
{
    check_rotation(account, kind)?;
    let credential = Credential::parse(&Json::object(complete(current, material)))?;
    Ok(
        PreparedRotation {
            account_id: account.id.clone(),
            expected_credential_revision: account.credential_revision,
            name: account.name.clone(),
            plan_type: credential.tier.as_str().to_owned(),
            material: credential.document(),
        },
    )
}

/// What of an account's configuration may be shown: the product.
pub fn account_configuration(credential: &Credential) -> (document: JsonObject)
    ensures
        document@ == single("tier"@, JsonView::Text(tier_name(credential.tier))),
{
    JsonObject::new().with("tier", Json::text(credential.tier.as_str()))
}

/// The catalog's entries of one product, in their order.
pub open spec fn product_models(models: Seq<Model>, tier: Tier) -> Seq<Model>
    decreases models.len(),
{
    if models.len() == 0 {
        seq![]
    } else if models.last().tier == tier {
        product_models(models.drop_last(), tier).push(models.last())
    } else {
        product_models(models.drop_last(), tier)
    }
}

pub open spec fn model_names(models: Seq<Model>) -> Seq<(Seq<char>, Seq<char>)> {
    models.map_values(|model: Model| (model.id@, model.name@))
}

pub open spec fn pairs_view(pairs: Seq<(String, String)>) -> Seq<(Seq<char>, Seq<char>)> {
    pairs.map_values(|pair: (String, String)| (pair.0@, pair.1@))
}

/// The identifier and the name of each model that an account can use.
pub fn models(catalog: &Catalog, tier: Tier) -> (listed: Vec<(String, String)>)
    ensures
        pairs_view(listed@) == model_names(product_models(catalog.models@, tier)),
{
    let ghost all = catalog.models@;
    let mut listed: Vec<(String, String)> = Vec::new();
    let mut i: usize = 0;
    assert(all.take(0) =~= seq![]);
    assert(pairs_view(listed@) =~= model_names(product_models(all.take(0), tier)));
    while i < catalog.models.len()
        invariant
            i <= catalog.models.len(),
            all == catalog.models@,
            pairs_view(listed@) == model_names(product_models(all.take(i as int), tier)),
        decreases catalog.models.len() - i,
    {
        let model = &catalog.models[i];
        let ghost before = listed@;
        assert(all.take(i + 1).drop_last() =~= all.take(i as int));
        if model.tier == tier {
            listed.push((model.id.clone(), model.name.clone()));
            assert(pairs_view(listed@) =~= pairs_view(before).push((model.id@, model.name@)));
            assert(model_names(product_models(all.take(i + 1), tier)) =~= model_names(
                product_models(all.take(i as int), tier),
            ).push((model.id@, model.name@)));
        }
        i += 1;
    }
    assert(all.take(i as int) =~= all);
    listed
}

/// An account to export with its material.
pub struct ExportInput {
    pub account: AccountRecord,
    pub material: JsonObject,
}

/// What an account to export holds, if it is one of this provider and can be read.
pub open spec fn export_read(input: ExportInput, kind: Seq<char>) -> Option<EntryView> {
    match credential_read(JsonView::Object(input.material@)) {
        Some(credential) if input.account.provider_kind@ == kind => Some(
            EntryView { name: input.account.name@, credential },
        ),
        _ => None,
    }
}

pub open spec fn exports_read(inputs: Seq<ExportInput>, kind: Seq<char>) -> Option<Seq<EntryView>>
    decreases inputs.len(),
{
    if inputs.len() == 0 {
        Some(seq![])
    } else {
        match (exports_read(inputs.drop_last(), kind), export_read(inputs.last(), kind)) {
            (Some(before), Some(entry)) => Some(before.push(entry)),
            _ => None,
        }
    }
}

/// An account as an export writes it.
pub open spec fn entry_value(entry: EntryView) -> JsonView {
    JsonView::Object(
        single("name"@, JsonView::Text(entry.name)).insert(
            "api_key"@,
            JsonView::Text(entry.credential.api_key),
        ).insert("tier"@, JsonView::Text(tier_name(entry.credential.tier))),
    )
}

pub open spec fn entry_values(entries: Seq<EntryView>) -> Seq<JsonView> {
    entries.map_values(|entry: EntryView| entry_value(entry))
}

/// The document of an export.
pub open spec fn export_document(entries: Seq<EntryView>) -> Fields {
    single("provider"@, JsonView::Text("opencode"@)).insert(
        "accounts"@,
        JsonView::Array(entry_values(entries)),
    )
}

fn read_export(input: &ExportInput, kind: &str) -> (credential: Option<Credential>)
    ensures
        match export_read(*input, kind@) {
            Some(entry) => credential matches Some(credential) && credential@ == entry.credential,
            None => credential is None,
        },
{
    if !same_text(input.account.provider_kind.as_str(), kind) {
        return None;
    }
    match Credential::parse(&Json::object(input.material.clone())) {
        Ok(credential) => Some(credential),
        Err(_) => None,
    }
}

/// An account that cannot be exported refuses the whole export.
proof fn lemma_unexportable(inputs: Seq<ExportInput>, kind: Seq<char>, at: int)
    requires
        0 <= at < inputs.len(),
        export_read(inputs[at], kind) is None,
    ensures
        exports_read(inputs, kind) is None,
    decreases inputs.len(),
{
    if at < inputs.len() - 1 {
        assert(inputs.drop_last()[at] == inputs[at]);
        lemma_unexportable(inputs.drop_last(), kind, at);
    }
}

/// A document that an import reads, and the accounts that it holds.
pub struct Export {
    pub account_ids: Vec<String>,
    pub document: JsonObject,
}

/// The identifiers of accounts.
pub open spec fn input_ids(inputs: Seq<ExportInput>) -> Seq<Seq<char>> {
    inputs.map_values(|input: ExportInput| input.account.id@)
}

/// Writes accounts into a document that an import reads.
pub fn export_credentials(inputs: &Vec<ExportInput>, kind: &str) -> (export: Result<
    Export,
    AdminError,
>)
    ensures
        match exports_read(inputs@, kind@) {
            Some(entries) => {
                &&& export matches Ok(export)
                &&& export.document@ == export_document(entries)
                &&& texts_view(export.account_ids@) == input_ids(inputs@)
            },
            None => export == Err::<Export, AdminError>(admin_failure(AdminErrorKind::Invalid)),
        },
{
    let mut account_ids: Vec<String> = Vec::new();
    let mut values: Vec<Json> = Vec::new();
    let mut i: usize = 0;
    assert(inputs@.take(0) =~= seq![]);
    assert(entry_values(seq![]) =~= seq![]);
    assert(texts_view(account_ids@) =~= input_ids(inputs@.take(0)));
    while i < inputs.len()
        invariant
            i <= inputs.len(),
            exports_read(inputs@.take(i as int), kind@) matches Some(entries) && items_view(values@)
                == entry_values(entries),
            texts_view(account_ids@) == input_ids(inputs@.take(i as int)),
        decreases inputs.len() - i,
    {
        let ghost entries = exports_read(inputs@.take(i as int), kind@)->0;
        proof {
            assert(inputs@.take(i + 1).drop_last() =~= inputs@.take(i as int));
            assert(inputs@.take(i + 1).last() == inputs@[i as int]);
        }
        match read_export(&inputs[i], kind) {
            Some(credential) => {
                let value = Json::object(
                    JsonObject::new().with("name", Json::text(inputs[i].account.name.as_str())).with(
                        "api_key",
                        Json::text(credential.api_key.as_str()),
                    ).with("tier", Json::text(credential.tier.as_str())),
                );
                proof {
                    let entry = export_read(inputs@[i as int], kind@)->0;
                    lemma_items_view_push(values@, value);
                    assert(value@ == entry_value(entry));
                    assert(entry_values(entries.push(entry)) =~= entry_values(entries).push(
                        entry_value(entry),
                    ));
                }
                values.push(value);
                let id = inputs[i].account.id.clone();
                let ghost listed = texts_view(account_ids@);
                account_ids.push(id);
                assert(texts_view(account_ids@) =~= listed.push(id@));
                assert(input_ids(inputs@.take(i + 1)) =~= input_ids(inputs@.take(i as int)).push(
                    inputs@[i as int].account.id@,
                ));
            },
            None => {
                proof {
                    lemma_unexportable(inputs@, kind@, i as int);
                }
                return Err(invalid());
            },
        }
        i += 1;
    }
    assert(inputs@.take(i as int) =~= inputs@);
    let document = JsonObject::new().with("provider", Json::text("opencode")).with(
        "accounts",
        Json::array(values),
    );
    Ok(Export { account_ids, document })
}

/// The body of a connection test.
pub open spec fn test_body(model: Seq<char>, input: Seq<char>) -> Fields {
    single("model"@, JsonView::Text(model)).insert("input"@, JsonView::Text(input)).insert(
        "stream"@,
        JsonView::Bool(true),
    ).insert("max_output_tokens"@, JsonView::Number(NumberView::Unsigned(TEST_OUTPUT)))
}

/// A short request that shows whether an account works.
pub fn connection_test_operation(model: &str, input: &str) -> (payload: ProtocolPayload)
    ensures
        payload.protocol@ == "openai"@,
        payload.body@ == test_body(model@, input@),
        payload.context@ == Map::<Seq<char>, JsonView>::empty(),
{
    ProtocolPayload {
        protocol: "openai".to_owned(),
        body: JsonObject::new().with("model", Json::text(model)).with(
            "input",
            Json::text(input),
        ).with("stream", Json::Bool(true)).with("max_output_tokens", Json::unsigned(TEST_OUTPUT)),
        context: JsonObject::new(),
    }
}

/// How requests present themselves. The client states neither its system nor its terminal, so
/// these stay unknown.
pub struct WireProfile {
    pub provider: String,
    pub product: &'static str,
    pub version: &'static str,
    pub build: Option<&'static str>,
    pub os_type: &'static str,
    pub os_version: &'static str,
    pub arch: &'static str,
    pub terminal: &'static str,
    pub user_agent: String,
    pub attribute_label: &'static str,
    pub attribute_value: &'static str,
    pub verified_at: Option<Moment>,
    pub release: Option<&'static str>,
}

pub fn dashboard_wire_profile(kind: &str) -> (profile: WireProfile)
    ensures
        profile.provider@ == kind@,
        profile.product@ == "OpenCode CLI"@,
        profile.version@ == CLIENT_VERSION@,
        profile.build is None,
        profile.os_type@ == "—"@,
        profile.os_version@ == "—"@,
        profile.arch@ == "—"@,
        profile.terminal@ == "—"@,
        profile.user_agent@ == user_agent_text(),
        profile.attribute_label@ == "客户端标识"@,
        profile.attribute_value@ == CLIENT_KIND@,
        profile.verified_at is None,
        profile.release is None,
{
    WireProfile {
        provider: kind.to_owned(),
        product: "OpenCode CLI",
        version: CLIENT_VERSION,
        build: None,
        os_type: "—",
        os_version: "—",
        arch: "—",
        terminal: "—",
        user_agent: user_agent(),
        attribute_label: "客户端标识",
        attribute_value: CLIENT_KIND,
        verified_at: None,
        release: None,
    }
}

/// What cannot be done with keys that the upstream issues.
pub fn unsupported() -> (error: AdminError)
    ensures
        error == admin_failure(AdminErrorKind::Unsupported),
{
    AdminError::new(AdminErrorKind::Unsupported)
}

pub open spec fn quota_error_kind(error: QuotaError) -> AdminErrorKind {
    match error {
        QuotaError::Upstream => AdminErrorKind::Unavailable,
        _ => AdminErrorKind::Invalid,
    }
}

pub open spec fn quota_error_message(error: QuotaError) -> Seq<char> {
    match error {
        QuotaError::Unauthorized => "OpenCode 额度查询凭据无效，请检查账号授权"@,
        QuotaError::NoPlan => "该 Key 没有 OpenCode Go 订阅，无法查询额度"@,
        QuotaError::Invalid => "OpenCode 额度数据无效，请检查账号授权"@,
        QuotaError::Upstream => "OpenCode 额度查询失败，请检查出站连接与上游服务"@,
    }
}

/// Whether an error is the one that an administrator sees for a missing quota.
pub open spec fn is_quota_failure(shown: AdminError, error: QuotaError) -> bool {
    shown.kind == quota_error_kind(error) && (shown.public_message matches Some(message)
        && message@ == quota_error_message(error))
}

/// What an administrator sees where there is no quota to show: a fixed message, never the
/// upstream's text.
pub fn map_quota_error(error: QuotaError) -> (shown: AdminError)
    ensures
        is_quota_failure(shown, error),
{
    match error {
        QuotaError::Unauthorized => AdminError::new(AdminErrorKind::Invalid).with_public_message(
            "OpenCode 额度查询凭据无效，请检查账号授权",
        ),
        QuotaError::NoPlan => AdminError::new(AdminErrorKind::Invalid).with_public_message(
            "该 Key 没有 OpenCode Go 订阅，无法查询额度",
        ),
        QuotaError::Invalid => AdminError::new(AdminErrorKind::Invalid).with_public_message(
            "OpenCode 额度数据无效，请检查账号授权",
        ),
        QuotaError::Upstream => AdminError::new(AdminErrorKind::Unavailable).with_public_message(
            "OpenCode 额度查询失败，请检查出站连接与上游服务",
        ),
    }
}

/// A replacement that leaves out the key keeps it, as does one that leaves it empty; one that
/// leaves out the product keeps that. So an empty replacement changes nothing.
pub proof fn lemma_rotation_keeps_what_is_left_out(current: CredentialView, material: Fields)
    requires
        is_key(current.api_key),
    ensures
        credential_read(JsonView::Object(completed(current, Map::empty()))) == Some(current),
        credential_read(JsonView::Object(completed(current, material))) matches Some(next) ==> {
            &&& (field(material, "api_key"@) is None || field(material, "api_key"@) == Some(
                JsonView::Text(seq![]),
            )) ==> next.api_key == current.api_key
            &&& field(material, "tier"@) is None ==> next.tier == current.tier
        },
{
    reveal_strlit("api_key");
    reveal_strlit("tier");
    reveal_strlit("zen");
    reveal_strlit("go");
    assert("api_key"@.len() != "tier"@.len());
    assert("zen"@.len() != "go"@.len());
    assert(completed(current, Map::empty()) =~= credential_document(current));
    crate::credential::lemma_document_reads_back(current);
}

proof fn lemma_entry_reads_back(entry: EntryView)
    requires
        is_account_name(entry.name),
        is_key(entry.credential.api_key),
    ensures
        entry_read(entry_value(entry)) == Some(entry),
{
    reveal_strlit("name");
    reveal_strlit("api_key");
    reveal_strlit("tier");
    assert("name"@.len() == 4 && "api_key"@.len() == 7 && "tier"@.len() == 4);
    assert("name"@[0] != "tier"@[0]);
    let fields = entry_value(entry)->Object_0;
    assert(fields.remove("name"@) =~= credential_document(entry.credential));
    crate::credential::lemma_document_reads_back(entry.credential);
}

proof fn lemma_entries_read_back(entries: Seq<EntryView>)
    requires
        forall|i: int|
            0 <= i < entries.len() ==> is_account_name((#[trigger] entries[i]).name) && is_key(
                entries[i].credential.api_key,
            ),
    ensures
        entries_read(entry_values(entries)) == Some(entries),
    decreases entries.len(),
{
    if entries.len() > 0 {
        let front = entries.drop_last();
        assert forall|i: int| 0 <= i < front.len() implies is_account_name(
            (#[trigger] front[i]).name,
        ) && is_key(front[i].credential.api_key) by {
            assert(front[i] == entries[i]);
        }
        lemma_entries_read_back(front);
        assert(entries[entries.len() - 1] == entries.last());
        lemma_entry_reads_back(entries.last());
        assert(entry_values(entries).drop_last() =~= entry_values(front));
        assert(entries =~= front.push(entries.last()));
    } else {
        assert(entries =~= seq![]);
    }
}

proof fn lemma_exports_are_usable(inputs: Seq<ExportInput>, kind: Seq<char>)
    ensures
        exports_read(inputs, kind) matches Some(entries) ==> entries.len() == inputs.len()
            && forall|i: int|
            0 <= i < entries.len() ==> (#[trigger] entries[i]).name == inputs[i].account.name@
                && is_key(entries[i].credential.api_key),
    decreases inputs.len(),
{
    if inputs.len() > 0 {
        lemma_exports_are_usable(inputs.drop_last(), kind);
        lemma_read_is_usable(JsonView::Object(inputs.last().material@));
        if let Some(entries) = exports_read(inputs, kind) {
            let before = exports_read(inputs.drop_last(), kind)->0;
            assert forall|i: int| 0 <= i < entries.len() implies (#[trigger] entries[i]).name
                == inputs[i].account.name@ && is_key(entries[i].credential.api_key) by {
                if i < before.len() {
                    assert(entries[i] == before[i]);
                    assert(inputs.drop_last()[i] == inputs[i]);
                }
            }
        }
    }
}

/// An import of an export brings back every account, with its name and its credential, as long
/// as the export is not empty, not larger than an import may be, and its names can be given.
pub proof fn lemma_export_imports_back(inputs: Seq<ExportInput>, kind: Seq<char>)
    requires
        0 < inputs.len() <= IMPORT_LIMIT,
        exports_read(inputs, kind) is Some,
        forall|i: int|
            0 <= i < inputs.len() ==> is_account_name((#[trigger] inputs[i]).account.name@),
    ensures
        import_read(export_document(exports_read(inputs, kind)->0)) == exports_read(inputs, kind),
{
    reveal_strlit("provider");
    reveal_strlit("accounts");
    assert("provider"@[0] != "accounts"@[0]);
    let entries = exports_read(inputs, kind)->0;
    lemma_exports_are_usable(inputs, kind);
    assert forall|i: int| 0 <= i < entries.len() implies is_account_name(
        (#[trigger] entries[i]).name,
    ) && is_key(entries[i].credential.api_key) by {
        assert(is_account_name(inputs[i].account.name@));
    }
    lemma_entries_read_back(entries);
}

} // verus!
