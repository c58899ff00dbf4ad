//! What the answers to the question for a usage report mean, and how it is asked.

use crate::json::{get, Fields, JsonView};
use crate::provider::laws::sends;
use crate::provider::user_agent_text;
use crate::quota::{
    usage_headers, usage_read, window_group, window_key, window_label, window_seconds, QuotaError,
    WindowRole,
};
use vstd::prelude::*;

verus! {

/// A report is what stands under `usage` of a successful answer, if that is an object with any
/// field; else the answer is invalid. A refused key is called so; a missing subscription only
/// where the upstream itself says so; any other failure is the upstream's.
pub proof fn lemma_answers_for_usage(success: bool, status: u16, document: Option<JsonView>)
    ensures
        success ==> match get(document, "usage"@) {
            Some(JsonView::Object(report)) => if report.dom() == Set::<Seq<char>>::empty() {
                usage_read(success, status, document) == Err::<Fields, _>(QuotaError::Invalid)
            } else {
                usage_read(success, status, document) == Ok::<_, QuotaError>(report)
            },
            _ => usage_read(success, status, document) == Err::<Fields, _>(QuotaError::Invalid),
        },
        !success ==> (usage_read(success, status, document) matches Err(error) && match error {
            QuotaError::Unauthorized => status == 401,
            QuotaError::NoPlan => status == 403 && get(get(document, "error"@), "type"@) == Some(
                JsonView::Text("EntitlementError"@),
            ),
            QuotaError::Upstream => status != 401 && !(status == 403 && get(
                get(document, "error"@),
                "type"@,
            ) == Some(JsonView::Text("EntitlementError"@))),
            QuotaError::Invalid => false,
        }),
{
    if let Some(JsonView::Object(report)) = get(document, "usage"@) {
        if report.dom() == Set::<Seq<char>>::empty() {
            assert(report =~= Map::<Seq<char>, JsonView>::empty());
        } else if report == Map::<Seq<char>, JsonView>::empty() {
            assert(report.dom() =~= Set::<Seq<char>>::empty());
        }
    }
}

/// The windows of the product: five hours, a week, and a month, whose length is not fixed.
pub proof fn lemma_windows_of_the_product(role: WindowRole)
    ensures
        window_key(role) == match role {
            WindowRole::Primary => "rolling"@,
            WindowRole::Secondary => "weekly"@,
            WindowRole::Monthly => "monthly"@,
        },
        window_group(role) == match role {
            WindowRole::Primary => "shortTerm"@,
            WindowRole::Secondary => "shortTerm"@,
            WindowRole::Monthly => "monthly"@,
        },
        window_label(role) == match role {
            WindowRole::Primary => "5小时额度"@,
            WindowRole::Secondary => "周额度"@,
            WindowRole::Monthly => "月额度"@,
        },
        window_seconds(role) == match role {
            WindowRole::Primary => Some(18_000u64),
            WindowRole::Secondary => Some(604_800u64),
            WindowRole::Monthly => None,
        },
{
}

/// The question names the client, and the same session every time for an account.
pub proof fn lemma_question_is_named(account_id: Seq<char>)
    ensures
        sends(usage_headers(account_id), "accept"@, "application/json"@),
        sends(usage_headers(account_id), "user-agent"@, user_agent_text()),
        sends(usage_headers(account_id), "x-opencode-client"@, "cli"@),
        sends(
            usage_headers(account_id),
            "x-opencode-session"@,
            crate::identity::quota_session_id(account_id),
        ),
{
    reveal_strlit("accept");
    reveal_strlit("user-agent");
    reveal_strlit("x-opencode-client");
    reveal_strlit("x-opencode-session");
    assert("accept"@.len() == 6 && "user-agent"@.len() == 10 && "x-opencode-client"@.len() == 17
        && "x-opencode-session"@.len() == 18);
    let headers = usage_headers(account_id);
    assert(headers[0] == ("accept"@, "application/json"@));
    assert(headers[1] == ("user-agent"@, user_agent_text()));
    assert(headers[2] == ("x-opencode-client"@, "cli"@));
    assert(headers[3] == (
        "x-opencode-session"@,
        crate::identity::quota_session_id(account_id),
    ));
}

} // verus!
