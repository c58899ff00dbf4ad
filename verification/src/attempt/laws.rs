//! What each outcome of an attempt leads to.

use crate::attempt::{can_happen, next, well_formed, AttemptView, Happening, Progress, StepView};
use crate::error::{ProviderErrorKind, UpstreamSendState};
use crate::json::{parsed_json, view_string};
use crate::provider::laws::{lemma_cooldowns, lemma_refusals_by_status};
use crate::provider::{is_event_stream, refusal_of};
use crate::stream::steps::event_decoded;
use vstd::prelude::*;

verus! {

/// Whether an attempt ends here with a bare failure.
pub open spec fn fails(
    attempt: AttemptView,
    happening: Happening,
    kind: ProviderErrorKind,
    send_state: UpstreamSendState,
) -> bool {
    let (after, step) = next(attempt, happening);
    &&& after.progress == Progress::Finished
    &&& step matches StepView::Fail(error)
    &&& error.kind == kind
    &&& error.send_state == send_state
    &&& error.status is None
    &&& error.retry_after is None
    &&& !error.replay_safe
}

/// How an attempt ends that gets no answer, or breaks off in the middle of one: as cancelled,
/// timed out or failed in transport, and with what is known of whether the upstream has seen the
/// request. It was not sent where it was cancelled or could not connect before any answer; that
/// is unknown where the answer did not come; and it was sent once an answer has come.
pub proof fn lemma_interruptions(attempt: AttemptView, happening: Happening)
    requires
        can_happen(attempt, happening),
    ensures
        ({
            let waiting = attempt.progress == Progress::Sending;
            &&& happening is Cancelled ==> fails(
                attempt,
                happening,
                ProviderErrorKind::Cancelled,
                if waiting {
                    UpstreamSendState::NotSent
                } else {
                    UpstreamSendState::Sent
                },
            )
            &&& happening is TimedOut ==> fails(
                attempt,
                happening,
                ProviderErrorKind::Timeout,
                if waiting {
                    UpstreamSendState::Ambiguous
                } else {
                    UpstreamSendState::Sent
                },
            )
            &&& happening matches Happening::SendFailed { timeout, connect } ==> fails(
                attempt,
                happening,
                if timeout {
                    ProviderErrorKind::Timeout
                } else {
                    ProviderErrorKind::Transport
                },
                if connect {
                    UpstreamSendState::NotSent
                } else {
                    UpstreamSendState::Ambiguous
                },
            )
            &&& happening matches Happening::ReadFailed { timeout } ==> fails(
                attempt,
                happening,
                if timeout {
                    ProviderErrorKind::Timeout
                } else {
                    ProviderErrorKind::Transport
                },
                UpstreamSendState::Sent,
            )
            &&& happening is Garbled ==> fails(
                attempt,
                happening,
                ProviderErrorKind::Protocol,
                UpstreamSendState::Sent,
            )
            &&& happening is CoolingFailed ==> fails(
                attempt,
                happening,
                ProviderErrorKind::ProviderInfrastructureUnavailable,
                UpstreamSendState::Sent,
            )
        }),
{
}

/// What an answer leads to. A success that is an event stream is read on, any other success
/// breaks the protocol. A refusal is reported as its status says; where it is about the account
/// or the service and the account is in use, the account is put aside first, and then the same
/// refusal is reported.
pub proof fn lemma_answers(attempt: AttemptView, happening: Happening)
    requires
        can_happen(attempt, happening),
        well_formed(attempt),
    ensures
        happening matches Happening::Answered { status, retry, content_type } ==> {
            let (after, step) = next(attempt, happening);
            let aside = status == 401 || status == 402 || status == 403 || status == 429 || 500
                <= status < 600;
            if 200 <= status < 300 {
                if is_event_stream(view_string(content_type)) {
                    step == StepView::Observe(status) && after.progress == Progress::Receiving
                        && after.decoder == attempt.decoder
                } else {
                    fails(
                        attempt,
                        happening,
                        ProviderErrorKind::Protocol,
                        UpstreamSendState::Sent,
                    )
                }
            } else if aside && attempt.enabled {
                &&& after.progress == Progress::Cooling
                &&& after.refusal == Some(refusal_of(status, retry))
                &&& step matches StepView::Cool(delay)
                &&& match retry {
                    Some(asked) => delay == asked,
                    None => delay.nanos == if status == 429 {
                        120_000_000_000u128
                    } else {
                        60_000_000_000u128
                    },
                }
            } else {
                step == StepView::Fail(refusal_of(status, retry)) && after.progress
                    == Progress::Finished
            }
        },
        happening is Cooled ==> next(attempt, happening).1 == StepView::Fail(attempt.refusal->0),
{
    if let Happening::Answered { status, retry, .. } = happening {
        lemma_refusals_by_status(status, retry);
        lemma_cooldowns(status, retry);
    }
}

/// What comes in is handed on as it is decoded; with the end of the answer the session is bound
/// first, unless the account is only tested. A stream that closes finishes the attempt well
/// exactly where the answer has ended.
pub proof fn lemma_deliveries(attempt: AttemptView, happening: Happening)
    requires
        can_happen(attempt, happening),
    ensures
        happening matches Happening::Received { event, reported } ==> {
            let (after, step) = next(attempt, happening);
            let decoded = event_decoded(
                attempt.decoder,
                event@,
                parsed_json(event.data@),
                reported,
            );
            match decoded.events {
                Some(events) => {
                    &&& after.decoder == decoded.state
                    &&& after.progress == Progress::Receiving
                    &&& step matches StepView::Deliver { bind, events: delivered }
                    &&& delivered == events
                    &&& bind <==> (decoded.state.terminal && attempt.enabled)
                },
                None => fails(
                    attempt,
                    happening,
                    ProviderErrorKind::Protocol,
                    UpstreamSendState::Sent,
                ),
            }
        },
        happening is Closed && attempt.decoder.terminal ==> next(attempt, happening).1
            == StepView::Finish,
        happening is Closed && !attempt.decoder.terminal ==> fails(
            attempt,
            happening,
            ProviderErrorKind::Protocol,
            UpstreamSendState::Sent,
        ),
        next(attempt, happening).0.enabled == attempt.enabled,
{
}

} // verus!
