//! The course of one attempt once its request goes out. The host sends, reads and waits; what
//! each outcome means is decided here.

pub mod laws;

use crate::catalog::Protocol;
use crate::error::{
    broken_protocol, failure, protocol, ProviderError, ProviderErrorKind, UpstreamSendState,
};
use crate::event::{events_view, ProviderEvent, ProviderEventView, TokenUsage};
use crate::json::{parsed_json, view_string};
use crate::provider::{
    cooldown_of, cools_down, event_stream, is_event_stream, make_cooldown, make_refusal,
    refusal_of,
};
use crate::stream::steps::{event_decoded, Decoded, DecoderView};
use crate::stream::{Decoder, SseEvent};
use crate::time::Delay;
use vstd::prelude::*;

verus! {

/// How far an attempt is.
#[derive(Debug, Clone, Copy, PartialEq, Eq, Structural)]
pub enum Progress {
    /// The request is on its way.
    Sending,
    /// The account was refused and is put aside before the refusal is reported.
    Cooling,
    /// The answer comes in.
    Receiving,
    Finished,
}

/// What the host has seen.
pub enum Happening {
    Cancelled,
    TimedOut,
    /// The request could not be sent.
    SendFailed { timeout: bool, connect: bool },
    /// The upstream answered; how long it asks to wait, if it does.
    Answered { status: u16, retry: Option<Delay>, content_type: Option<String> },
    /// The account was put aside.
    Cooled,
    /// The account could not be put aside.
    CoolingFailed,
    /// An event of the answer, and the counters that its usage report was read as.
    Received { event: SseEvent, reported: Option<TokenUsage> },
    /// What came in is no event stream.
    Garbled,
    /// The answer could not be read.
    ReadFailed { timeout: bool },
    /// The answer is over.
    Closed,
}

/// What the host has to do.
pub enum Step {
    /// Put the account aside for this long.
    Cool(Delay),
    /// Report the status and go on reading.
    Observe(u16),
    /// Hand these events on, after binding the session to the account where that is asked for.
    Deliver { bind: bool, events: Vec<ProviderEvent> },
    /// The answer is complete.
    Finish,
    Fail(ProviderError),
}

#[verifier::ext_equal]
pub enum StepView {
    Cool(Delay),
    Observe(u16),
    Deliver { bind: bool, events: Seq<ProviderEventView> },
    Finish,
    Fail(ProviderError),
}

impl Step {
    pub open spec fn view(&self) -> StepView {
        match self {
            Step::Cool(delay) => StepView::Cool(*delay),
            Step::Observe(status) => StepView::Observe(*status),
            Step::Deliver { bind, events } => StepView::Deliver {
                bind: *bind,
                events: events_view(events@),
            },
            Step::Finish => StepView::Finish,
            Step::Fail(error) => StepView::Fail(*error),
        }
    }
}

/// One attempt.
pub struct Attempt {
    pub progress: Progress,
    /// Whether the account is in use; one that is only tested is neither put aside nor bound.
    pub enabled: bool,
    pub decoder: Decoder,
    /// The refusal that is reported once the account is put aside.
    pub refusal: Option<ProviderError>,
}

#[verifier::ext_equal]
pub struct AttemptView {
    pub progress: Progress,
    pub enabled: bool,
    pub decoder: DecoderView,
    pub refusal: Option<ProviderError>,
}

impl Attempt {
    pub open spec fn view(&self) -> AttemptView {
        AttemptView {
            progress: self.progress,
            enabled: self.enabled,
            decoder: self.decoder@,
            refusal: self.refusal,
        }
    }
}

pub open spec fn over(attempt: AttemptView, step: StepView) -> (AttemptView, StepView) {
    (AttemptView { progress: Progress::Finished, ..attempt }, step)
}

pub open spec fn failed(
    attempt: AttemptView,
    kind: ProviderErrorKind,
    send_state: UpstreamSendState,
) -> (AttemptView, StepView) {
    over(attempt, StepView::Fail(failure(kind, send_state)))
}

/// Whether something can happen at this point.
pub open spec fn can_happen(attempt: AttemptView, happening: Happening) -> bool {
    match happening {
        Happening::Cancelled | Happening::TimedOut => attempt.progress == Progress::Sending
            || attempt.progress == Progress::Receiving,
        Happening::SendFailed { .. } | Happening::Answered { .. } => attempt.progress
            == Progress::Sending,
        Happening::Cooled | Happening::CoolingFailed => attempt.progress == Progress::Cooling,
        _ => attempt.progress == Progress::Receiving,
    }
}

/// What every attempt keeps: while the account is put aside there is a refusal to report.
pub open spec fn well_formed(attempt: AttemptView) -> bool {
    attempt.progress == Progress::Cooling ==> attempt.refusal is Some
}

pub open spec fn is_success(status: u16) -> bool {
    200 <= status <= 299
}

/// The upstream answered. A refusal is reported, after the account was put aside where the
/// refusal calls for it; anything but an event stream breaks the protocol.
pub open spec fn answered(
    attempt: AttemptView,
    status: u16,
    retry: Option<Delay>,
    content_type: Option<Seq<char>>,
) -> (AttemptView, StepView) {
    if !is_success(status) {
        if cools_down(status) && attempt.enabled {
            (
                AttemptView {
                    progress: Progress::Cooling,
                    refusal: Some(refusal_of(status, retry)),
                    ..attempt
                },
                StepView::Cool(cooldown_of(status, retry)),
            )
        } else {
            over(attempt, StepView::Fail(refusal_of(status, retry)))
        }
    } else if !is_event_stream(content_type) {
        over(attempt, StepView::Fail(broken_protocol()))
    } else {
        (AttemptView { progress: Progress::Receiving, ..attempt }, StepView::Observe(status))
    }
}

/// An event came in. The session is bound before the end is handed on, since whoever gets the
/// end may stop listening.
pub open spec fn received(attempt: AttemptView, decoded: Decoded) -> (AttemptView, StepView) {
    let after = AttemptView { decoder: decoded.state, ..attempt };
    match decoded.events {
        None => over(after, StepView::Fail(broken_protocol())),
        Some(events) => (
            after,
            StepView::Deliver { bind: decoded.state.terminal && attempt.enabled, events },
        ),
    }
}

/// What comes of something that happened.
pub open spec fn next(attempt: AttemptView, happening: Happening) -> (AttemptView, StepView) {
    let sending = attempt.progress == Progress::Sending;
    match happening {
        Happening::Cancelled => failed(
            attempt,
            ProviderErrorKind::Cancelled,
            if sending {
                UpstreamSendState::NotSent
            } else {
                UpstreamSendState::Sent
            },
        ),
        Happening::TimedOut => failed(
            attempt,
            ProviderErrorKind::Timeout,
            if sending {
                UpstreamSendState::Ambiguous
            } else {
                UpstreamSendState::Sent
            },
        ),
        Happening::SendFailed { timeout, connect } => failed(
            attempt,
            if timeout {
                ProviderErrorKind::Timeout
            } else {
                ProviderErrorKind::Transport
            },
            if connect {
                UpstreamSendState::NotSent
            } else {
                UpstreamSendState::Ambiguous
            },
        ),
        Happening::Answered { status, retry, content_type } => answered(
            attempt,
            status,
            retry,
            view_string(content_type),
        ),
        Happening::Cooled => over(attempt, StepView::Fail(attempt.refusal->0)),
        Happening::CoolingFailed => failed(
            attempt,
            ProviderErrorKind::ProviderInfrastructureUnavailable,
            UpstreamSendState::Sent,
        ),
        Happening::Received { event, reported } => received(
            attempt,
            event_decoded(attempt.decoder, event@, parsed_json(event.data@), reported),
        ),
        Happening::Garbled => over(attempt, StepView::Fail(broken_protocol())),
        Happening::ReadFailed { timeout } => failed(
            attempt,
            if timeout {
                ProviderErrorKind::Timeout
            } else {
                ProviderErrorKind::Transport
            },
            UpstreamSendState::Sent,
        ),
        Happening::Closed => over(
            attempt,
            if attempt.decoder.terminal {
                StepView::Finish
            } else {
                StepView::Fail(broken_protocol())
            },
        ),
    }
}

impl Attempt {
    /// An attempt whose request goes out now.
    pub fn new(protocol: Protocol, model: &str, enabled: bool) -> (attempt: Attempt)
        ensures
            attempt.progress == Progress::Sending,
            attempt.enabled == enabled,
            attempt.refusal is None,
            exists|id: Seq<char>|
                #[trigger] crate::stream::is_simple_id(id) && attempt.decoder@
                    == crate::stream::new_answer(protocol, model@, "resp_"@ + id),
    {
        Attempt {
            progress: Progress::Sending,
            enabled,
            decoder: Decoder::new(protocol, model),
            refusal: None,
        }
    }

    fn fail(&mut self, error: ProviderError) -> (step: Step)
        ensures
            (final(self)@, step@) == over(old(self)@, StepView::Fail(error)),
    {
        self.progress = Progress::Finished;
        Step::Fail(error)
    }

    fn answer(&mut self, status: u16, retry: Option<Delay>, content_type: Option<&str>) -> (step:
        Step)
        ensures
            (final(self)@, step@) == answered(
                old(self)@,
                status,
                retry,
                crate::json::view_text(content_type),
            ),
    {
        if status < 200 || status > 299 {
            let refusal = make_refusal(status, retry);
            if (refusal.replay_safe || (500 <= status && status <= 599)) && self.enabled {
                self.progress = Progress::Cooling;
                self.refusal = Some(refusal);
                return Step::Cool(make_cooldown(status, retry));
            }
            return self.fail(refusal);
        }
        if !event_stream(content_type) {
            return self.fail(protocol());
        }
        self.progress = Progress::Receiving;
        Step::Observe(status)
    }

    fn receive(&mut self, event: SseEvent, reported: Option<TokenUsage>) -> (step: Step)
        ensures
            (final(self)@, step@) == received(
                old(self)@,
                event_decoded(old(self)@.decoder, event@, parsed_json(event.data@), reported),
            ),
    {
        match self.decoder.decode(event, reported) {
            Ok(events) => Step::Deliver { bind: self.decoder.terminal && self.enabled, events },
            Err(error) => self.fail(error),
        }
    }

    /// Takes in what happened and says what the host has to do.
    pub fn step(&mut self, happening: Happening) -> (step: Step)
        requires
            well_formed(old(self)@),
            can_happen(old(self)@, happening),
        ensures
            (final(self)@, step@) == next(old(self)@, happening),
            well_formed(final(self)@),
    {
        let sending = self.progress == Progress::Sending;
        match happening {
            Happening::Cancelled => self.fail(
                ProviderError::new(
                    ProviderErrorKind::Cancelled,
                    if sending {
                        UpstreamSendState::NotSent
                    } else {
                        UpstreamSendState::Sent
                    },
                ),
            ),
            Happening::TimedOut => self.fail(
                ProviderError::new(
                    ProviderErrorKind::Timeout,
                    if sending {
                        UpstreamSendState::Ambiguous
                    } else {
                        UpstreamSendState::Sent
                    },
                ),
            ),
            Happening::SendFailed { timeout, connect } => self.fail(
                ProviderError::new(
                    if timeout {
                        ProviderErrorKind::Timeout
                    } else {
                        ProviderErrorKind::Transport
                    },
                    if connect {
                        UpstreamSendState::NotSent
                    } else {
                        UpstreamSendState::Ambiguous
                    },
                ),
            ),
            Happening::Answered { status, retry, content_type } => {
                let content_type = match &content_type {
                    Some(content_type) => Some(content_type.as_str()),
                    None => None,
                };
                self.answer(status, retry, content_type)
            },
            Happening::Cooled => match self.refusal {
                Some(refusal) => self.fail(refusal),
                None => self.fail(protocol()),
            },
            Happening::CoolingFailed => self.fail(
                ProviderError::new(
                    ProviderErrorKind::ProviderInfrastructureUnavailable,
                    UpstreamSendState::Sent,
                ),
            ),
            Happening::Received { event, reported } => self.receive(event, reported),
            Happening::Garbled => self.fail(protocol()),
            Happening::ReadFailed { timeout } => self.fail(
                ProviderError::new(
                    if timeout {
                        ProviderErrorKind::Timeout
                    } else {
                        ProviderErrorKind::Transport
                    },
                    UpstreamSendState::Sent,
                ),
            ),
            Happening::Closed => if self.decoder.terminal {
                self.progress = Progress::Finished;
                Step::Finish
            } else {
                self.fail(protocol())
            },
        }
    }
}

/// An attempt finishes well only after an explicit end.
pub proof fn lemma_finish_needs_an_end(attempt: AttemptView, happening: Happening)
    requires
        next(attempt, happening).1 == StepView::Finish,
    ensures
        attempt.decoder.terminal,
{
}

/// Once a request may have reached the upstream, no failure says that it was not sent: only a
/// cancellation or a failed connection before any answer does.
pub proof fn lemma_sent_stays_sent(attempt: AttemptView, happening: Happening, error: ProviderError)
    requires
        well_formed(attempt),
        attempt.refusal matches Some(refusal) ==> refusal.send_state == UpstreamSendState::Sent,
        can_happen(attempt, happening),
        next(attempt, happening).1 == StepView::Fail(error),
        error.send_state == UpstreamSendState::NotSent,
    ensures
        attempt.progress == Progress::Sending,
        happening is Cancelled || happening is SendFailed,
{
}

/// An attempt can be repeated with another account exactly where the refusal was about the
/// account.
pub proof fn lemma_replay_is_about_the_account(status: u16, retry: Option<Delay>)
    ensures
        refusal_of(status, retry).replay_safe <==> (status == 401 || status == 402 || status == 403
            || status == 429),
        refusal_of(status, retry).replay_safe ==> cools_down(status),
{
}

} // verus!
