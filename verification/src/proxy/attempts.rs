//! One turn, tried with one account after the other.

use crate::proxy::backend::{BackendError, BackendErrorKind, BackendEvent, BackendSuccess};
use crate::proxy::{ProtocolError, Refusal, BAD_GATEWAY, SERVICE_UNAVAILABLE};
use crate::text::text_view;
use vstd::prelude::*;

verus! {

/// How many attempts a turn has left, and why the last one failed.
#[derive(Debug)]
pub struct TurnAttempts {
    pub attempts_left: usize,
    pub last_error: Option<String>,
    pub streaming: bool,
}

/// What happened to an attempt.
#[derive(Debug)]
pub enum AttemptEvent {
    /// No account was leased: the error.
    NoLease(String),
    /// The turn was started with the leased account.
    Started,
    /// The turn could not be started, or failed after its start.
    Failed(BackendError),
    /// The turn brought something.
    Brought(BackendEvent),
    /// The turn ended without an answer.
    Ended,
}

/// What an attempt brought the client.
#[derive(Debug)]
pub enum TurnAnswer {
    /// The answer in one piece.
    Whole(BackendSuccess),
    /// The beginning of a stream, and the whole answer where it came at once.
    Stream { first_delta: String, completion: Option<BackendSuccess> },
}

/// What is to be done next.
#[derive(Debug)]
pub enum AttemptAction {
    /// Lease an account, and start the turn with it.
    Acquire,
    /// Read what the turn brings.
    Read,
    /// Give the account's workers up, let it rest, and refresh it; then go on.
    Recover,
    /// Answer the client.
    Answer(TurnAnswer),
    /// Refuse the client.
    Refuse(ProtocolError),
}

/// The refusal of a turn whose attempts are spent.
pub open spec fn spent_refusal(last_error: Option<Seq<char>>) -> Refusal {
    match last_error {
        Some(error) => (BAD_GATEWAY, error),
        None => (BAD_GATEWAY, "all proxy accounts failed"@),
    }
}

/// Whether an action refuses the client with a status and a message.
pub open spec fn refuses(action: AttemptAction, refusal: Refusal) -> bool {
    match action {
        AttemptAction::Refuse(error) => error.says(refusal.0, refusal.1),
        _ => false,
    }
}

/// Whether an action goes on: with another account while attempts are left, else
/// with the refusal.
pub open spec fn goes_on(action: AttemptAction, attempts: TurnAttempts) -> bool {
    if attempts.attempts_left > 0 {
        action is Acquire
    } else {
        refuses(action, spent_refusal(text_view(attempts.last_error)))
    }
}

/// Whether an event spends an attempt and leaves the turn to go on.
pub open spec fn spends(event: AttemptEvent) -> bool {
    match event {
        AttemptEvent::Failed(error) => error.kind == BackendErrorKind::Retriable,
        AttemptEvent::Ended => true,
        _ => false,
    }
}

/// The attempts after an event.
pub open spec fn attempts_after(before: TurnAttempts, event: AttemptEvent) -> TurnAttempts {
    TurnAttempts {
        attempts_left: if spends(event) {
            (before.attempts_left - 1) as usize
        } else {
            before.attempts_left
        },
        last_error: match event {
            AttemptEvent::Failed(error) if error.kind == BackendErrorKind::Retriable => Some(
                error.message,
            ),
            _ => before.last_error,
        },
        streaming: before.streaming,
    }
}

/// Whether an action is the one that an event calls for. A failure that another
/// account may mend leads to the next one; any other is the client's. A client that
/// wants a stream is answered by the first text, any other by the whole.
pub open spec fn is_called_for(
    action: AttemptAction,
    before: TurnAttempts,
    event: AttemptEvent,
) -> bool {
    match event {
        AttemptEvent::NoLease(error) => refuses(action, (SERVICE_UNAVAILABLE, error@)),
        AttemptEvent::Started => action is Read,
        AttemptEvent::Failed(error) => if error.kind == BackendErrorKind::Retriable {
            action is Recover
        } else {
            refuses(action, (BAD_GATEWAY, error.message@))
        },
        AttemptEvent::Brought(BackendEvent::TextDelta(delta)) => if before.streaming
            && delta@.len() > 0 {
            match action {
                AttemptAction::Answer(TurnAnswer::Stream { first_delta, completion }) => first_delta
                    == delta && completion is None,
                _ => false,
            }
        } else {
            action is Read
        },
        AttemptEvent::Brought(BackendEvent::Completed(success)) => if before.streaming {
            match action {
                AttemptAction::Answer(TurnAnswer::Stream { first_delta, completion }) =>
                    first_delta@ == success.text@ && completion == Some(success),
                _ => false,
            }
        } else {
            action == AttemptAction::Answer(TurnAnswer::Whole(success))
        },
        AttemptEvent::Ended => goes_on(action, attempts_after(before, event)),
    }
}

impl TurnAttempts {
    /// The attempts of a turn: one for each scheduled account, and one at least.
    pub fn new(scheduled: Option<usize>, streaming: bool) -> (r: TurnAttempts)
        ensures
            r.attempts_left == match scheduled {
                Some(accounts) => if accounts == 0 {
                    1
                } else {
                    accounts
                },
                None => 1,
            },
            r.last_error is None,
            r.streaming == streaming,
    {
        let attempts_left: usize = match scheduled {
            Some(accounts) => if accounts == 0 {
                1
            } else {
                accounts
            },
            None => 1,
        };
        TurnAttempts { attempts_left, last_error: None, streaming }
    }

    /// How the turn goes on: at its start, and after an account was recovered.
    pub fn go_on(&self) -> (r: AttemptAction)
        ensures
            goes_on(r, *self),
    {
        if self.attempts_left > 0 {
            return AttemptAction::Acquire;
        }
        match &self.last_error {
            Some(error) => AttemptAction::Refuse(ProtocolError::new(BAD_GATEWAY, error.as_str())),
            None => AttemptAction::Refuse(
                ProtocolError::new(BAD_GATEWAY, "all proxy accounts failed"),
            ),
        }
    }

    /// Takes in what happened to the attempt.
    pub fn on_event(&mut self, event: AttemptEvent) -> (r: AttemptAction)
        requires
            old(self).attempts_left > 0,
        ensures
            *final(self) == attempts_after(*old(self), event),
            is_called_for(r, *old(self), event),
    {
        match event {
            AttemptEvent::NoLease(error) => AttemptAction::Refuse(
                ProtocolError::new(SERVICE_UNAVAILABLE, error.as_str()),
            ),
            AttemptEvent::Started => AttemptAction::Read,
            AttemptEvent::Failed(error) => match error.kind {
                BackendErrorKind::Retriable => {
                    self.attempts_left = self.attempts_left - 1;
                    self.last_error = Some(error.message);
                    AttemptAction::Recover
                },
                BackendErrorKind::Fatal => AttemptAction::Refuse(
                    ProtocolError::new(BAD_GATEWAY, error.message.as_str()),
                ),
            },
            AttemptEvent::Brought(BackendEvent::TextDelta(delta)) => if self.streaming
                && !delta.as_str().is_empty() {
                AttemptAction::Answer(TurnAnswer::Stream { first_delta: delta, completion: None })
            } else {
                AttemptAction::Read
            },
            AttemptEvent::Brought(BackendEvent::Completed(success)) => if self.streaming {
                AttemptAction::Answer(
                    TurnAnswer::Stream {
                        first_delta: success.text.clone(),
                        completion: Some(success),
                    },
                )
            } else {
                AttemptAction::Answer(TurnAnswer::Whole(success))
            },
            AttemptEvent::Ended => {
                self.attempts_left = self.attempts_left - 1;
                self.go_on()
            },
        }
    }
}

/// Whether some events can happen to a turn one after the other: each while an
/// attempt is left.
pub open spec fn can_happen(left: nat, events: Seq<AttemptEvent>) -> bool
    decreases events.len(),
{
    events.len() == 0 || (left > 0 && can_happen(
        if spends(events[0]) {
            (left - 1) as nat
        } else {
            left
        },
        events.skip(1),
    ))
}

/// How many of some events spend an attempt.
pub open spec fn spent(events: Seq<AttemptEvent>) -> nat
    decreases events.len(),
{
    if events.len() == 0 {
        0
    } else {
        (if spends(events[0]) {
            1nat
        } else {
            0nat
        }) + spent(events.skip(1))
    }
}

/// A turn is tried no more often than it has attempts.
pub proof fn law_attempts_are_bounded(left: nat, events: Seq<AttemptEvent>)
    requires
        can_happen(left, events),
    ensures
        spent(events) <= left,
    decreases events.len(),
{
    if events.len() > 0 {
        law_attempts_are_bounded(
            if spends(events[0]) {
                (left - 1) as nat
            } else {
                left
            },
            events.skip(1),
        );
    }
}

/// What a client gets from an attempt. One that wants a stream gets the first text that is not
/// empty, as it came; any other waits for the whole answer, and gets that.
pub proof fn law_client_gets_what_the_turn_brought(
    before: TurnAttempts,
    after: TurnAttempts,
    brought: BackendEvent,
    action: AttemptAction,
)
    requires
        after == attempts_after(before, AttemptEvent::Brought(brought)),
        is_called_for(action, before, AttemptEvent::Brought(brought)),
    ensures
        after == before,
        brought is TextDelta && before.streaming && brought->TextDelta_0@.len() > 0 ==> {
            &&& action is Answer
            &&& action->Answer_0 is Stream
            &&& action->Answer_0->first_delta@ == brought->TextDelta_0@
            &&& action->Answer_0->completion is None
        },
        brought is TextDelta && (!before.streaming || brought->TextDelta_0@.len() == 0)
            ==> action is Read,
        brought is Completed && before.streaming ==> {
            &&& action is Answer
            &&& action->Answer_0 is Stream
            &&& action->Answer_0->first_delta@ == brought->Completed_0.text@
            &&& action->Answer_0->completion == Some(brought->Completed_0)
        },
        brought is Completed && !before.streaming ==> {
            &&& action is Answer
            &&& action->Answer_0 is Whole
            &&& action->Answer_0->Whole_0.text@ == brought->Completed_0.text@
            &&& action->Answer_0->Whole_0.usage == brought->Completed_0.usage
        },
{
}

/// What a failure leads to. One that another account may mend costs an attempt, is remembered,
/// and leads on to the recovery of the account; any other is the client's at once, with its
/// message. Without a lease the client is told that the service is not available.
pub proof fn law_what_a_failure_leads_to(
    before: TurnAttempts,
    after: TurnAttempts,
    error: BackendError,
    refused: String,
    action: AttemptAction,
)
    requires
        before.attempts_left > 0,
    ensures
        after == attempts_after(before, AttemptEvent::Failed(error)) && is_called_for(
            action,
            before,
            AttemptEvent::Failed(error),
        ) ==> {
            &&& error.kind == BackendErrorKind::Retriable ==> action is Recover
                && after.attempts_left == before.attempts_left - 1 && after.last_error is Some
                && after.last_error->0@ == error.message@
            &&& error.kind == BackendErrorKind::Fatal ==> action is Refuse
                && action->Refuse_0.status == 502 && action->Refuse_0.message@ == error.message@
                && after == before
        },
        after == attempts_after(before, AttemptEvent::NoLease(refused)) && is_called_for(
            action,
            before,
            AttemptEvent::NoLease(refused),
        ) ==> action is Refuse && action->Refuse_0.status == 503 && action->Refuse_0.message@
            == refused@ && after == before,
        after == attempts_after(before, AttemptEvent::Started) && is_called_for(
            action,
            before,
            AttemptEvent::Started,
        ) ==> action is Read && after == before,
        after == attempts_after(before, AttemptEvent::Ended) && is_called_for(
            action,
            before,
            AttemptEvent::Ended,
        ) ==> after.attempts_left == before.attempts_left - 1 && after.last_error
            == before.last_error && (after.attempts_left > 0 ==> action is Acquire) && (
        after.attempts_left == 0 ==> action is Refuse && action->Refuse_0.status == 502),
{
}

/// A turn goes on with another account while an attempt is left. Once they are spent, the client
/// is told why the last one failed, where that is known.
pub proof fn law_spent_attempts_say_why(attempts: TurnAttempts, action: AttemptAction)
    requires
        goes_on(action, attempts),
    ensures
        attempts.attempts_left > 0 ==> action is Acquire,
        attempts.attempts_left == 0 ==> action is Refuse && action->Refuse_0.status == 502,
        attempts.attempts_left == 0 && attempts.last_error is Some ==> action->Refuse_0.message@
            == attempts.last_error->0@,
        attempts.attempts_left == 0 && attempts.last_error is None ==> action->Refuse_0.message@
            == "all proxy accounts failed"@,
{
}

} // verus!
