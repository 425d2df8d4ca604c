//! Sessions with DKB.
//!
//! A session starts either waiting for a TAN, with a challenge for the user, or
//! ready. One that waits is polled before data can be fetched.

use vstd::prelude::*;

use crate::dialog::{Dialog, Open, PollResult, TanPending};
use crate::error::{Failure, FinTSError, Result};
use crate::ids::{opt_of, ChallengeText, HhdUcData, SystemId, TaskReference};
use crate::reply::{clone_hhduc, TanDemand};
use crate::workflow::{Dkb, InitiateOutcome};

verus! {

/// A session in progress.
#[allow(inconsistent_fields)]
pub enum Session {
    /// Waiting until the user confirms the TAN.
    WaitingForTan {
        dialog: Dialog<TanPending>,
        task_reference: TaskReference,
        bank: Dkb,
        system_id: SystemId,
    },
    /// Authenticated.
    Ready { dialog: Dialog<Open>, bank: Dkb, system_id: SystemId },
}

/// What to tell the user.
pub struct Challenge {
    /// Text to display.
    pub challenge: ChallengeText,
    /// Data for optical methods.
    pub challenge_hhduc: Option<HhdUcData>,
    /// Whether the user confirms in another channel.
    pub decoupled: bool,
    /// Whether there is nothing to confirm.
    pub no_tan_required: bool,
}

/// What to tell the user, as a value.
pub struct Notice {
    pub challenge: Seq<char>,
    pub challenge_hhduc: Option<Seq<u8>>,
    pub decoupled: bool,
    pub no_tan_required: bool,
}

impl View for Challenge {
    type V = Notice;

    open spec fn view(&self) -> Notice {
        Notice {
            challenge: self.challenge@,
            challenge_hhduc: opt_of(self.challenge_hhduc),
            decoupled: self.decoupled,
            no_tan_required: self.no_tan_required,
        }
    }
}

/// What to tell the user of a challenge.
pub open spec fn notice_of(d: TanDemand) -> Notice {
    Notice {
        challenge: d.challenge,
        challenge_hhduc: d.challenge_hhduc,
        decoupled: d.decoupled,
        no_tan_required: false,
    }
}

/// What to tell the user where there is nothing to confirm.
pub open spec fn nothing_to_confirm() -> Notice {
    Notice {
        challenge: Seq::empty(),
        challenge_hhduc: None,
        decoupled: false,
        no_tan_required: true,
    }
}

/// The system identification of a session.
pub open spec fn session_system_id(s: Session) -> Seq<char> {
    match s {
        Session::WaitingForTan { system_id, .. } => system_id@,
        Session::Ready { system_id, .. } => system_id@,
    }
}

/// The error on a TAN that the user has not confirmed.
pub open spec fn still_pending() -> Failure {
    Failure::Dialog("TAN still pending: user has not yet confirmed in banking app"@)
}

impl Session {
    /// The session that a started dialog makes, and what to tell the user.
    pub fn begin(outcome: InitiateOutcome, bank: Dkb) -> (res: (Session, Challenge))
        ensures
            match outcome {
                InitiateOutcome::NeedTan(r) => {
                    &&& res.0 matches Session::WaitingForTan {
                        dialog,
                        task_reference,
                        bank: b,
                        system_id,
                    }
                    &&& dialog == r.dialog
                    &&& task_reference@ == r.challenge@.task_reference
                    &&& b == bank
                    &&& system_id == r.system_id
                    &&& res.1@ == notice_of(r.challenge@)
                },
                InitiateOutcome::Authenticated(r) => {
                    &&& res.0 matches Session::Ready { dialog, bank: b, system_id }
                    &&& dialog == r.dialog
                    &&& b == bank
                    &&& system_id == r.system_id
                    &&& res.1@ == nothing_to_confirm()
                },
            },
    {
        match outcome {
            InitiateOutcome::NeedTan(result) => {
                let challenge = Challenge {
                    challenge: result.challenge.challenge.clone(),
                    challenge_hhduc: clone_hhduc(&result.challenge.challenge_hhduc),
                    decoupled: result.challenge.decoupled,
                    no_tan_required: false,
                };
                let session = Session::WaitingForTan {
                    dialog: result.dialog,
                    task_reference: result.challenge.task_reference,
                    bank,
                    system_id: result.system_id,
                };
                (session, challenge)
            },
            InitiateOutcome::Authenticated(result) => {
                proof {
                    reveal_strlit("");
                    assert(""@ =~= Seq::<char>::empty());
                }
                let challenge = Challenge {
                    challenge: ChallengeText::new(""),
                    challenge_hhduc: None,
                    decoupled: false,
                    no_tan_required: true,
                };
                let session = Session::Ready {
                    dialog: result.dialog,
                    bank,
                    system_id: result.system_id,
                };
                (session, challenge)
            },
        }
    }

    /// The open dialog behind a poll, or the error that the TAN is pending.
    pub fn polled(result: PollResult) -> (res: Result<Dialog<Open>>)
        ensures
            match res {
                Ok(open) => result matches PollResult::Confirmed(d, _) && open == d,
                Err(e) => result is Pending && e@ == still_pending(),
            },
    {
        match result {
            PollResult::Confirmed(open, _) => Ok(open),
            PollResult::Pending(_) => Err(
                FinTSError::Dialog(
                    "TAN still pending: user has not yet confirmed in banking app".to_string(),
                ),
            ),
        }
    }

    /// The system identification, which later sessions can use again.
    pub fn system_id(&self) -> (id: &SystemId)
        ensures
            id@ == session_system_id(*self),
    {
        match self {
            Session::WaitingForTan { system_id, .. } => system_id,
            Session::Ready { system_id, .. } => system_id,
        }
    }
}

} // verus!
