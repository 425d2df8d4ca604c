//! The names of the protocol layer in one place.

pub use crate::account::Account;
pub use crate::dialog::{
    balance_outcome, balance_outcome_on, holdings_outcome, holdings_outcome_checked,
    transactions_outcome, BalanceResult, Dialog, DialogState, HoldingsPage, HoldingsResult,
    InitResult, New, Open, PollResult, SendResult, Synced, TanPending, TransactionPage,
    TransactionResult,
};
pub use crate::params::BankParams;
pub use crate::reply::{parse_response, Response, TanChallenge};
pub use crate::request::Segment;
