//! FinTS 3.0 PIN/TAN client core.
//!
//! FinTS (formerly HBCI) is the protocol of German online banking. This crate
//! holds what a client computes: how segments are written and read, how messages
//! are signed and framed, what a bank's answers mean, and which state a dialog is
//! in. The `server` module holds a mock bank to test clients against. Sending and
//! receiving is left to the caller.

pub mod account;
pub mod codes;
pub mod course;
pub mod dates;
pub mod decimal;
pub mod delivered;
pub mod dialog;
pub mod dkb;
pub mod element;
pub mod error;
pub mod ids;
pub mod map;
pub mod message;
pub mod numbers;
pub mod params;
pub mod parser;
pub mod protocol;
pub mod reply;
pub mod request;
pub mod roundtrip;
pub mod segments;
pub mod serializer;
pub mod server;
pub mod text;
pub mod types;
pub mod workflow;
pub mod written;

pub use account::Account;
pub use codes::{ResponseCode, ResponseCodeKind};
pub use dialog::{
    BalanceResult, Dialog, HoldingsPage, HoldingsResult, InitResult, New, Open, PollResult,
    SendResult, Synced, TanPending, TransactionPage, TransactionResult,
};
pub use error::{FinTSError, Result};
pub use ids::{
    BankName, Bic, Blz, ChallengeText, Currency, DialogId, FinTSUrl, HhdUcData, Iban, Isin,
    Mt940Data, Pin, ProductId, SecurityFunction, SegmentRef, SegmentType, SystemId, TanMediumName,
    TaskReference, TouchdownPoint, UserId, Wkn,
};
pub use params::BankParams;
pub use reply::{Response, TanChallenge};
pub use types::{AccountBalance, SecurityHolding, SepaAccount, TanMethod, TanProcess};
pub use workflow::{
    BankConfig, Dkb, FetchResult, InitiateNoTanResult, InitiateOutcome, InitiateResult,
};
