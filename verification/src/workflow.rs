//! Banks and what starting a dialog with one comes to.

use vstd::prelude::*;

use crate::dialog::{
    BalanceOutcome, BalanceResult, Dialog, HoldingsOutcome, HoldingsResult, Open, TanPending,
    TransactionOutcome, TransactionResult,
};
use crate::element::{group_views, views};
use crate::error::{Failure, FinTSError, Result};
use crate::ids::{opt_of, BankName, Bic, Blz, FinTSUrl, SystemId, TouchdownPoint};
use crate::reply::TanChallenge;
use crate::text::push_bytes;
use crate::types::{AccountBalance, Balance, Holding, SecurityHolding};

verus! {

/// How a bank is reached.
#[derive(Debug)]
pub struct BankConfig {
    pub name: BankName,
    pub blz: Blz,
    pub bic: Bic,
    pub url: FinTSUrl,
}

/// How a bank is reached, as a value.
pub struct BankInfo {
    pub name: Seq<char>,
    pub blz: Seq<char>,
    pub bic: Seq<char>,
    pub url: Seq<char>,
}

impl View for BankConfig {
    type V = BankInfo;

    open spec fn view(&self) -> BankInfo {
        BankInfo { name: self.name@, blz: self.blz@, bic: self.bic@, url: self.url@ }
    }
}

impl BankConfig {
    pub fn new(name: &str, blz: &str, bic: &str, url: &str) -> (c: BankConfig)
        ensures
            c@ == (BankInfo { name: name@, blz: blz@, bic: bic@, url: url@ }),
    {
        BankConfig {
            name: BankName::new(name),
            blz: Blz::new(blz),
            bic: Bic::new(bic),
            url: FinTSUrl::new(url),
        }
    }
}

/// Deutsche Kreditbank, as a value.
pub open spec fn dkb_info() -> BankInfo {
    BankInfo {
        name: "Deutsche Kreditbank"@,
        blz: "12030000"@,
        bic: "BYLADEM1001"@,
        url: "https://fints.dkb.de/fints"@,
    }
}

/// Deutsche Kreditbank.
#[derive(Debug)]
pub struct Dkb {
    config: BankConfig,
}

impl View for Dkb {
    type V = BankInfo;

    closed spec fn view(&self) -> BankInfo {
        self.config@
    }
}

impl Dkb {
    pub fn new() -> (b: Dkb)
        ensures
            b@ == dkb_info(),
    {
        Dkb {
            config: BankConfig::new(
                "Deutsche Kreditbank",
                "12030000",
                "BYLADEM1001",
                "https://fints.dkb.de/fints",
            ),
        }
    }

    pub fn config(&self) -> (c: &BankConfig)
        ensures
            c@ == self@,
    {
        &self.config
    }
}

/// A dialog that waits for a TAN.
pub struct InitiateResult {
    pub dialog: Dialog<TanPending>,
    pub challenge: TanChallenge,
    pub system_id: SystemId,
}

/// A dialog that needs no TAN.
pub struct InitiateNoTanResult {
    pub dialog: Dialog<Open>,
    pub system_id: SystemId,
}

/// What starting a dialog comes to.
pub enum InitiateOutcome {
    /// The bank demands a TAN.
    NeedTan(InitiateResult),
    /// The dialog is open.
    Authenticated(InitiateNoTanResult),
}

// ---- Fetching an account ----

/// What fetching an account has delivered; transactions as MT940 data.
pub struct FetchResult {
    pub balance: Option<AccountBalance>,
    pub booked: Vec<u8>,
    pub pending: Vec<u8>,
    pub holdings: Vec<SecurityHolding>,
}

/// What fetching an account has delivered, as a value.
pub struct Fetched {
    pub balance: Option<Balance>,
    pub booked: Seq<u8>,
    pub pending: Seq<u8>,
    pub holdings: Seq<Holding>,
}

impl View for FetchResult {
    type V = Fetched;

    open spec fn view(&self) -> Fetched {
        Fetched {
            balance: opt_of(self.balance),
            booked: self.booked@,
            pending: self.pending@,
            holdings: views(self.holdings@),
        }
    }
}

/// The error on an account that the bank does not show without a TAN.
pub open spec fn tan_demanded() -> Failure {
    Failure::Dialog("The bank demands a TAN for this operation"@)
}

fn demanded() -> (e: FinTSError)
    ensures
        e@ == tan_demanded(),
{
    FinTSError::Dialog("The bank demands a TAN for this operation".to_string())
}

impl FetchResult {
    /// Nothing yet.
    pub fn new() -> (f: FetchResult)
        ensures
            f@ == (Fetched {
                balance: None,
                booked: Seq::empty(),
                pending: Seq::empty(),
                holdings: Seq::empty(),
            }),
    {
        broadcast use group_views;

        FetchResult {
            balance: None,
            booked: Vec::new(),
            pending: Vec::new(),
            holdings: Vec::new(),
        }
    }

    /// Takes the balance.
    pub fn take_balance(&mut self, result: BalanceResult) -> (res: Result<()>)
        ensures
            match result@ {
                BalanceOutcome::Success(b) => res is Ok && final(self)@ == (Fetched {
                    balance: Some(b),
                    ..old(self)@
                }),
                BalanceOutcome::NeedTan(_) => (res matches Err(e) && e@ == tan_demanded())
                    && final(self)@ == old(self)@,
                BalanceOutcome::Empty => res is Ok && final(self)@ == (Fetched {
                    balance: None,
                    ..old(self)@
                }),
            },
    {
        match result {
            BalanceResult::Success(b) => {
                self.balance = Some(b);
                Ok(())
            },
            BalanceResult::NeedTan(_) => Err(demanded()),
            BalanceResult::Empty => {
                self.balance = None;
                Ok(())
            },
        }
    }

    /// Takes a page of transactions and gives the point where the next one
    /// starts; the last page gives none.
    pub fn take_transactions(&mut self, result: TransactionResult) -> (res: Result<
        Option<TouchdownPoint>,
    >)
        ensures
            match result@ {
                TransactionOutcome::Success(p) => {
                    &&& res matches Ok(next)
                    &&& opt_of(next) == p.touchdown
                    &&& final(self)@ == (Fetched {
                        booked: old(self)@.booked + p.booked,
                        pending: old(self)@.pending + p.pending,
                        ..old(self)@
                    })
                },
                TransactionOutcome::NeedTan(_) => (res matches Err(e) && e@ == tan_demanded())
                    && final(self)@ == old(self)@,
            },
    {
        match result {
            TransactionResult::Success(page) => {
                push_bytes(&mut self.booked, page.booked.as_bytes());
                push_bytes(&mut self.pending, page.pending.as_bytes());
                Ok(page.touchdown)
            },
            TransactionResult::NeedTan(_) => Err(demanded()),
        }
    }

    /// Takes a page of positions and gives the point where the next one starts;
    /// the last page gives none.
    pub fn take_holdings(&mut self, result: HoldingsResult) -> (res: Result<Option<TouchdownPoint>>)
        ensures
            match result@ {
                HoldingsOutcome::Success(p) => {
                    &&& res matches Ok(next)
                    &&& opt_of(next) == p.touchdown
                    &&& final(self)@ == (Fetched {
                        holdings: old(self)@.holdings + p.holdings,
                        ..old(self)@
                    })
                },
                HoldingsOutcome::NeedTan(_) => (res matches Err(e) && e@ == tan_demanded())
                    && final(self)@ == old(self)@,
                HoldingsOutcome::Empty => {
                    &&& res == Result::<Option<TouchdownPoint>>::Ok(None)
                    &&& final(self)@ == old(self)@
                },
            },
    {
        match result {
            HoldingsResult::Success(page) => {
                let ghost before = self.holdings@;
                let mut more = page.holdings;
                let ghost added = more@;
                self.holdings.append(&mut more);
                assert(views(self.holdings@) =~= views(before) + views(added)) by {
                    broadcast use group_views;

                };
                Ok(page.touchdown)
            },
            HoldingsResult::NeedTan(_) => Err(demanded()),
            HoldingsResult::Empty => Ok(None),
        }
    }
}

} // verus!
