//! Domain types: accounts, balances, holdings and TAN methods.

use vstd::prelude::*;

use crate::dates::{opt_date_view, Date, Ymd};
use crate::decimal::{opt_amount_view, Amount, Decimal};
use crate::ids::{opt_of, Bic, Blz, Currency, Iban, Isin, SecurityFunction, SegmentType, Wkn};
use crate::map::TextMap;
use crate::text::{opt_view, same_text};

verus! {

// ---- TAN methods ----

/// The TAN process that a method works by.
#[derive(Debug, PartialEq, Eq)]
pub enum TanProcess {
    Process1,
    Process2,
    Process3,
    Process4,
    /// The status query of decoupled methods.
    ProcessS,
    Other(String),
}

/// A TAN process as a value.
pub enum Process {
    Process1,
    Process2,
    Process3,
    Process4,
    ProcessS,
    Other(Seq<char>),
}

/// The TAN process with a code; a code that no process has stands for itself.
pub open spec fn process_of(code: Seq<char>) -> Process {
    if code == "1"@ {
        Process::Process1
    } else if code == "2"@ {
        Process::Process2
    } else if code == "3"@ {
        Process::Process3
    } else if code == "4"@ {
        Process::Process4
    } else if code == "S"@ {
        Process::ProcessS
    } else {
        Process::Other(code)
    }
}

impl View for TanProcess {
    type V = Process;

    open spec fn view(&self) -> Process {
        match self {
            TanProcess::Process1 => Process::Process1,
            TanProcess::Process2 => Process::Process2,
            TanProcess::Process3 => Process::Process3,
            TanProcess::Process4 => Process::Process4,
            TanProcess::ProcessS => Process::ProcessS,
            TanProcess::Other(s) => Process::Other(s@),
        }
    }
}

impl Clone for TanProcess {
    fn clone(&self) -> (r: TanProcess)
        ensures
            r@ == self@,
    {
        match self {
            TanProcess::Process1 => TanProcess::Process1,
            TanProcess::Process2 => TanProcess::Process2,
            TanProcess::Process3 => TanProcess::Process3,
            TanProcess::Process4 => TanProcess::Process4,
            TanProcess::ProcessS => TanProcess::ProcessS,
            TanProcess::Other(s) => TanProcess::Other(s.clone()),
        }
    }
}

impl TanProcess {
    /// The process with this code.
    pub fn from_str_val(s: &str) -> (p: TanProcess)
        ensures
            p@ == process_of(s@),
    {
        if same_text(s, "1") {
            TanProcess::Process1
        } else if same_text(s, "2") {
            TanProcess::Process2
        } else if same_text(s, "3") {
            TanProcess::Process3
        } else if same_text(s, "4") {
            TanProcess::Process4
        } else if same_text(s, "S") {
            TanProcess::ProcessS
        } else {
            TanProcess::Other(s.to_string())
        }
    }
}

/// A TAN method that the bank offers.
#[derive(Debug)]
pub struct TanMethod {
    pub security_function: SecurityFunction,
    pub tan_process: TanProcess,
    pub name: String,
    pub needs_tan_medium: bool,
    pub decoupled_max_polls: i32,
    pub wait_before_first_poll: i32,
    pub wait_before_next_poll: i32,
    pub is_decoupled: bool,
    pub hktan_version: u16,
}

/// A TAN method as a value.
pub struct Method {
    pub security_function: Seq<char>,
    pub tan_process: Process,
    pub name: Seq<char>,
    pub needs_tan_medium: bool,
    pub decoupled_max_polls: int,
    pub wait_before_first_poll: int,
    pub wait_before_next_poll: int,
    pub is_decoupled: bool,
    pub hktan_version: int,
}

impl View for TanMethod {
    type V = Method;

    open spec fn view(&self) -> Method {
        Method {
            security_function: self.security_function@,
            tan_process: self.tan_process@,
            name: self.name@,
            needs_tan_medium: self.needs_tan_medium,
            decoupled_max_polls: self.decoupled_max_polls as int,
            wait_before_first_poll: self.wait_before_first_poll as int,
            wait_before_next_poll: self.wait_before_next_poll as int,
            is_decoupled: self.is_decoupled,
            hktan_version: self.hktan_version as int,
        }
    }
}

impl Clone for TanMethod {
    fn clone(&self) -> (r: TanMethod)
        ensures
            r@ == self@,
    {
        TanMethod {
            security_function: self.security_function.clone(),
            tan_process: self.tan_process.clone(),
            name: self.name.clone(),
            needs_tan_medium: self.needs_tan_medium,
            decoupled_max_polls: self.decoupled_max_polls,
            wait_before_first_poll: self.wait_before_first_poll,
            wait_before_next_poll: self.wait_before_next_poll,
            is_decoupled: self.is_decoupled,
            hktan_version: self.hktan_version,
        }
    }
}

// ---- Accounts ----

/// A SEPA account as the bank describes it.
#[derive(Debug)]
pub struct SepaAccount {
    pub iban: Iban,
    pub bic: Bic,
    pub account_number: String,
    pub sub_account: String,
    pub blz: Blz,
    pub owner: Option<String>,
    pub product_name: Option<String>,
    pub currency: Option<Currency>,
}

/// A SEPA account as a value.
pub struct AccountInfo {
    pub iban: Seq<char>,
    pub bic: Seq<char>,
    pub account_number: Seq<char>,
    pub sub_account: Seq<char>,
    pub blz: Seq<char>,
    pub owner: Option<Seq<char>>,
    pub product_name: Option<Seq<char>>,
    pub currency: Option<Seq<char>>,
}

impl View for SepaAccount {
    type V = AccountInfo;

    open spec fn view(&self) -> AccountInfo {
        AccountInfo {
            iban: self.iban@,
            bic: self.bic@,
            account_number: self.account_number@,
            sub_account: self.sub_account@,
            blz: self.blz@,
            owner: opt_view(self.owner),
            product_name: opt_view(self.product_name),
            currency: opt_of(self.currency),
        }
    }
}

pub fn clone_text(s: &Option<String>) -> (r: Option<String>)
    ensures
        opt_view(r) == opt_view(*s),
{
    match s {
        Some(t) => Some(t.clone()),
        None => None,
    }
}

pub fn clone_currency(s: &Option<Currency>) -> (r: Option<Currency>)
    ensures
        opt_of(r) == opt_of(*s),
{
    match s {
        Some(t) => Some(t.clone()),
        None => None,
    }
}

impl Clone for SepaAccount {
    fn clone(&self) -> (r: SepaAccount)
        ensures
            r@ == self@,
    {
        SepaAccount {
            iban: self.iban.clone(),
            bic: self.bic.clone(),
            account_number: self.account_number.clone(),
            sub_account: self.sub_account.clone(),
            blz: self.blz.clone(),
            owner: clone_text(&self.owner),
            product_name: clone_text(&self.product_name),
            currency: clone_currency(&self.currency),
        }
    }
}

// ---- Balances ----

/// The balance of an account.
#[derive(Debug)]
pub struct AccountBalance {
    pub amount: Decimal,
    pub date: Date,
    pub currency: Currency,
    pub credit_line: Option<Decimal>,
    pub available: Option<Decimal>,
    pub pending_amount: Option<Decimal>,
    pub pending_date: Option<Date>,
}

/// A balance as a value.
pub struct Balance {
    pub amount: Amount,
    pub date: Ymd,
    pub currency: Seq<char>,
    pub credit_line: Option<Amount>,
    pub available: Option<Amount>,
    pub pending_amount: Option<Amount>,
    pub pending_date: Option<Ymd>,
}

impl View for AccountBalance {
    type V = Balance;

    open spec fn view(&self) -> Balance {
        Balance {
            amount: self.amount@,
            date: self.date@,
            currency: self.currency@,
            credit_line: opt_amount_view(self.credit_line),
            available: opt_amount_view(self.available),
            pending_amount: opt_amount_view(self.pending_amount),
            pending_date: opt_date_view(self.pending_date),
        }
    }
}

// ---- Securities ----

/// One field of a position as it was read: its key and the text it has, if any.
#[derive(Debug)]
pub struct RawField {
    pub key: String,
    pub value: Option<String>,
}

impl View for RawField {
    type V = (Seq<char>, Option<Seq<char>>);

    open spec fn view(&self) -> (Seq<char>, Option<Seq<char>>) {
        (self.key@, opt_view(self.value))
    }
}

/// A position in a securities account.
#[derive(Debug)]
pub struct SecurityHolding {
    pub isin: Option<Isin>,
    pub wkn: Option<Wkn>,
    pub name: String,
    pub quantity: Decimal,
    pub price: Option<Decimal>,
    pub price_currency: Option<Currency>,
    pub price_date: Option<Date>,
    pub market_value: Option<Decimal>,
    pub market_value_currency: Option<Currency>,
    pub acquisition_value: Option<Decimal>,
    pub profit_loss: Option<Decimal>,
    pub exchange: Option<String>,
    pub depot_id: Option<String>,
    /// What was read, field by field, for callers that keep it as an object.
    pub raw: Vec<RawField>,
}

/// A position as a value.
pub struct Holding {
    pub isin: Option<Seq<char>>,
    pub wkn: Option<Seq<char>>,
    pub name: Seq<char>,
    pub quantity: Amount,
    pub price: Option<Amount>,
    pub price_currency: Option<Seq<char>>,
    pub price_date: Option<Ymd>,
    pub market_value: Option<Amount>,
    pub market_value_currency: Option<Seq<char>>,
    pub acquisition_value: Option<Amount>,
    pub profit_loss: Option<Amount>,
    pub exchange: Option<Seq<char>>,
    pub depot_id: Option<Seq<char>>,
    pub raw: Seq<(Seq<char>, Option<Seq<char>>)>,
}

impl View for SecurityHolding {
    type V = Holding;

    open spec fn view(&self) -> Holding {
        Holding {
            isin: opt_of(self.isin),
            wkn: opt_of(self.wkn),
            name: self.name@,
            quantity: self.quantity@,
            price: opt_amount_view(self.price),
            price_currency: opt_of(self.price_currency),
            price_date: opt_date_view(self.price_date),
            market_value: opt_amount_view(self.market_value),
            market_value_currency: opt_of(self.market_value_currency),
            acquisition_value: opt_amount_view(self.acquisition_value),
            profit_loss: opt_amount_view(self.profit_loss),
            exchange: opt_view(self.exchange),
            depot_id: opt_view(self.depot_id),
            raw: crate::element::views(self.raw@),
        }
    }
}

// ---- TAN rules ----

/// Which operations need a TAN, by segment type.
#[derive(Debug)]
pub struct TanRules(TextMap<bool>);

impl View for TanRules {
    type V = Map<Seq<char>, bool>;

    closed spec fn view(&self) -> Map<Seq<char>, bool> {
        self.0@
    }
}

impl Clone for TanRules {
    fn clone(&self) -> (r: TanRules)
        ensures
            r@ == self@,
    {
        TanRules(self.0.copy())
    }
}

impl TanRules {
    pub fn new() -> (r: TanRules)
        ensures
            r@ == Map::<Seq<char>, bool>::empty(),
    {
        TanRules(TextMap::new())
    }

    pub fn is_empty(&self) -> (b: bool)
        ensures
            b == (self@ == Map::<Seq<char>, bool>::empty()),
    {
        self.0.is_empty()
    }

    /// Whether the operation needs a TAN, if that is known.
    pub fn get(&self, segment_type: &SegmentType) -> (res: Option<&bool>)
        ensures
            match res {
                Some(b) => self@.contains_key(segment_type@) && *b == self@[segment_type@],
                None => !self@.contains_key(segment_type@),
            },
    {
        self.0.get(segment_type.as_str())
    }

    pub fn insert(&mut self, segment_type: &SegmentType, needs_tan: bool)
        ensures
            final(self)@ == old(self)@.insert(segment_type@, needs_tan),
    {
        self.0.insert(segment_type.as_str(), needs_tan);
    }

    /// Takes over all rules of `other`.
    pub fn extend(&mut self, other: TanRules)
        ensures
            final(self)@ == old(self)@.union_prefer_right(other@),
    {
        self.0.extend(other.0);
    }
}

} // verus!
