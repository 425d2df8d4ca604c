//! Typed request segments.

use vstd::prelude::*;

use crate::account::{law_account_addressable, Account, Connection};
use crate::dates::{Date, Ymd};
use crate::element::{Group, DEG};
use crate::ids::{
    opt_of, Blz, Currency, DialogId, ProductId, SegmentRef, SystemId, TanMediumName,
    TaskReference, TouchdownPoint, UserId,
};
use crate::params::{hktan_version_of, version_for, BankParams, Params};
use crate::segments::builder::{
    hkend, hkend_model, hkidn, hkidn_model, hkkaz, hkkaz_model, hksal, hksal_model, hksyn,
    hksyn_model, hktan_process2, hktan_process4, hktan_process4_model, hktan_process_s,
    hktan_task_model, hkvvb, hkvvb_model, hkwpd, hkwpd_model, KTI_MIN_VERSION_HKKAZ,
    KTI_MIN_VERSION_HKSAL, KTI_MIN_VERSION_HKWPD,
};
use crate::text::opt_str_view;

verus! {

// ---- Model ----

/// A request segment as a value.
pub enum Order {
    Identify { blz: Seq<char>, user_id: Seq<char>, system_id: Seq<char> },
    ProcessPrep { bpd_version: int, upd_version: int, product_id: Seq<char> },
    Sync,
    Balance { account: Connection },
    Transactions {
        account: Connection,
        start_date: Ymd,
        end_date: Ymd,
        touchdown: Option<Seq<char>>,
    },
    Holdings {
        account: Connection,
        currency: Option<Seq<char>>,
        touchdown: Option<Seq<char>>,
    },
    TanProcess4 { reference_seg: Seq<char>, tan_medium: Option<Seq<char>> },
    TanPollDecoupled { task_reference: Seq<char>, tan_medium: Option<Seq<char>> },
    TanProcess2 { task_reference: Seq<char>, tan_medium: Option<Seq<char>> },
    End { dialog_id: Seq<char> },
}

/// The larger of two numbers.
pub open spec fn at_least(v: int, low: int) -> int {
    if v < low {
        low
    } else {
        v
    }
}

/// The DEGs of a request segment, with the versions that the parameters call for
/// and no segment number yet.
pub open spec fn order_groups(o: Order, p: Params) -> Seq<Group> {
    match o {
        Order::Identify { blz, user_id, system_id } => hkidn_model(0, blz, user_id, system_id),
        Order::ProcessPrep { bpd_version, upd_version, product_id } => hkvvb_model(
            0,
            bpd_version,
            upd_version,
            product_id,
        ),
        Order::Sync => hksyn_model(0),
        Order::Balance { account } => hksal_model(
            0,
            at_least(version_for(p, "HISALS"@, 7), 5),
            account.iban,
            account.bic,
            None,
        ),
        Order::Transactions { account, start_date, end_date, touchdown } => hkkaz_model(
            0,
            at_least(version_for(p, "HIKAZS"@, 7), 5),
            account.iban,
            account.bic,
            start_date,
            end_date,
            touchdown,
        ),
        Order::Holdings { account, currency, touchdown } => hkwpd_model(
            0,
            at_least(version_for(p, "HIWPDS"@, 7), 1),
            account.iban,
            account.bic,
            currency,
            touchdown,
        ),
        Order::TanProcess4 { reference_seg, tan_medium } => hktan_process4_model(
            0,
            hktan_version_of(p),
            reference_seg,
            tan_medium,
        ),
        Order::TanPollDecoupled { task_reference, tan_medium } => hktan_task_model(
            "S"@,
            0,
            hktan_version_of(p),
            task_reference,
            tan_medium,
        ),
        Order::TanProcess2 { task_reference, tan_medium } => hktan_task_model(
            "2"@,
            0,
            hktan_version_of(p),
            task_reference,
            tan_medium,
        ),
        Order::End { dialog_id } => hkend_model(0, dialog_id),
    }
}

// ---- Segments ----

/// A request segment. Its fields are valid by their types, so that it can be
/// written for any parameters.
#[derive(Debug)]
pub enum Segment {
    /// HKIDN: identification.
    Identify { blz: Blz, user_id: UserId, system_id: SystemId },
    /// HKVVB: processing preparation.
    ProcessPrep { bpd_version: u16, upd_version: u16, product_id: ProductId },
    /// HKSYN: synchronization, which gives a system identification.
    Sync,
    /// HKSAL: balance.
    Balance { account: Account },
    /// HKKAZ: transactions.
    Transactions {
        account: Account,
        start_date: Date,
        end_date: Date,
        touchdown: Option<TouchdownPoint>,
    },
    /// HKWPD: securities.
    Holdings {
        account: Account,
        currency: Option<Currency>,
        touchdown: Option<TouchdownPoint>,
    },
    /// HKTAN process 4: ask for a challenge for another segment.
    TanProcess4 { reference_seg: SegmentRef, tan_medium: Option<TanMediumName> },
    /// HKTAN process S: ask whether a decoupled task is confirmed.
    TanPollDecoupled { task_reference: TaskReference, tan_medium: Option<TanMediumName> },
    /// HKTAN process 2: submit a TAN.
    TanProcess2 { task_reference: TaskReference, tan_medium: Option<TanMediumName> },
    /// HKEND: dialog end.
    End { dialog_id: DialogId },
}

impl View for Segment {
    type V = Order;

    open spec fn view(&self) -> Order {
        match self {
            Segment::Identify { blz, user_id, system_id } => Order::Identify {
                blz: blz@,
                user_id: user_id@,
                system_id: system_id@,
            },
            Segment::ProcessPrep { bpd_version, upd_version, product_id } => Order::ProcessPrep {
                bpd_version: *bpd_version as int,
                upd_version: *upd_version as int,
                product_id: product_id@,
            },
            Segment::Sync => Order::Sync,
            Segment::Balance { account } => Order::Balance { account: account@ },
            Segment::Transactions { account, start_date, end_date, touchdown } =>
                Order::Transactions {
                account: account@,
                start_date: start_date@,
                end_date: end_date@,
                touchdown: opt_of(*touchdown),
            },
            Segment::Holdings { account, currency, touchdown } => Order::Holdings {
                account: account@,
                currency: opt_of(*currency),
                touchdown: opt_of(*touchdown),
            },
            Segment::TanProcess4 { reference_seg, tan_medium } => Order::TanProcess4 {
                reference_seg: reference_seg@,
                tan_medium: opt_of(*tan_medium),
            },
            Segment::TanPollDecoupled { task_reference, tan_medium } => Order::TanPollDecoupled {
                task_reference: task_reference@,
                tan_medium: opt_of(*tan_medium),
            },
            Segment::TanProcess2 { task_reference, tan_medium } => Order::TanProcess2 {
                task_reference: task_reference@,
                tan_medium: opt_of(*tan_medium),
            },
            Segment::End { dialog_id } => Order::End { dialog_id: dialog_id@ },
        }
    }
}

fn medium_str(m: &Option<TanMediumName>) -> (s: Option<&str>)
    ensures
        opt_str_view(s) == opt_of(*m),
{
    match m {
        Some(x) => Some(x.as_str()),
        None => None,
    }
}

fn touchdown_str(t: &Option<TouchdownPoint>) -> (s: Option<&str>)
    ensures
        opt_str_view(s) == opt_of(*t),
{
    match t {
        Some(x) => Some(x.as_str()),
        None => None,
    }
}

fn currency_str(c: &Option<Currency>) -> (s: Option<&str>)
    ensures
        opt_str_view(s) == opt_of(*c),
{
    match c {
        Some(x) => Some(x.as_str()),
        None => None,
    }
}

fn no_less(v: u16, low: u16) -> (r: u16)
    ensures
        r as int == at_least(v as int, low as int),
{
    if v < low {
        low
    } else {
        v
    }
}

impl Segment {
    /// The DEGs of the segment, with the versions that the parameters call for
    /// and segment number 0.
    pub fn to_degs(&self, params: &BankParams) -> (degs: Vec<DEG>)
        ensures
            crate::element::views(degs@) == order_groups(self@, params@),
    {
        match self {
            Segment::Identify { blz, user_id, system_id } => {
                hkidn(0, blz.as_str(), user_id.as_str(), system_id.as_str())
            },
            Segment::ProcessPrep { bpd_version, upd_version, product_id } => {
                hkvvb(0, *bpd_version, *upd_version, product_id.as_str())
            },
            Segment::Sync => hksyn(0),
            Segment::Balance { account } => {
                let version: u16 = no_less(params.supported_version("HISALS", 7), 5);
                let iban = account.iban();
                let bic = account.bic();
                proof {
                    law_account_addressable(
                        version as int,
                        KTI_MIN_VERSION_HKSAL as int,
                        account@,
                    );
                }
                hksal(0, version, iban, bic, None)
            },
            Segment::Transactions { account, start_date, end_date, touchdown } => {
                let version: u16 = no_less(params.supported_version("HIKAZS", 7), 5);
                let iban = account.iban();
                let bic = account.bic();
                proof {
                    law_account_addressable(
                        version as int,
                        KTI_MIN_VERSION_HKKAZ as int,
                        account@,
                    );
                }
                hkkaz(0, version, iban, bic, *start_date, *end_date, touchdown_str(touchdown))
            },
            Segment::Holdings { account, currency, touchdown } => {
                let version: u16 = no_less(params.supported_version("HIWPDS", 7), 1);
                let iban = account.iban();
                let bic = account.bic();
                proof {
                    law_account_addressable(
                        version as int,
                        KTI_MIN_VERSION_HKWPD as int,
                        account@,
                    );
                }
                hkwpd(0, version, iban, bic, currency_str(currency), touchdown_str(touchdown))
            },
            Segment::TanProcess4 { reference_seg, tan_medium } => {
                hktan_process4(
                    0,
                    params.hktan_version(),
                    reference_seg.as_str(),
                    medium_str(tan_medium),
                )
            },
            Segment::TanPollDecoupled { task_reference, tan_medium } => {
                hktan_process_s(
                    0,
                    params.hktan_version(),
                    task_reference.as_str(),
                    medium_str(tan_medium),
                )
            },
            Segment::TanProcess2 { task_reference, tan_medium } => {
                hktan_process2(
                    0,
                    params.hktan_version(),
                    task_reference.as_str(),
                    medium_str(tan_medium),
                )
            },
            Segment::End { dialog_id } => hkend(0, dialog_id.as_str()),
        }
    }
}

} // verus!
