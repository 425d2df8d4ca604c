//! Dialogs with a bank.
//!
//! A dialog's type says what it can do next:
//!
//! - `Dialog<New>` starts a synchronization dialog (to `Dialog<Synced>`) or a
//!   normal one (to `Dialog<Open>`, or to `Dialog<TanPending>` where the bank
//!   demands a TAN).
//! - `Dialog<Synced>` holds a system identification and parameters. It takes no
//!   business segments and can only end.
//! - `Dialog<Open>` takes business segments.
//! - `Dialog<TanPending>` polls, submits a TAN or is cancelled.
//!
//! Each step has two halves. The first gives the segments of the request, which
//! `request` turns into a message. The second takes the answer and gives the
//! dialog in its next state or what the bank delivered. In between the caller
//! sends the bytes.

use core::marker::PhantomData;

use vstd::prelude::*;

use crate::account::{debug_text, std_debug_text, Account};
use crate::dates::{calendar_date, local_timestamp, today, well_formed_moment, Date, Moment,
    Timestamp, Ymd};
use crate::element::{group_views, text_at, views};
use crate::error::{result_of, Failure, Result};
use crate::ids::{
    opt_of, opt_ref_of, unassigned_id, assigned_id, Blz, Currency, DialogId, FinTSUrl, Mt940Data,
    Pin, ProductId, SegmentRef, SegmentType, SystemId, TanMediumName, TaskReference,
    TouchdownPoint, UserId,
};
use crate::message::{build_message_at, message_result, MessageSender, Sender};
use crate::numbers::{decimal, decimal_string};
use crate::params::{
    clone_medium, decoupled_method, learned, no_params, operation_needs_tan, pin_only_reads,
    with_choice, BankParams, Known, Params,
};
use crate::reply::{
    awaits_decoupled, demands_tan, exempts, first_segment, reply_allowed, reply_challenge,
    reply_codes, reply_failure, reply_touchdown, Reply, Response, TanChallenge, TanDemand,
};
use crate::request::{Order, Segment};
use crate::segments::response::{
    extract_mt940_data, hikaz_bytes, hisal_balance, hisal_dated, hiwpd_holdings, holdings_fit,
    parse_hisal_on, parse_hiwpd, parse_hiwpd_checked,
};
use crate::text::{opt_str_view, same_text};
use crate::types::{AccountBalance, Balance, Holding, SecurityHolding};

verus! {

// ---- States ----

/// A state of a dialog.
pub trait DialogState {
    /// The name of the state.
    spec fn state_name() -> Seq<char>;

    /// The name of the state.
    fn name() -> (s: &'static str)
        ensures
            s@ == Self::state_name(),
    ;
}

/// Not yet started.
#[derive(Debug)]
pub struct New;

impl DialogState for New {
    open spec fn state_name() -> Seq<char> {
        "fints::protocol::New"@
    }

    fn name() -> (s: &'static str) {
        "fints::protocol::New"
    }
}

/// Synchronized: system identification and parameters are known.
#[derive(Debug)]
pub struct Synced;

impl DialogState for Synced {
    open spec fn state_name() -> Seq<char> {
        "fints::protocol::Synced"@
    }

    fn name() -> (s: &'static str) {
        "fints::protocol::Synced"
    }
}

/// Open and authenticated.
#[derive(Debug)]
pub struct Open;

impl DialogState for Open {
    open spec fn state_name() -> Seq<char> {
        "fints::protocol::Open"@
    }

    fn name() -> (s: &'static str) {
        "fints::protocol::Open"
    }
}

/// A TAN challenge is pending.
#[derive(Debug)]
pub struct TanPending;

impl DialogState for TanPending {
    open spec fn state_name() -> Seq<char> {
        "fints::protocol::TanPending"@
    }

    fn name() -> (s: &'static str) {
        "fints::protocol::TanPending"
    }
}

// ---- Model ----

/// A dialog as a value.
pub struct Talk {
    pub url: Seq<char>,
    pub blz: Seq<char>,
    pub user_id: Seq<char>,
    pub pin: Seq<char>,
    pub system_id: Seq<char>,
    pub product_id: Seq<char>,
    pub dialog_id: Seq<char>,
    pub message_number: int,
    pub params: Params,
}

/// Who sends the next message.
pub open spec fn sender_of(t: Talk) -> Sender {
    Sender {
        dialog_id: t.dialog_id,
        message_number: t.message_number,
        blz: t.blz,
        user_id: t.user_id,
        system_id: t.system_id,
        pin: t.pin,
        security_function: t.params.selected_security_function,
    }
}

/// The dialog identification that an answer's header states, where it states
/// one that is not 0.
pub open spec fn reply_dialog_id(r: Reply) -> Option<Seq<char>> {
    match first_segment(r.segments, "HNHBK"@) {
        Some(header) => {
            let id = text_at(header, 3, 0);
            if id.len() > 0 && id != "0"@ {
                Some(id)
            } else {
                None
            }
        },
        None => None,
    }
}

pub open spec fn with_dialog_id(t: Talk, r: Reply) -> Talk {
    match reply_dialog_id(r) {
        Some(id) => Talk { dialog_id: id, ..t },
        None => t,
    }
}

/// A dialog that has taken over what an answer tells.
pub open spec fn informed(t: Talk, r: Reply) -> Talk {
    let k = learned(Known { params: t.params, system_id: t.system_id }, r);
    Talk { params: k.params, system_id: k.system_id, ..t }
}

/// A dialog with its security function chosen.
pub open spec fn settled(t: Talk) -> Talk {
    Talk { params: with_choice(t.params), ..t }
}

/// A dialog after the answer to its first message.
pub open spec fn started(t: Talk, r: Reply) -> Talk {
    informed(with_dialog_id(t, r), r)
}

/// A dialog after the answer to a normal initialization: a choice is made where
/// the answer states what is allowed.
pub open spec fn initialized(t: Talk, r: Reply) -> Talk {
    if reply_allowed(r).len() > 0 {
        settled(started(t, r))
    } else {
        started(t, r)
    }
}

pub open spec fn identify_order(t: Talk) -> Order {
    Order::Identify { blz: t.blz, user_id: t.user_id, system_id: t.system_id }
}

pub open spec fn prepare_order(t: Talk) -> Order {
    Order::ProcessPrep {
        bpd_version: t.params.bpd_version,
        upd_version: t.params.upd_version,
        product_id: t.product_id,
    }
}

/// Ask for a challenge for a segment type.
pub open spec fn challenge_order(t: Talk, seg_type: Seq<char>) -> Order {
    Order::TanProcess4 { reference_seg: seg_type, tan_medium: t.params.selected_tan_medium }
}

pub open spec fn sync_orders(t: Talk) -> Seq<Order> {
    seq![identify_order(t), prepare_order(t), Order::Sync]
}

pub open spec fn plain_init_orders(t: Talk) -> Seq<Order> {
    seq![identify_order(t), prepare_order(t)]
}

/// A normal initialization asks for a challenge unless reads need the PIN alone.
pub open spec fn init_orders(t: Talk) -> Seq<Order> {
    if pin_only_reads(t.params) {
        plain_init_orders(t)
    } else {
        seq![identify_order(t), prepare_order(t), challenge_order(t, "HKIDN"@)]
    }
}

/// A business order, on its first page with a request for a challenge where the
/// operation needs a TAN.
pub open spec fn business_orders(
    t: Talk,
    order: Order,
    seg_type: Seq<char>,
    first_page: bool,
) -> Seq<Order> {
    if first_page && operation_needs_tan(t.params, seg_type) {
        seq![order, challenge_order(t, seg_type)]
    } else {
        seq![order]
    }
}

/// The challenge that stands in the way of a business order: one that is
/// demanded without exemption.
pub open spec fn blocking_challenge(r: Reply) -> Option<TanDemand> {
    if demands_tan(reply_codes(r)) && !exempts(reply_codes(r)) {
        reply_challenge(r)
    } else {
        None
    }
}

/// The challenge of an initialization, which is decoupled where the answer or
/// the selected method says so.
pub open spec fn init_challenge(t: Talk, r: Reply) -> Option<TanDemand> {
    if demands_tan(reply_codes(r)) {
        match reply_challenge(r) {
            Some(c) => Some(
                TanDemand { decoupled: c.decoupled || decoupled_method(t.params), ..c },
            ),
            None => None,
        }
    } else {
        None
    }
}

/// Whether a dialog ends: the message is built and the identification dropped,
/// or building fails and nothing changes.
pub open spec fn ended(
    before: Talk,
    after: Talk,
    res: core::result::Result<Option<Seq<u8>>, Failure>,
    reference: int,
    m: Moment,
) -> bool {
    let orders = seq![Order::End { dialog_id: before.dialog_id }];
    match res {
        Ok(Some(bytes)) => {
            &&& message_result(
                Ok(bytes),
                sender_of(before),
                None,
                reference,
                m,
                orders,
                before.params,
            )
            &&& after == (Talk {
                message_number: before.message_number + 1,
                dialog_id: unassigned_id(),
                ..before
            })
        },
        Ok(None) => false,
        Err(e) => {
            &&& message_result(
                Err(e),
                sender_of(before),
                None,
                reference,
                m,
                orders,
                before.params,
            )
            &&& after == before
        },
    }
}

/// The result of ending a dialog by the views of what it holds.
pub open spec fn end_result(res: Result<Option<Vec<u8>>>) -> core::result::Result<
    Option<Seq<u8>>,
    Failure,
> {
    match res {
        Ok(Some(b)) => Ok(Some(b@)),
        Ok(None) => Ok(None),
        Err(e) => Err(e@),
    }
}

/// What a synchronization comes to: an error counts unless a TAN is demanded.
pub open spec fn sync_of(t: Talk, r: Reply) -> core::result::Result<Talk, Failure> {
    match reply_failure(r) {
        Some(f) if !demands_tan(reply_codes(r)) => Err(f),
        _ => Ok(settled(started(t, r))),
    }
}

/// What an initialization with the PIN alone comes to.
pub open spec fn plain_init_of(t: Talk, r: Reply) -> core::result::Result<Talk, Failure> {
    match reply_failure(r) {
        Some(f) => Err(f),
        None => Ok(started(t, r)),
    }
}

/// What a submitted TAN comes to.
pub open spec fn submission_of(t: Talk, r: Reply) -> core::result::Result<Talk, Failure> {
    match reply_failure(r) {
        Some(f) => Err(f),
        None => Ok(informed(t, r)),
    }
}

/// What a poll comes to: the confirmed dialog, or none while it is pending.
pub open spec fn poll_of(t: Talk, r: Reply) -> core::result::Result<Option<Talk>, Failure> {
    if awaits_decoupled(reply_codes(r)) {
        Ok(None)
    } else {
        match submission_of(t, r) {
            Ok(after) => Ok(Some(after)),
            Err(f) => Err(f),
        }
    }
}

/// A dialog in its next state, or an error, as a value.
pub open spec fn next_dialog<S>(res: Result<(Dialog<S>, Response)>) -> core::result::Result<
    Talk,
    Failure,
> {
    match res {
        Ok(r) => Ok(r.0@),
        Err(e) => Err(e@),
    }
}

/// The result of a poll as a value.
pub open spec fn poll_result(res: Result<PollResult>) -> core::result::Result<
    Option<Talk>,
    Failure,
> {
    match res {
        Ok(PollResult::Confirmed(d, _)) => Ok(Some(d@)),
        Ok(PollResult::Pending(_)) => Ok(None),
        Err(e) => Err(e@),
    }
}

/// A newtype over a text as it is written for debugging.
pub open spec fn named_text(name: Seq<char>, value: Seq<char>) -> Seq<char> {
    name + "("@ + std_debug_text(value) + ")"@
}

/// A dialog in a state as it is written for debugging: without the PIN.
pub open spec fn dialog_text(t: Talk, state: Seq<char>) -> Seq<char> {
    "Dialog { blz: "@ + named_text("Blz"@, t.blz) + ", user_id: "@ + named_text(
        "UserId"@,
        t.user_id,
    ) + ", system_id: "@ + named_text("SystemId"@, t.system_id) + ", dialog_id: "@ + named_text(
        "DialogId"@,
        t.dialog_id,
    ) + ", message_number: "@ + decimal(t.message_number as nat) + ", state: "@ + std_debug_text(state)
        + " }"@
}

fn write_named(name: &str, value: &str) -> (s: String)
    ensures
        s@ == named_text(name@, value@),
{
    let mut s = name.to_string();
    s.append("(");
    s.append(debug_text(value).as_str());
    s.append(")");
    s
}

// ---- Outcomes ----

/// A balance request's outcome as a value.
pub enum BalanceOutcome {
    Success(Balance),
    NeedTan(TanDemand),
    Empty,
}

/// The outcome of a balance request.
pub enum BalanceResult {
    /// The balance.
    Success(AccountBalance),
    /// The bank demands a TAN.
    NeedTan(TanChallenge),
    /// The answer holds no balance.
    Empty,
}

impl View for BalanceResult {
    type V = BalanceOutcome;

    open spec fn view(&self) -> BalanceOutcome {
        match self {
            BalanceResult::Success(b) => BalanceOutcome::Success(b@),
            BalanceResult::NeedTan(c) => BalanceOutcome::NeedTan(c@),
            BalanceResult::Empty => BalanceOutcome::Empty,
        }
    }
}

/// What an answer to a balance request comes to; `default_date` stands in for a
/// missing date.
pub open spec fn balance_of(r: Reply, default_date: Ymd) -> core::result::Result<
    BalanceOutcome,
    Failure,
> {
    match blocking_challenge(r) {
        Some(c) => Ok(BalanceOutcome::NeedTan(c)),
        None => match reply_failure(r) {
            Some(f) => Err(f),
            None => match first_segment(r.segments, "HISAL"@) {
                Some(seg) => match hisal_balance(seg, default_date) {
                    Some(b) => Ok(BalanceOutcome::Success(b)),
                    None => Ok(BalanceOutcome::Empty),
                },
                None => Ok(BalanceOutcome::Empty),
            },
        },
    }
}

/// One page of transactions as a value.
pub struct Page {
    pub booked: Seq<u8>,
    pub pending: Seq<u8>,
    pub touchdown: Option<Seq<char>>,
}

/// One page of transactions.
pub struct TransactionPage {
    /// MT940 data of booked transactions.
    pub booked: Mt940Data,
    /// MT940 data of pending transactions.
    pub pending: Mt940Data,
    /// Where the next page starts, if there is one.
    pub touchdown: Option<TouchdownPoint>,
}

impl View for TransactionPage {
    type V = Page;

    open spec fn view(&self) -> Page {
        Page { booked: self.booked@, pending: self.pending@, touchdown: opt_of(self.touchdown) }
    }
}

/// A transaction request's outcome as a value.
pub enum TransactionOutcome {
    Success(Page),
    NeedTan(TanDemand),
}

/// The outcome of a transaction request.
pub enum TransactionResult {
    /// One page; its touchdown point leads to the next.
    Success(TransactionPage),
    /// The bank demands a TAN.
    NeedTan(TanChallenge),
}

impl View for TransactionResult {
    type V = TransactionOutcome;

    open spec fn view(&self) -> TransactionOutcome {
        match self {
            TransactionResult::Success(p) => TransactionOutcome::Success(p@),
            TransactionResult::NeedTan(c) => TransactionOutcome::NeedTan(c@),
        }
    }
}

/// What an answer to a transaction request comes to.
pub open spec fn transactions_of(r: Reply) -> core::result::Result<TransactionOutcome, Failure> {
    match blocking_challenge(r) {
        Some(c) => Ok(TransactionOutcome::NeedTan(c)),
        None => match reply_failure(r) {
            Some(f) => Err(f),
            None => Ok(
                TransactionOutcome::Success(
                    Page {
                        booked: hikaz_bytes(r.segments, 1),
                        pending: hikaz_bytes(r.segments, 2),
                        touchdown: reply_touchdown(r),
                    },
                ),
            ),
        },
    }
}

/// One page of positions as a value.
pub struct HoldingList {
    pub holdings: Seq<Holding>,
    pub touchdown: Option<Seq<char>>,
}

/// One page of positions.
pub struct HoldingsPage {
    /// The positions.
    pub holdings: Vec<SecurityHolding>,
    /// Where the next page starts, if there is one.
    pub touchdown: Option<TouchdownPoint>,
}

impl View for HoldingsPage {
    type V = HoldingList;

    open spec fn view(&self) -> HoldingList {
        HoldingList { holdings: views(self.holdings@), touchdown: opt_of(self.touchdown) }
    }
}

/// A holdings request's outcome as a value.
pub enum HoldingsOutcome {
    Success(HoldingList),
    NeedTan(TanDemand),
    Empty,
}

/// The outcome of a holdings request.
pub enum HoldingsResult {
    /// One page; its touchdown point leads to the next.
    Success(HoldingsPage),
    /// The bank demands a TAN.
    NeedTan(TanChallenge),
    /// No positions and no further page.
    Empty,
}

impl View for HoldingsResult {
    type V = HoldingsOutcome;

    open spec fn view(&self) -> HoldingsOutcome {
        match self {
            HoldingsResult::Success(p) => HoldingsOutcome::Success(p@),
            HoldingsResult::NeedTan(c) => HoldingsOutcome::NeedTan(c@),
            HoldingsResult::Empty => HoldingsOutcome::Empty,
        }
    }
}

/// What an answer to a holdings request comes to.
pub open spec fn holdings_of(r: Reply) -> core::result::Result<HoldingsOutcome, Failure> {
    match blocking_challenge(r) {
        Some(c) => Ok(HoldingsOutcome::NeedTan(c)),
        None => match reply_failure(r) {
            Some(f) => Err(f),
            None => {
                let holdings = hiwpd_holdings(r.segments);
                if holdings.len() == 0 && reply_touchdown(r) is None {
                    Ok(HoldingsOutcome::Empty)
                } else {
                    Ok(
                        HoldingsOutcome::Success(
                            HoldingList { holdings, touchdown: reply_touchdown(r) },
                        ),
                    )
                }
            },
        },
    }
}

/// Whether positions are read from an answer only where their market values can
/// be held.
pub open spec fn holdings_readable(r: Reply) -> bool {
    blocking_challenge(r) is Some || reply_failure(r) is Some || holdings_fit(r.segments)
}

// ---- Dialogs ----

/// A dialog in state `S`.
pub struct Dialog<S> {
    url: FinTSUrl,
    blz: Blz,
    user_id: UserId,
    pin: Pin,
    system_id: SystemId,
    product_id: ProductId,
    dialog_id: DialogId,
    message_number: u16,
    pub params: BankParams,
    state: PhantomData<S>,
}

impl<S> View for Dialog<S> {
    type V = Talk;

    closed spec fn view(&self) -> Talk {
        Talk {
            url: self.url@,
            blz: self.blz@,
            user_id: self.user_id@,
            pin: self.pin@,
            system_id: self.system_id@,
            product_id: self.product_id@,
            dialog_id: self.dialog_id@,
            message_number: self.message_number as int,
            params: self.params@,
        }
    }
}

/// The outcome of a normal initialization.
pub enum InitResult {
    /// The dialog is open.
    Opened(Dialog<Open>, Response),
    /// The bank demands a TAN first.
    TanRequired(Dialog<TanPending>, TanChallenge, Response),
}

/// The outcome of sending a business segment.
pub enum SendResult {
    /// The order is executed; the answer holds the result.
    Success(Response),
    /// The bank demands a TAN.
    NeedTan(Dialog<TanPending>, TanChallenge, Response),
    /// The answer holds a part of the data; more can be had from this point on.
    Touchdown(Response, String),
}

/// The outcome of a poll.
pub enum PollResult {
    /// The TAN is confirmed and the dialog open.
    Confirmed(Dialog<Open>, Response),
    /// Not yet.
    Pending(Dialog<TanPending>),
}

impl<S> Dialog<S> {
    pub fn system_id(&self) -> (id: &SystemId)
        ensures
            id@ == self@.system_id,
    {
        &self.system_id
    }

    pub fn bank_params(&self) -> (p: &BankParams)
        ensures
            p@ == self@.params,
    {
        &self.params
    }

    pub fn bank_params_mut(&mut self) -> (p: &mut BankParams)
        ensures
            p@ == old(self)@.params,
            final(self)@ == (Talk { params: final(p)@, ..old(self)@ }),
    {
        &mut self.params
    }

    /// The address of the bank.
    pub fn url(&self) -> (u: &FinTSUrl)
        ensures
            u@ == self@.url,
    {
        &self.url
    }

    /// The identification of the dialog.
    pub fn dialog_id(&self) -> (id: &DialogId)
        ensures
            id@ == self@.dialog_id,
    {
        &self.dialog_id
    }

    /// The number of the next message.
    pub fn message_number(&self) -> (n: u16)
        ensures
            n as int == self@.message_number,
    {
        self.message_number
    }

    /// The PIN, for callers that keep it out of their logs.
    pub fn pin(&self) -> (p: &Pin)
        ensures
            p@ == self@.pin,
    {
        &self.pin
    }

    fn identify_segment(&self) -> (s: Segment)
        ensures
            s@ == identify_order(self@),
    {
        Segment::Identify {
            blz: self.blz.clone(),
            user_id: self.user_id.clone(),
            system_id: self.system_id.clone(),
        }
    }

    fn process_prep_segment(&self) -> (s: Segment)
        ensures
            s@ == prepare_order(self@),
    {
        Segment::ProcessPrep {
            bpd_version: self.params.bpd_version,
            upd_version: self.params.upd_version,
            product_id: self.product_id.clone(),
        }
    }

    fn challenge_segment(&self, seg_type: &str) -> (s: Segment)
        ensures
            s@ == challenge_order(self@, seg_type@),
    {
        Segment::TanProcess4 {
            reference_seg: SegmentRef::new(seg_type),
            tan_medium: clone_medium(&self.params.selected_tan_medium),
        }
    }

    /// Builds the next message with the given time stamp. The message number
    /// moves on where that succeeds.
    pub fn request_at(
        &mut self,
        segments: &[Segment],
        tan: Option<&str>,
        security_reference: u32,
        now: &Timestamp,
    ) -> (res: Result<Vec<u8>>)
        requires
            segments@.len() + 4 <= u16::MAX,
            old(self)@.message_number < u16::MAX,
        ensures
            message_result(
                result_of(res),
                sender_of(old(self)@),
                opt_str_view(tan),
                security_reference as int,
                now@,
                views(segments@),
                old(self)@.params,
            ),
            final(self)@ == (if res is Ok {
                Talk { message_number: old(self)@.message_number + 1, ..old(self)@ }
            } else {
                old(self)@
            }),
    {
        let sender = MessageSender {
            dialog_id: &self.dialog_id,
            message_number: self.message_number,
            blz: &self.blz,
            user_id: &self.user_id,
            system_id: &self.system_id,
            pin: &self.pin,
            security_function: &self.params.selected_security_function,
        };
        assert(sender@ == sender_of(self@));
        let res = build_message_at(&sender, tan, security_reference, now, segments, &self.params);
        if res.is_ok() {
            self.message_number = self.message_number + 1;
        }
        res
    }

    /// Builds the next message, signed at the current local time.
    /// `security_reference` is any number. The message number moves on where
    /// building succeeds.
    pub fn request(
        &mut self,
        segments: &[Segment],
        tan: Option<&str>,
        security_reference: u32,
    ) -> (res: Result<Vec<u8>>)
        requires
            segments@.len() + 4 <= u16::MAX,
            old(self)@.message_number < u16::MAX,
        ensures
            exists|m: Moment|
                well_formed_moment(m) && #[trigger] message_result(
                    result_of(res),
                    sender_of(old(self)@),
                    opt_str_view(tan),
                    security_reference as int,
                    m,
                    views(segments@),
                    old(self)@.params,
                ),
            final(self)@ == (if res is Ok {
                Talk { message_number: old(self)@.message_number + 1, ..old(self)@ }
            } else {
                old(self)@
            }),
    {
        let now = local_timestamp();
        let ghost before = *self;
        let res = self.request_at(segments, tan, security_reference, &now);
        assert(message_result(
            result_of(res),
            sender_of(before@),
            opt_str_view(tan),
            security_reference as int,
            now@,
            views(segments@),
            before@.params,
        ));
        res
    }

    /// Ends the dialog: gives the message to send, or nothing where the bank
    /// has not assigned an identification. The answer to it does not matter, so
    /// the identification is dropped at once.
    pub fn end_request(&mut self, security_reference: u32) -> (res: Result<Option<Vec<u8>>>)
        requires
            assigned_id(old(self)@.dialog_id) ==> old(self)@.message_number < u16::MAX,
        ensures
            !assigned_id(old(self)@.dialog_id) ==> res == Result::<Option<Vec<u8>>>::Ok(None)
                && final(self)@ == old(self)@,
            assigned_id(old(self)@.dialog_id) ==> exists|m: Moment|
                well_formed_moment(m) && #[trigger] ended(
                    old(self)@,
                    final(self)@,
                    end_result(res),
                    security_reference as int,
                    m,
                ),
    {
        if !self.dialog_id.is_assigned() {
            return Ok(None);
        }
        let segments = vec![Segment::End { dialog_id: self.dialog_id.clone() }];
        assert(views(segments@) =~= seq![Order::End { dialog_id: self@.dialog_id }]);
        let now = local_timestamp();
        let ghost before = self@;
        let res = match self.request_at(segments.as_slice(), None, security_reference, &now) {
            Ok(bytes) => {
                self.dialog_id = DialogId::unassigned();
                Ok(Some(bytes))
            },
            Err(e) => Err(e),
        };
        assert(ended(before, self@, end_result(res), security_reference as int, now@));
        res
    }

    fn extract_dialog_id(&mut self, response: &Response)
        ensures
            final(self)@ == with_dialog_id(old(self)@, response@),
    {
        if let Some(header) = response.find_segment("HNHBK") {
            let id = header.element(3, 0).as_str();
            if !id.is_empty() && !same_text(id, "0") {
                self.dialog_id = DialogId::new(id);
            }
        }
    }

    fn ingest(&mut self, response: &Response)
        ensures
            final(self)@ == informed(old(self)@, response@),
    {
        self.params.ingest_response(response, &mut self.system_id);
    }

    /// The same dialog in another state.
    fn transition<T>(self) -> (d: Dialog<T>)
        ensures
            d@ == self@,
    {
        Dialog {
            url: self.url,
            blz: self.blz,
            user_id: self.user_id,
            pin: self.pin,
            system_id: self.system_id,
            product_id: self.product_id,
            dialog_id: self.dialog_id,
            message_number: self.message_number,
            params: self.params,
            state: PhantomData,
        }
    }
}

impl<S: DialogState> Dialog<S> {
    /// The dialog as it is written for debugging. The PIN does not stand in it.
    pub fn debug_text(&self) -> (s: String)
        ensures
            s@ == dialog_text(self@, S::state_name()),
    {
        let mut s = "Dialog { blz: ".to_string();
        s.append(write_named("Blz", self.blz.as_str()).as_str());
        s.append(", user_id: ");
        s.append(write_named("UserId", self.user_id.as_str()).as_str());
        s.append(", system_id: ");
        s.append(write_named("SystemId", self.system_id.as_str()).as_str());
        s.append(", dialog_id: ");
        s.append(write_named("DialogId", self.dialog_id.as_str()).as_str());
        s.append(", message_number: ");
        s.append(decimal_string(self.message_number as u128).as_str());
        s.append(", state: ");
        s.append(debug_text(S::name()).as_str());
        s.append(" }");
        s
    }
}

impl Dialog<New> {
    /// A dialog that has not started: no identifications, first message, nothing
    /// known of the bank.
    pub fn new(
        url: &str,
        blz: &Blz,
        user_id: &UserId,
        pin: &Pin,
        product_id: &ProductId,
    ) -> (res: Result<Dialog<New>>)
        ensures
            res matches Ok(d) && d@ == (Talk {
                url: url@,
                blz: blz@,
                user_id: user_id@,
                pin: pin@,
                system_id: unassigned_id(),
                product_id: product_id@,
                dialog_id: unassigned_id(),
                message_number: 1,
                params: no_params(),
            }),
    {
        Ok(
            Dialog {
                url: FinTSUrl::new(url),
                blz: blz.clone(),
                user_id: user_id.clone(),
                pin: pin.clone(),
                system_id: SystemId::unassigned(),
                product_id: product_id.clone(),
                dialog_id: DialogId::unassigned(),
                message_number: 1,
                params: BankParams::new(),
                state: PhantomData,
            },
        )
    }

    pub fn with_system_id(self, system_id: &SystemId) -> (d: Dialog<New>)
        ensures
            d@ == (Talk { system_id: system_id@, ..self@ }),
    {
        Dialog { system_id: system_id.clone(), ..self }
    }

    pub fn with_params(self, params: &BankParams) -> (d: Dialog<New>)
        ensures
            d@ == (Talk { params: params@, ..self@ }),
    {
        Dialog { params: params.clone(), ..self }
    }

    pub fn with_tan_medium(self, medium: &TanMediumName) -> (d: Dialog<New>)
        ensures
            d@ == (Talk {
                params: Params { selected_tan_medium: Some(medium@), ..self@.params },
                ..self@
            }),
    {
        let mut d = self;
        d.params.selected_tan_medium = Some(medium.clone());
        d
    }

    /// The segments of a synchronization: HKIDN, HKVVB and HKSYN.
    pub fn sync_segments(&self) -> (segments: Vec<Segment>)
        ensures
            views(segments@) == sync_orders(self@),
    {
        let segments = vec![
            self.identify_segment(),
            self.process_prep_segment(),
            Segment::Sync,
        ];
        assert(views(segments@) =~= sync_orders(self@));
        segments
    }

    /// Takes the answer to a synchronization. Errors count unless the bank
    /// demands a TAN.
    pub fn sync_finish(self, response: Response) -> (res: Result<(Dialog<Synced>, Response)>)
        ensures
            match res {
                Ok(r) => {
                    &&& demands_tan(reply_codes(response@)) || reply_failure(response@) is None
                    &&& r.0@ == settled(started(self@, response@))
                    &&& r.1 == response
                },
                Err(e) => !demands_tan(reply_codes(response@)) && reply_failure(response@) == Some(
                    e@,
                ),
            },
            next_dialog(res) == sync_of(self@, response@),
    {
        let mut d = self;
        d.extract_dialog_id(&response);
        d.ingest(&response);
        d.params.select_security_function();
        if !response.needs_tan() {
            if let Err(e) = response.check_errors() {
                return Err(e);
            }
        }
        Ok((d.transition(), response))
    }

    /// The segments of a normal initialization: HKIDN, HKVVB and HKTAN process
    /// 4, or the first two alone where every read needs the PIN alone. A bank
    /// that works with the PIN alone refuses HKTAN as a malformed signature.
    pub fn init_segments(&self) -> (segments: Vec<Segment>)
        ensures
            views(segments@) == init_orders(self@),
    {
        if self.params.reads_are_pin_only() {
            return self.init_no_tan_segments();
        }
        let segments = vec![
            self.identify_segment(),
            self.process_prep_segment(),
            self.challenge_segment("HKIDN"),
        ];
        assert(views(segments@) =~= init_orders(self@));
        segments
    }

    /// Takes the answer to a normal initialization.
    pub fn init_finish(self, response: Response) -> (res: Result<InitResult>)
        ensures
            init_finished(self@, response, res),
    {
        if self.params.reads_are_pin_only() {
            return match self.init_no_tan_finish(response) {
                Ok((open, response)) => Ok(InitResult::Opened(open, response)),
                Err(e) => Err(e),
            };
        }
        let mut d = self;
        d.extract_dialog_id(&response);
        d.ingest(&response);
        let allowed = response.allowed_security_functions();
        if allowed.len() > 0 {
            d.params.allowed_security_functions = allowed;
            d.params.select_security_function();
        }
        assert(d@ == initialized(self@, response@));
        if response.needs_tan() {
            if let Some(challenge) = response.get_tan_challenge() {
                let decoupled: bool = challenge.decoupled || d.params.is_decoupled();
                let challenge = TanChallenge {
                    challenge: challenge.challenge,
                    challenge_hhduc: challenge.challenge_hhduc,
                    task_reference: challenge.task_reference,
                    decoupled,
                };
                return Ok(InitResult::TanRequired(d.transition(), challenge, response));
            }
        }
        match response.check_errors() {
            Ok(_) => Ok(InitResult::Opened(d.transition(), response)),
            Err(e) => Err(e),
        }
    }

    /// The segments of an initialization with the PIN alone: HKIDN and HKVVB.
    pub fn init_no_tan_segments(&self) -> (segments: Vec<Segment>)
        ensures
            views(segments@) == plain_init_orders(self@),
    {
        let segments = vec![self.identify_segment(), self.process_prep_segment()];
        assert(views(segments@) =~= plain_init_orders(self@));
        segments
    }

    /// Takes the answer to an initialization with the PIN alone.
    pub fn init_no_tan_finish(self, response: Response) -> (res: Result<(Dialog<Open>, Response)>)
        ensures
            match res {
                Ok(r) => reply_failure(response@) is None && r.0@ == started(self@, response@)
                    && r.1 == response,
                Err(e) => reply_failure(response@) == Some(e@),
            },
            next_dialog(res) == plain_init_of(self@, response@),
    {
        let mut d = self;
        d.extract_dialog_id(&response);
        d.ingest(&response);
        match response.check_errors() {
            Ok(_) => Ok((d.transition(), response)),
            Err(e) => Err(e),
        }
    }
}

/// What a normal initialization comes to: where reads need the PIN alone the
/// dialog opens unless the bank reports an error; otherwise a challenge that is
/// demanded comes first, then errors, then the open dialog.
pub open spec fn init_finished(t: Talk, response: Response, res: Result<InitResult>) -> bool {
    let r = response@;
    if pin_only_reads(t.params) {
        match res {
            Ok(InitResult::Opened(d, resp)) => reply_failure(r) is None && d@ == started(t, r)
                && resp == response,
            Ok(InitResult::TanRequired(..)) => false,
            Err(e) => reply_failure(r) == Some(e@),
        }
    } else {
        let after = initialized(t, r);
        match res {
            Ok(InitResult::TanRequired(d, c, resp)) => init_challenge(after, r) == Some(c@) && d@
                == after && resp == response,
            Ok(InitResult::Opened(d, resp)) => init_challenge(after, r) is None && reply_failure(
                r,
            ) is None && d@ == after && resp == response,
            Err(e) => init_challenge(after, r) is None && reply_failure(r) == Some(e@),
        }
    }
}

impl Dialog<Synced> {
    /// What a synchronization was for: parameters and system identification.
    pub fn into_parts(self) -> (res: (BankParams, SystemId))
        ensures
            res.0@ == self@.params,
            res.1@ == self@.system_id,
    {
        (self.params, self.system_id)
    }
}

impl Dialog<Open> {
    /// The segments of a balance request: HKSAL, and HKTAN process 4 where the
    /// operation needs a TAN.
    pub fn balance_segments(&self, account: &Account) -> (segments: Vec<Segment>)
        ensures
            views(segments@) == business_orders(
                self@,
                Order::Balance { account: account@ },
                "HKSAL"@,
                true,
            ),
    {
        self.business(Segment::Balance { account: account.clone() }, "HKSAL", true)
    }

    /// The segments of a transaction request: HKKAZ, and on the first page HKTAN
    /// process 4 where the operation needs a TAN.
    pub fn transactions_segments(
        &self,
        account: &Account,
        start_date: Date,
        end_date: Date,
        touchdown: Option<&TouchdownPoint>,
    ) -> (segments: Vec<Segment>)
        ensures
            views(segments@) == business_orders(
                self@,
                Order::Transactions {
                    account: account@,
                    start_date: start_date@,
                    end_date: end_date@,
                    touchdown: opt_ref_of(touchdown),
                },
                "HKKAZ"@,
                touchdown is None,
            ),
    {
        let first: bool = touchdown.is_none();
        let segment = Segment::Transactions {
            account: account.clone(),
            start_date,
            end_date,
            touchdown: own_touchdown(touchdown),
        };
        self.business(segment, "HKKAZ", first)
    }

    /// The segments of a holdings request: HKWPD, and on the first page HKTAN
    /// process 4 where the operation needs a TAN.
    pub fn holdings_segments(
        &self,
        account: &Account,
        currency: Option<&Currency>,
        touchdown: Option<&TouchdownPoint>,
    ) -> (segments: Vec<Segment>)
        ensures
            views(segments@) == business_orders(
                self@,
                Order::Holdings {
                    account: account@,
                    currency: opt_ref_of(currency),
                    touchdown: opt_ref_of(touchdown),
                },
                "HKWPD"@,
                touchdown is None,
            ),
    {
        let first: bool = touchdown.is_none();
        let segment = Segment::Holdings {
            account: account.clone(),
            currency: match currency {
                Some(c) => Some(c.clone()),
                None => None,
            },
            touchdown: own_touchdown(touchdown),
        };
        self.business(segment, "HKWPD", first)
    }

    fn business(&self, segment: Segment, seg_type: &str, first_page: bool) -> (segments: Vec<
        Segment,
    >)
        ensures
            views(segments@) == business_orders(self@, segment@, seg_type@, first_page),
    {
        broadcast use group_views;

        let ghost order = segment@;
        let mut segments = vec![segment];
        if first_page && self.params.needs_tan(&SegmentType::new(seg_type)) {
            segments.push(self.challenge_segment(seg_type));
        }
        assert(views(segments@) =~= business_orders(self@, order, seg_type@, first_page));
        segments
    }
}

fn own_touchdown(t: Option<&TouchdownPoint>) -> (r: Option<TouchdownPoint>)
    ensures
        opt_of(r) == opt_ref_of(t),
{
    match t {
        Some(x) => Some(x.clone()),
        None => None,
    }
}

fn blocking(response: &Response) -> (res: Option<TanChallenge>)
    ensures
        opt_of(res) == blocking_challenge(response@),
{
    if response.needs_tan() && !response.has_sca_exemption() {
        response.get_tan_challenge()
    } else {
        None
    }
}

/// Takes the answer to a balance request; `default_date` stands in for a missing
/// date.
pub fn balance_outcome_on(response: &Response, default_date: Date) -> (res: Result<BalanceResult>)
    ensures
        result_of(res) == balance_of(response@, default_date@),
{
    if let Some(challenge) = blocking(response) {
        return Ok(BalanceResult::NeedTan(challenge));
    }
    if let Err(e) = response.check_errors() {
        return Err(e);
    }
    if let Some(hisal) = response.find_segment("HISAL") {
        if let Some(balance) = parse_hisal_on(hisal, default_date) {
            return Ok(BalanceResult::Success(balance));
        }
    }
    Ok(BalanceResult::Empty)
}

/// Takes the answer to a balance request. Today's date stands in for a missing
/// date of the balance.
pub fn balance_outcome(response: &Response) -> (res: Result<BalanceResult>)
    ensures
        exists|d: Ymd| calendar_date(d) && result_of(res) == #[trigger] balance_of(response@, d),
        first_segment(response@.segments, "HISAL"@) matches Some(seg) && hisal_dated(seg)
            ==> forall|d: Ymd| result_of(res) == #[trigger] balance_of(response@, d),
{
    let now = today();
    let res = balance_outcome_on(response, now);
    assert(calendar_date(now@) && result_of(res) == balance_of(response@, now@));
    res
}

/// Takes the answer to a transaction request.
pub fn transactions_outcome(response: &Response) -> (res: Result<TransactionResult>)
    ensures
        result_of(res) == transactions_of(response@),
{
    if let Some(challenge) = blocking(response) {
        return Ok(TransactionResult::NeedTan(challenge));
    }
    if let Err(e) = response.check_errors() {
        return Err(e);
    }
    let data = extract_mt940_data(response.segments.as_slice());
    Ok(
        TransactionResult::Success(
            TransactionPage {
                booked: Mt940Data(data.booked),
                pending: Mt940Data(data.pending),
                touchdown: response.touchdown(),
            },
        ),
    )
}

/// Takes the answer to a holdings request. Where positions are read, no market
/// value may be too large to hold.
pub fn holdings_outcome(response: &Response) -> (res: Result<HoldingsResult>)
    requires
        holdings_readable(response@),
    ensures
        result_of(res) == holdings_of(response@),
{
    if let Some(challenge) = blocking(response) {
        return Ok(HoldingsResult::NeedTan(challenge));
    }
    if let Err(e) = response.check_errors() {
        return Err(e);
    }
    let holdings = parse_hiwpd(response.segments.as_slice());
    let touchdown = response.touchdown();
    if holdings.len() == 0 && touchdown.is_none() {
        return Ok(HoldingsResult::Empty);
    }
    Ok(HoldingsResult::Success(HoldingsPage { holdings, touchdown }))
}

/// The same for any answer; `None` where a market value is too large to hold.
pub fn holdings_outcome_checked(response: &Response) -> (res: Option<Result<HoldingsResult>>)
    ensures
        match res {
            Some(r) => holdings_readable(response@) && result_of(r) == holdings_of(response@),
            None => !holdings_readable(response@),
        },
{
    if blocking(response).is_none() && response.check_errors().is_ok() && parse_hiwpd_checked(
        response.segments.as_slice(),
    ).is_none() {
        return None;
    }
    Some(holdings_outcome(response))
}

impl Dialog<TanPending> {
    /// The segment of a poll: HKTAN process S, without business segments.
    pub fn poll_segments(&self, task_reference: &TaskReference) -> (segments: Vec<Segment>)
        ensures
            views(segments@) == seq![
                Order::TanPollDecoupled {
                    task_reference: task_reference@,
                    tan_medium: self@.params.selected_tan_medium,
                },
            ],
    {
        let segments = vec![
            Segment::TanPollDecoupled {
                task_reference: task_reference.clone(),
                tan_medium: clone_medium(&self.params.selected_tan_medium),
            },
        ];
        assert(views(segments@) =~= seq![
            Order::TanPollDecoupled {
                task_reference: task_reference@,
                tan_medium: self@.params.selected_tan_medium,
            },
        ]);
        segments
    }

    /// Takes the answer to a poll: the task is pending, has failed or is
    /// confirmed.
    pub fn poll_finish(self, response: Response) -> (res: Result<PollResult>)
        ensures
            match res {
                Ok(PollResult::Pending(d)) => awaits_decoupled(reply_codes(response@)) && d@
                    == self@,
                Ok(PollResult::Confirmed(d, resp)) => {
                    &&& !awaits_decoupled(reply_codes(response@))
                    &&& reply_failure(response@) is None
                    &&& d@ == informed(self@, response@)
                    &&& resp == response
                },
                Err(e) => !awaits_decoupled(reply_codes(response@)) && reply_failure(response@)
                    == Some(e@),
            },
            poll_result(res) == poll_of(self@, response@),
    {
        if response.is_decoupled_pending() {
            return Ok(PollResult::Pending(self));
        }
        if let Err(e) = response.check_errors() {
            return Err(e);
        }
        let mut d = self;
        d.ingest(&response);
        Ok(PollResult::Confirmed(d.transition(), response))
    }

    /// The segment that submits a TAN: HKTAN process 2. The TAN itself stands in
    /// the signature of the message.
    pub fn submit_tan_segments(&self, task_reference: &TaskReference) -> (segments: Vec<Segment>)
        ensures
            views(segments@) == seq![
                Order::TanProcess2 {
                    task_reference: task_reference@,
                    tan_medium: self@.params.selected_tan_medium,
                },
            ],
    {
        let segments = vec![
            Segment::TanProcess2 {
                task_reference: task_reference.clone(),
                tan_medium: clone_medium(&self.params.selected_tan_medium),
            },
        ];
        assert(views(segments@) =~= seq![
            Order::TanProcess2 {
                task_reference: task_reference@,
                tan_medium: self@.params.selected_tan_medium,
            },
        ]);
        segments
    }

    /// Takes the answer to a submitted TAN.
    pub fn submit_tan_finish(self, response: Response) -> (res: Result<(Dialog<Open>, Response)>)
        ensures
            match res {
                Ok(r) => reply_failure(response@) is None && r.0@ == informed(self@, response@)
                    && r.1 == response,
                Err(e) => reply_failure(response@) == Some(e@),
            },
            next_dialog(res) == submission_of(self@, response@),
    {
        if let Err(e) = response.check_errors() {
            return Err(e);
        }
        let mut d = self;
        d.ingest(&response);
        Ok((d.transition(), response))
    }
}

// ---- Laws ----

/// An answer changes neither who the user is nor where the bank is nor which
/// message comes next.
pub proof fn law_identity_kept(t: Talk, r: Reply)
    ensures
        ({
            let after = initialized(t, r);
            &&& after.url == t.url
            &&& after.blz == t.blz
            &&& after.user_id == t.user_id
            &&& after.pin == t.pin
            &&& after.product_id == t.product_id
            &&& after.message_number == t.message_number
        }),
{
}

/// A dialog identification, once assigned, stays assigned over answers.
pub proof fn law_dialog_id_assigned(t: Talk, r: Reply)
    requires
        assigned_id(t.dialog_id),
    ensures
        assigned_id(started(t, r).dialog_id),
{
}

/// A challenge is asked for on the first page only, and only where the operation
/// needs a TAN.
pub proof fn law_challenge_bundled(t: Talk, order: Order, seg_type: Seq<char>, first_page: bool)
    ensures
        business_orders(t, order, seg_type, first_page)[0] == order,
        business_orders(t, order, seg_type, first_page).len() == (if first_page
            && operation_needs_tan(t.params, seg_type) {
            2int
        } else {
            1int
        }),
        business_orders(t, order, seg_type, first_page).len() == 2 ==> business_orders(
            t,
            order,
            seg_type,
            first_page,
        )[1] == challenge_order(t, seg_type),
{
}

/// Where the bank waives strong authentication no business order waits for a
/// TAN.
pub proof fn law_exemption(r: Reply, default_date: Ymd)
    requires
        exempts(reply_codes(r)),
    ensures
        !(balance_of(r, default_date) matches Ok(BalanceOutcome::NeedTan(_))),
        !(transactions_of(r) matches Ok(TransactionOutcome::NeedTan(_))),
        !(holdings_of(r) matches Ok(HoldingsOutcome::NeedTan(_))),
{
}

/// A bank that reads with the PIN alone is never asked for a challenge, neither
/// when a dialog starts nor when it reads.
pub proof fn law_pin_only_plain(t: Talk, order: Order, first_page: bool)
    requires
        pin_only_reads(t.params),
    ensures
        init_orders(t) == plain_init_orders(t),
        business_orders(t, order, "HKSAL"@, first_page) == seq![order],
        business_orders(t, order, "HKKAZ"@, first_page) == seq![order],
        business_orders(t, order, "HKWPD"@, first_page) == seq![order],
{
}

/// Dialogs that differ in the PIN alone are written alike for debugging.
pub proof fn law_pin_not_written(t: Talk, pin: Seq<char>, state: Seq<char>)
    ensures
        dialog_text(Talk { pin, ..t }, state) == dialog_text(t, state),
{
}

/// Two texts that differ in what one name stands for, and in nothing else.
pub open spec fn differ_in(
    a: Seq<char>,
    b: Seq<char>,
    name: Seq<char>,
    x: Seq<char>,
    y: Seq<char>,
) -> bool {
    exists|front: Seq<char>, back: Seq<char>|
        #![trigger front + back]
        a == front + name + "("@ + std_debug_text(x) + ")"@ + back && b == front + name + "("@
            + std_debug_text(y) + ")"@ + back
}

proof fn lemma_differ_in(
    a: Seq<char>,
    b: Seq<char>,
    name: Seq<char>,
    x: Seq<char>,
    y: Seq<char>,
    front: Seq<char>,
    back: Seq<char>,
)
    requires
        a == front + named_text(name, x) + back,
        b == front + named_text(name, y) + back,
    ensures
        differ_in(a, b, name, x, y),
{
    let both = front + back;
    assert(a =~= front + name + "("@ + std_debug_text(x) + ")"@ + back);
    assert(b =~= front + name + "("@ + std_debug_text(y) + ")"@ + back);
}

/// The end of a dialog's text, behind the dialog identification.
spec fn text_end(t: Talk, state: Seq<char>) -> Seq<char> {
    ", message_number: "@ + decimal(t.message_number as nat) + ", state: "@ + std_debug_text(state)
        + " }"@
}

proof fn lemma_end_grouped(
    x: Seq<char>,
    m: Seq<char>,
    n: Seq<char>,
    s: Seq<char>,
    st: Seq<char>,
    e: Seq<char>,
)
    ensures
        x + m + n + s + st + e == x + (m + n + s + st + e),
{
    assert(x + m + n + s + st + e =~= x + (m + n + s + st + e));
}

proof fn lemma_grouped(
    p1: Seq<char>,
    a: Seq<char>,
    p2: Seq<char>,
    b: Seq<char>,
    p3: Seq<char>,
    c: Seq<char>,
    p4: Seq<char>,
    d: Seq<char>,
    tail: Seq<char>,
)
    ensures
        ({
            let all = p1 + a + p2 + b + p3 + c + p4 + d + tail;
            &&& all == p1 + a + (p2 + b + p3 + c + p4 + d + tail)
            &&& all == (p1 + a + p2) + b + (p3 + c + p4 + d + tail)
            &&& all == (p1 + a + p2 + b + p3) + c + (p4 + d + tail)
            &&& all == (p1 + a + p2 + b + p3 + c + p4) + d + tail
        }),
{
    let all = p1 + a + p2 + b + p3 + c + p4 + d + tail;
    assert(all =~= p1 + a + (p2 + b + p3 + c + p4 + d + tail));
    assert(all =~= (p1 + a + p2) + b + (p3 + c + p4 + d + tail));
    assert(all =~= (p1 + a + p2 + b + p3) + c + (p4 + d + tail));
}

/// A dialog's text in its parts.
proof fn lemma_text_parts(t: Talk, state: Seq<char>)
    ensures
        dialog_text(t, state) == "Dialog { blz: "@ + named_text("Blz"@, t.blz) + ", user_id: "@
            + named_text("UserId"@, t.user_id) + ", system_id: "@ + named_text(
            "SystemId"@,
            t.system_id,
        ) + ", dialog_id: "@ + named_text("DialogId"@, t.dialog_id) + text_end(t, state),
{
    let x = "Dialog { blz: "@ + named_text("Blz"@, t.blz) + ", user_id: "@ + named_text(
        "UserId"@,
        t.user_id,
    ) + ", system_id: "@ + named_text("SystemId"@, t.system_id) + ", dialog_id: "@ + named_text(
        "DialogId"@,
        t.dialog_id,
    );
    lemma_end_grouped(
        x,
        ", message_number: "@,
        decimal(t.message_number as nat),
        ", state: "@,
        std_debug_text(state),
        " }"@,
    );
}

/// Two dialogs that differ in their identifications alone.
proof fn lemma_shown(
    a: Seq<char>,
    b: Seq<char>,
    c: Seq<char>,
    d: Seq<char>,
    tail: Seq<char>,
    own: Seq<char>,
    x: Seq<char>,
    t: Talk,
    state: Seq<char>,
)
    requires
        a == named_text("Blz"@, t.blz),
        b == named_text("UserId"@, t.user_id),
        c == named_text("SystemId"@, t.system_id),
        d == named_text("DialogId"@, t.dialog_id),
        tail == text_end(t, state),
        own == dialog_text(t, state),
    ensures
        differ_in(own, dialog_text(Talk { blz: x, ..t }, state), "Blz"@, t.blz, x),
        differ_in(own, dialog_text(Talk { user_id: x, ..t }, state), "UserId"@, t.user_id, x),
        differ_in(own, dialog_text(Talk { system_id: x, ..t }, state), "SystemId"@, t.system_id, x),
        differ_in(own, dialog_text(Talk { dialog_id: x, ..t }, state), "DialogId"@, t.dialog_id, x),
{
    let p1 = "Dialog { blz: "@;
    let p2 = ", user_id: "@;
    let p3 = ", system_id: "@;
    let p4 = ", dialog_id: "@;
    lemma_text_parts(t, state);
    lemma_grouped(p1, a, p2, b, p3, c, p4, d, tail);
    assert(differ_in(own, dialog_text(Talk { blz: x, ..t }, state), "Blz"@, t.blz, x)) by {
        let n = named_text("Blz"@, x);
        let u = Talk { blz: x, ..t };
        lemma_text_parts(u, state);
        lemma_grouped(p1, n, p2, b, p3, c, p4, d, tail);
        lemma_differ_in(
            own,
            dialog_text(u, state),
            "Blz"@,
            t.blz,
            x,
            p1,
            p2 + b + p3 + c + p4 + d + tail,
        );
    }
    assert(differ_in(own, dialog_text(Talk { user_id: x, ..t }, state), "UserId"@, t.user_id, x)) by {
        let n = named_text("UserId"@, x);
        let u = Talk { user_id: x, ..t };
        lemma_text_parts(u, state);
        lemma_grouped(p1, a, p2, n, p3, c, p4, d, tail);
        lemma_differ_in(
            own,
            dialog_text(u, state),
            "UserId"@,
            t.user_id,
            x,
            p1 + a + p2,
            p3 + c + p4 + d + tail,
        );
    }
    assert(differ_in(
        own,
        dialog_text(Talk { system_id: x, ..t }, state),
        "SystemId"@,
        t.system_id,
        x,
    )) by {
        let n = named_text("SystemId"@, x);
        let u = Talk { system_id: x, ..t };
        lemma_text_parts(u, state);
        lemma_grouped(p1, a, p2, b, p3, n, p4, d, tail);
        lemma_differ_in(
            own,
            dialog_text(u, state),
            "SystemId"@,
            t.system_id,
            x,
            p1 + a + p2 + b + p3,
            p4 + d + tail,
        );
    }
    assert(differ_in(
        own,
        dialog_text(Talk { dialog_id: x, ..t }, state),
        "DialogId"@,
        t.dialog_id,
        x,
    )) by {
        let n = named_text("DialogId"@, x);
        let u = Talk { dialog_id: x, ..t };
        lemma_text_parts(u, state);
        lemma_grouped(p1, a, p2, b, p3, c, p4, n, tail);
        lemma_differ_in(
            own,
            dialog_text(u, state),
            "DialogId"@,
            t.dialog_id,
            x,
            p1 + a + p2 + b + p3 + c + p4,
            tail,
        );
    }
}

/// Bank, user, system and dialog are each written for debugging under their own
/// name.
pub proof fn law_written_under_names(t: Talk, x: Seq<char>, state: Seq<char>)
    ensures
        ({
            let own = dialog_text(t, state);
            &&& differ_in(own, dialog_text(Talk { blz: x, ..t }, state), "Blz"@, t.blz, x)
            &&& differ_in(
                own,
                dialog_text(Talk { user_id: x, ..t }, state),
                "UserId"@,
                t.user_id,
                x,
            )
            &&& differ_in(
                own,
                dialog_text(Talk { system_id: x, ..t }, state),
                "SystemId"@,
                t.system_id,
                x,
            )
            &&& differ_in(
                own,
                dialog_text(Talk { dialog_id: x, ..t }, state),
                "DialogId"@,
                t.dialog_id,
                x,
            )
        }),
{
    lemma_shown(
        named_text("Blz"@, t.blz),
        named_text("UserId"@, t.user_id),
        named_text("SystemId"@, t.system_id),
        named_text("DialogId"@, t.dialog_id),
        text_end(t, state),
        dialog_text(t, state),
        x,
        t,
        state,
    );
}

/// A dialog is written for debugging with the number of its next message and its
/// state at the end.
pub proof fn law_number_written(t: Talk, state: Seq<char>)
    ensures
        exists|front: Seq<char>|
            #[trigger] (front + ", message_number: "@) + decimal(t.message_number as nat)
                + ", state: "@ + std_debug_text(state) + " }"@ == dialog_text(t, state),
{
    let front = "Dialog { blz: "@ + named_text("Blz"@, t.blz) + ", user_id: "@ + named_text(
        "UserId"@,
        t.user_id,
    ) + ", system_id: "@ + named_text("SystemId"@, t.system_id) + ", dialog_id: "@ + named_text(
        "DialogId"@,
        t.dialog_id,
    );
    assert((front + ", message_number: "@) + decimal(t.message_number as nat) + ", state: "@
        + std_debug_text(state) + " }"@ =~= dialog_text(t, state));
}

} // verus!
