//! The course of a dialog: what it sends, and what it makes of the answers.

use vstd::prelude::*;


use crate::dates::{Moment, Ymd};
use crate::delivered::{
    delivered, law_frame_delivered, law_order_stated, law_orders_delivered,
    law_signature_delivered, order_version, states_order,
};
use crate::dialog::{
    balance_of, business_orders, challenge_order, ended, holdings_of, holdings_readable,
    init_challenge, init_orders, initialized, plain_init_of, plain_init_orders, poll_of, sender_of,
    settled, started, submission_of, sync_of, sync_orders, transactions_of, BalanceOutcome,
    HoldingsOutcome, Talk, TransactionOutcome,
};
use crate::element::{text_at, type_of, Group};
use crate::error::Failure;
use crate::message::{message_failure, message_wire, Seal};
use crate::numbers::decimal;
use crate::params::{
    chosen_function, decoupled_method, hktan_version_of, law_learned_in_order, law_system_learned,
    learn_segments, learned, operation_needs_tan, Known, Params,
};
use crate::reply::{
    demands_tan, exempts, first_segment, reply_allowed, reply_challenge, reply_codes,
    reply_failure, reply_touchdown, Reply,
};
use crate::request::{order_groups, Order};
use crate::segments::response::{
    group_fits, hikaz_bytes, hisal_balance, hiwpd_holdings, holdings_fit, segment_fits,
};

verus! {

// ---- What a dialog sends ----

/// Whether a message, as the bank reads it, starts a dialog: it identifies the
/// bank, the user and the system of the dialog and prepares it with the versions
/// of the parameters that are known and the product.
pub open spec fn introduces(read: Seq<Seq<Group>>, t: Talk) -> bool {
    let identification = read[3];
    let preparation = read[4];
    &&& read.len() >= 7
    &&& type_of(identification) == "HKIDN"@
    &&& text_at(identification, 1, 0) == "280"@
    &&& text_at(identification, 1, 1) == t.blz
    &&& text_at(identification, 2, 0) == t.user_id
    &&& text_at(identification, 3, 0) == t.system_id
    &&& type_of(preparation) == "HKVVB"@
    &&& text_at(preparation, 1, 0) == decimal(t.params.bpd_version as nat)
    &&& text_at(preparation, 2, 0) == decimal(t.params.upd_version as nat)
    &&& text_at(preparation, 4, 0) == t.product_id
}

proof fn lemma_introduced(t: Talk, seal: Seal, orders: Seq<Order>, p: Params)
    requires
        message_failure(sender_of(t), seal, orders, p) is None,
        0 <= t.message_number,
        orders.len() >= 2,
        orders[0] == plain_init_orders(t)[0],
        orders[1] == plain_init_orders(t)[1],
    ensures
        introduces(delivered(sender_of(t), seal, orders, p), t),
{
    let s = sender_of(t);
    law_frame_delivered(s, seal, orders, p);
    law_orders_delivered(s, seal, orders, p, 0, 0, 0);
    law_orders_delivered(s, seal, orders, p, 0, 1, 0);
    law_orders_delivered(s, seal, orders, p, 0, 1, 1);
    law_orders_delivered(s, seal, orders, p, 0, 2, 0);
    law_orders_delivered(s, seal, orders, p, 0, 3, 0);
    law_orders_delivered(s, seal, orders, p, 1, 0, 0);
    law_orders_delivered(s, seal, orders, p, 1, 1, 0);
    law_orders_delivered(s, seal, orders, p, 1, 2, 0);
    law_orders_delivered(s, seal, orders, p, 1, 4, 0);
}

/// The first message of a synchronization introduces the dialog and asks for a
/// system identification.
pub proof fn law_synchronization_sent(t: Talk, seal: Seal)
    requires
        message_failure(sender_of(t), seal, sync_orders(t), t.params) is None,
        0 <= t.message_number,
    ensures
        ({
            let read = delivered(sender_of(t), seal, sync_orders(t), t.params);
            &&& introduces(read, t)
            &&& read.len() == 8
            &&& type_of(read[5]) == "HKSYN"@
            &&& text_at(read[5], 1, 0) == "0"@
        }),
{
    let s = sender_of(t);
    let orders = sync_orders(t);
    lemma_introduced(t, seal, orders, t.params);
    law_frame_delivered(s, seal, orders, t.params);
    law_orders_delivered(s, seal, orders, t.params, 2, 0, 0);
    law_orders_delivered(s, seal, orders, t.params, 2, 1, 0);
}

/// The first message of a normal dialog introduces it. Unless every read needs
/// the PIN alone it asks for a challenge for the identification, on the TAN medium
/// that is selected.
pub proof fn law_initialization_sent(t: Talk, seal: Seal)
    requires
        message_failure(sender_of(t), seal, init_orders(t), t.params) is None,
        0 <= t.message_number,
    ensures
        ({
            let read = delivered(sender_of(t), seal, init_orders(t), t.params);
            &&& introduces(read, t)
            &&& if operation_needs_tan(t.params, "HKSAL"@) || operation_needs_tan(
                t.params,
                "HKKAZ"@,
            ) || operation_needs_tan(t.params, "HKWPD"@) {
                &&& read.len() == 8
                &&& type_of(read[5]) == "HKTAN"@
                &&& text_at(read[5], 1, 0) == "4"@
                &&& text_at(read[5], 2, 0) == "HKIDN"@
                &&& t.params.selected_tan_medium matches Some(m) ==> text_at(
                    read[5],
                    if hktan_version_of(t.params) >= 6 {
                        11
                    } else {
                        3
                    },
                    0,
                ) == m
            } else {
                read.len() == 7
            }
        }),
{
    let s = sender_of(t);
    let orders = init_orders(t);
    lemma_introduced(t, seal, orders, t.params);
    law_frame_delivered(s, seal, orders, t.params);
    if orders.len() == 3 {
        law_orders_delivered(s, seal, orders, t.params, 2, 0, 0);
        law_orders_delivered(s, seal, orders, t.params, 2, 1, 0);
        law_orders_delivered(s, seal, orders, t.params, 2, 2, 0);
        law_orders_delivered(s, seal, orders, t.params, 2, 11, 0);
        law_orders_delivered(s, seal, orders, t.params, 2, 3, 0);
    }
}

/// The first message of a dialog with the PIN alone introduces it and does
/// nothing more.
pub proof fn law_plain_initialization_sent(t: Talk, seal: Seal)
    requires
        message_failure(sender_of(t), seal, plain_init_orders(t), t.params) is None,
        0 <= t.message_number,
    ensures
        introduces(delivered(sender_of(t), seal, plain_init_orders(t), t.params), t),
        delivered(sender_of(t), seal, plain_init_orders(t), t.params).len() == 7,
{
    lemma_introduced(t, seal, plain_init_orders(t), t.params);
    law_frame_delivered(sender_of(t), seal, plain_init_orders(t), t.params);
}

/// Every message of a dialog goes to the dialog with the next number. It is
/// signed with the security function that is selected, by the user of the dialog
/// and with the PIN.
pub proof fn law_dialog_signs(t: Talk, seal: Seal, orders: Seq<Order>)
    requires
        message_failure(sender_of(t), seal, orders, t.params) is None,
        0 <= t.message_number,
    ensures
        ({
            let read = delivered(sender_of(t), seal, orders, t.params);
            let tail = read[orders.len() as int + 3];
            &&& text_at(read[0], 3, 0) == t.dialog_id
            &&& text_at(read[0], 4, 0) == decimal(t.message_number as nat)
            &&& type_of(read[2]) == "HNSHK"@
            &&& text_at(read[2], 2, 0) == t.params.selected_security_function
            &&& text_at(read[2], 6, 2) == t.system_id
            &&& text_at(read[2], 11, 1) == t.blz
            &&& text_at(read[2], 11, 2) == t.user_id
            &&& type_of(tail) == "HNSHA"@
            &&& text_at(tail, 3, 0) == t.pin
        }),
{
    law_frame_delivered(sender_of(t), seal, orders, t.params);
    law_signature_delivered(sender_of(t), seal, orders, t.params);
}

/// A business order is sent as it stands. On its first page a challenge for it is
/// asked for where the operation needs a TAN.
pub proof fn law_business_sent(t: Talk, order: Order, seg_type: Seq<char>, first_page: bool)
    ensures
        ({
            let orders = business_orders(t, order, seg_type, first_page);
            let version = order_version(challenge_order(t, seg_type), t.params);
            &&& states_order(
                order_groups(orders[0], t.params),
                order,
                0,
                order_version(order, t.params),
            )
            &&& orders.len() == 2 ==> {
                let seg = order_groups(orders[1], t.params);
                &&& type_of(seg) == "HKTAN"@
                &&& text_at(seg, 1, 0) == "4"@
                &&& text_at(seg, 2, 0) == seg_type
                &&& t.params.selected_tan_medium matches Some(m) ==> text_at(
                    seg,
                    if version >= 6 {
                        11
                    } else {
                        3
                    },
                    0,
                ) == m
            }
        }),
{
    law_order_stated(order, t.params);
    law_order_stated(challenge_order(t, seg_type), t.params);
}

/// A dialog that ends says so to the bank, in the dialog and with the number that
/// it has, and forgets the identification.
pub proof fn law_end_sent(
    before: Talk,
    after: Talk,
    bytes: Seq<u8>,
    reference: int,
    m: Moment,
)
    requires
        ended(before, after, Ok(Some(bytes)), reference, m),
        0 <= before.message_number,
    ensures
        ({
            let seal = Seal { tan: None, reference, moment: m };
            let orders = seq![Order::End { dialog_id: before.dialog_id }];
            let read = delivered(sender_of(before), seal, orders, before.params);
            &&& bytes == message_wire(sender_of(before), seal, orders, before.params)
            &&& read.len() == 6
            &&& text_at(read[0], 3, 0) == before.dialog_id
            &&& text_at(read[0], 4, 0) == decimal(before.message_number as nat)
            &&& type_of(read[3]) == "HKEND"@
            &&& text_at(read[3], 1, 0) == before.dialog_id
        }),
        after.dialog_id == "0"@,
        after.message_number == before.message_number + 1,
        after == (Talk {
            dialog_id: after.dialog_id,
            message_number: after.message_number,
            ..before
        }),
{
    let seal = Seal { tan: None, reference, moment: m };
    let orders = seq![Order::End { dialog_id: before.dialog_id }];
    law_dialog_signs(before, seal, orders);
    law_frame_delivered(sender_of(before), seal, orders, before.params);
    law_orders_delivered(sender_of(before), seal, orders, before.params, 0, 0, 0);
    law_orders_delivered(sender_of(before), seal, orders, before.params, 0, 1, 0);
}

// ---- What a dialog makes of the answers ----

/// A dialog takes over the identification that the header of the first answer
/// states, unless that is empty or 0.
pub proof fn law_dialog_id_taken(t: Talk, r: Reply)
    ensures
        match first_segment(r.segments, "HNHBK"@) {
            Some(header) => if text_at(header, 3, 0).len() > 0 && text_at(header, 3, 0) != "0"@ {
                started(t, r).dialog_id == text_at(header, 3, 0)
            } else {
                started(t, r).dialog_id == t.dialog_id
            },
            None => started(t, r).dialog_id == t.dialog_id,
        },
{
}

/// A dialog takes over the last system identification that an answer states in a
/// HISYN segment.
pub proof fn law_system_id_taken(
    t: Talk,
    r: Reply,
    a: Seq<Seq<Group>>,
    seg: Seq<Group>,
    b: Seq<Seq<Group>>,
)
    requires
        r.segments == a.push(seg) + b,
        type_of(seg) == "HISYN"@,
        text_at(seg, 1, 0).len() > 0,
        forall|i: int| 0 <= i < b.len() ==> type_of(#[trigger] b[i]) != "HISYN"@,
    ensures
        started(t, r).system_id == text_at(seg, 1, 0),
        settled(started(t, r)).system_id == text_at(seg, 1, 0),
{
    let k = Known { params: t.params, system_id: t.system_id };
    law_learned_in_order(k, a.push(seg), b);
    let mid = learn_segments(k, a.push(seg));
    assert(a.push(seg).drop_last() =~= a);
    law_system_learned(learn_segments(k, a), seg);
    lemma_system_kept(mid, b);
}

proof fn lemma_system_kept(k: Known, segs: Seq<Seq<Group>>)
    requires
        forall|i: int| 0 <= i < segs.len() ==> type_of(#[trigger] segs[i]) != "HISYN"@,
    ensures
        learn_segments(k, segs).system_id == k.system_id,
    decreases segs.len(),
{
    if segs.len() > 0 {
        let init = segs.drop_last();
        assert forall|i: int| 0 <= i < init.len() implies type_of(#[trigger] init[i])
            != "HISYN"@ by {
            assert(init[i] == segs[i]);
        }
        lemma_system_kept(k, init);
        assert(segs[segs.len() - 1] == segs.last());
        law_system_learned(learn_segments(k, init), segs.last());
    }
}

/// A synchronization fails with the error of the answer unless a TAN is demanded.
/// Otherwise the dialog knows what the answer tells, and has a security function
/// chosen for it.
pub proof fn law_synchronized(t: Talk, r: Reply)
    ensures
        ({
            let told = learned(Known { params: t.params, system_id: t.system_id }, r);
            match sync_of(t, r) {
                Ok(after) => {
                    &&& reply_failure(r) is None || demands_tan(reply_codes(r))
                    &&& after.system_id == told.system_id
                    &&& after.params == (Params {
                        selected_security_function: chosen_function(told.params),
                        ..told.params
                    })
                    &&& after.blz == t.blz && after.user_id == t.user_id && after.pin == t.pin
                    &&& after.url == t.url && after.product_id == t.product_id
                    &&& after.message_number == t.message_number
                    &&& after.dialog_id == started(t, r).dialog_id
                },
                Err(f) => reply_failure(r) == Some(f) && !demands_tan(reply_codes(r)),
            }
        }),
{
}

/// An initialization with the PIN alone fails with the error of the answer.
/// Otherwise the dialog is open and knows what the answer tells.
pub proof fn law_plainly_initialized(t: Talk, r: Reply)
    ensures
        ({
            let told = learned(Known { params: t.params, system_id: t.system_id }, r);
            match plain_init_of(t, r) {
                Ok(after) => {
                    &&& reply_failure(r) is None
                    &&& after.system_id == told.system_id
                    &&& after.params == told.params
                    &&& after.blz == t.blz && after.user_id == t.user_id && after.pin == t.pin
                    &&& after.url == t.url && after.product_id == t.product_id
                    &&& after.message_number == t.message_number
                    &&& after.dialog_id == started(t, r).dialog_id
                },
                Err(f) => reply_failure(r) == Some(f),
            }
        }),
{
}

/// After a normal initialization the dialog knows what the answer tells, and has
/// a security function chosen where the answer says which are allowed.
pub proof fn law_initialized(t: Talk, r: Reply)
    ensures
        ({
            let told = learned(Known { params: t.params, system_id: t.system_id }, r);
            let after = initialized(t, r);
            &&& after.system_id == told.system_id
            &&& after.params == (Params {
                selected_security_function: if reply_allowed(r).len() > 0 {
                    chosen_function(told.params)
                } else {
                    told.params.selected_security_function
                },
                ..told.params
            })
            &&& after.blz == t.blz && after.user_id == t.user_id && after.pin == t.pin
            &&& after.url == t.url && after.product_id == t.product_id
            &&& after.message_number == t.message_number
            &&& after.dialog_id == started(t, r).dialog_id
        }),
{
}

/// The challenge of an initialization is that of the answer where a TAN is
/// demanded; it is decoupled where the answer or the selected method says so.
pub proof fn law_init_challenge(t: Talk, r: Reply)
    ensures
        match init_challenge(t, r) {
            Some(c) => {
                &&& demands_tan(reply_codes(r))
                &&& reply_challenge(r) matches Some(own)
                &&& c.challenge == own.challenge
                &&& c.challenge_hhduc == own.challenge_hhduc
                &&& c.task_reference == own.task_reference
                &&& c.decoupled <==> own.decoupled || decoupled_method(t.params)
            },
            None => !demands_tan(reply_codes(r)) || reply_challenge(r) is None,
        },
{
}

/// A submitted TAN, and a poll that is no longer pending, fail with the error of
/// the answer, or open the dialog with what the answer tells. A pending poll
/// changes nothing.
pub proof fn law_confirmed(t: Talk, r: Reply)
    ensures
        ({
            let told = learned(Known { params: t.params, system_id: t.system_id }, r);
            match submission_of(t, r) {
                Ok(after) => reply_failure(r) is None && after == (Talk {
                    params: told.params,
                    system_id: told.system_id,
                    ..t
                }),
                Err(f) => reply_failure(r) == Some(f),
            }
        }),
        poll_of(t, r) == Ok::<Option<Talk>, Failure>(None) <==> exists|i: int|
            0 <= i < reply_codes(r).len() && (((
            #[trigger] reply_codes(r)[i]).kind is DecoupledInitiated) || (reply_codes(
                r,
            )[i].kind is DecoupledPending)),
        poll_of(t, r) matches Ok(Some(after)) ==> submission_of(t, r) == Ok::<Talk, Failure>(after),
        poll_of(t, r) matches Err(f) ==> submission_of(t, r) == Err::<Talk, Failure>(f),
{
}

/// Whatever was asked for, a challenge that is demanded without exemption comes
/// first, and then an error of the answer.
pub proof fn law_outcome_order(r: Reply, default_date: Ymd)
    ensures
        ({
            let blocked = demands_tan(reply_codes(r)) && !exempts(reply_codes(r))
                && reply_challenge(r) is Some;
            if blocked {
                let c = reply_challenge(r)->0;
                &&& balance_of(r, default_date) == Ok::<_, Failure>(BalanceOutcome::NeedTan(c))
                &&& transactions_of(r) == Ok::<_, Failure>(TransactionOutcome::NeedTan(c))
                &&& holdings_of(r) == Ok::<_, Failure>(HoldingsOutcome::NeedTan(c))
            } else {
                &&& !(balance_of(r, default_date) matches Ok(BalanceOutcome::NeedTan(_)))
                &&& !(transactions_of(r) matches Ok(TransactionOutcome::NeedTan(_)))
                &&& !(holdings_of(r) matches Ok(HoldingsOutcome::NeedTan(_)))
                &&& match reply_failure(r) {
                    Some(f) => {
                        &&& balance_of(r, default_date) == Err::<BalanceOutcome, _>(f)
                        &&& transactions_of(r) == Err::<TransactionOutcome, _>(f)
                        &&& holdings_of(r) == Err::<HoldingsOutcome, _>(f)
                    },
                    None => balance_of(r, default_date) is Ok && transactions_of(r) is Ok
                        && holdings_of(r) is Ok,
                }
            }
        }),
{
}

/// A balance is that of the first HISAL segment; without one that states a
/// balance there is none.
pub proof fn law_balance_delivered(r: Reply, default_date: Ymd)
    ensures
        balance_of(r, default_date) matches Ok(BalanceOutcome::Success(b)) ==> {
            &&& first_segment(r.segments, "HISAL"@) matches Some(seg)
            &&& hisal_balance(seg, default_date) == Some(b)
        },
        balance_of(r, default_date) matches Ok(BalanceOutcome::Empty) ==> (first_segment(
            r.segments,
            "HISAL"@,
        ) matches Some(seg) ==> hisal_balance(seg, default_date) is None),
{
}

/// A page of transactions has what the HIKAZ segments carry, booked at DEG 1 and
/// pending at DEG 2, and the point that the codes state.
pub proof fn law_transactions_delivered(r: Reply)
    ensures
        transactions_of(r) matches Ok(TransactionOutcome::Success(p)) ==> {
            &&& p.booked == hikaz_bytes(r.segments, 1)
            &&& p.pending == hikaz_bytes(r.segments, 2)
            &&& p.touchdown == reply_touchdown(r)
        },
{
}

/// A page of positions has those of the HIWPD segments and the point that the
/// codes state; it is empty where there is neither.
pub proof fn law_holdings_delivered(r: Reply)
    ensures
        holdings_of(r) matches Ok(HoldingsOutcome::Success(p)) ==> {
            &&& p.holdings == hiwpd_holdings(r.segments)
            &&& p.touchdown == reply_touchdown(r)
            &&& p.holdings.len() > 0 || p.touchdown is Some
        },
        holdings_of(r) matches Ok(HoldingsOutcome::Empty) ==> hiwpd_holdings(r.segments).len() == 0
            && reply_touchdown(r) is None,
{
}

/// Positions are read from an answer unless it demands a TAN, reports an error, or
/// shows a position whose market value cannot be held.
pub proof fn law_holdings_readable(r: Reply)
    ensures
        demands_tan(reply_codes(r)) && !exempts(reply_codes(r)) && reply_challenge(r) is Some
            ==> holdings_readable(r),
        reply_failure(r) is Some ==> holdings_readable(r),
        reply_failure(r) is None && !(demands_tan(reply_codes(r)) && !exempts(reply_codes(r))
            && reply_challenge(r) is Some) ==> (holdings_readable(r) <==> forall|i: int, j: int|
            0 <= i < r.segments.len() && type_of(#[trigger] r.segments[i]) == "HIWPD"@ && 2 <= j
                < r.segments[i].len() ==> group_fits(#[trigger] r.segments[i][j])),
{
    if reply_failure(r) is None {
        if holdings_fit(r.segments) {
            assert forall|i: int, j: int|
                0 <= i < r.segments.len() && type_of(#[trigger] r.segments[i]) == "HIWPD"@ && 2 <= j
                    < r.segments[i].len() implies group_fits(#[trigger] r.segments[i][j]) by {
                assert(segment_fits(r.segments[i]));
            }
        }
        if forall|i: int, j: int|
            0 <= i < r.segments.len() && type_of(#[trigger] r.segments[i]) == "HIWPD"@ && 2 <= j
                < r.segments[i].len() ==> group_fits(#[trigger] r.segments[i][j]) {
            assert forall|i: int| 0 <= i < r.segments.len() implies segment_fits(
                #[trigger] r.segments[i],
            ) by {
                let seg = r.segments[i];
                if type_of(seg) == "HIWPD"@ {
                    assert forall|j: int| 2 <= j < seg.len() implies group_fits(#[trigger] seg[j]) by {
                        assert(group_fits(r.segments[i][j]));
                    }
                }
            }
        }
    }
}

} // verus!
