//! What a bank reads in the messages of a client.

use vstd::prelude::*;

use crate::dates::compact_text;
use crate::element::{
    bytes_at, element_at, element_bytes, element_text, group_at, text_at, type_of, version_of,
    Group,
};
use crate::message::{
    law_message_read, law_stated_size, message_failure, message_size, message_wire,
    numbered_orders, signed_segments, Seal, Sender,
};
use crate::numbers::{decimal, digits_value};
use crate::params::{
    hktan_version_of, law_version_bounds, lemma_highest_version, version_for, Params,
};
use crate::parser::parsed_message;
use crate::reply::flattened;
use crate::request::{at_least, order_groups, Order};
use crate::roundtrip::{read_back, read_back_element, read_back_group, read_back_segment};
use crate::segments::builder::{hnhbk_model, hnhbs_model, hnsha_model, hnshk_model, hnvsk_model};
use crate::segments::response::highest_version;
use crate::segments::stated::{
    addresses, headed, law_balance_request, law_challenge_request, law_dialog_end,
    law_encryption_header, law_holdings_request, law_identification, law_message_header,
    law_message_trailer, law_preparation, law_signature_header, law_signature_trailer,
    law_synchronization, law_task_request, law_transactions_range, lemma_stated_text,
};
use crate::serializer::{
    lemma_trimmed_group, lemma_trimmed_segment, trimmed_group, trimmed_segment,
};

verus! {

// ---- Reading keeps what is stated ----

proof fn lemma_rest_empty(g: Group, j: int)
    requires
        trimmed_group(g).len() <= j < g.len(),
    ensures
        g[j] is Empty,
    decreases g.len(),
{
    if g.len() > 0 && g.last() is Empty && j < g.len() - 1 {
        lemma_rest_empty(g.drop_last(), j);
        assert(g.drop_last()[j] == g[j]);
    }
}

proof fn lemma_rest_blank(seg: Seq<Group>, i: int)
    requires
        trimmed_segment(seg).len() <= i < seg.len(),
    ensures
        trimmed_group(seg[i]).len() == 0,
    decreases seg.len(),
{
    if seg.len() > 0 && trimmed_group(seg.last()).len() == 0 && i < seg.len() - 1 {
        lemma_rest_blank(seg.drop_last(), i);
        assert(seg.drop_last()[i] == seg[i]);
    }
}

proof fn lemma_group_kept(g: Group, j: int)
    ensures
        element_text(element_at(read_back_group(g), j)) == element_text(element_at(g, j)),
        element_bytes(element_at(read_back_group(g), j)) == element_bytes(element_at(g, j)),
{
    let t = trimmed_group(g);
    lemma_trimmed_group(g);
    if 0 <= j < g.len() {
        if j < t.len() {
            assert(t[j] == g[j]);
            assert(read_back_group(g)[j] == read_back_element(g[j]));
            assert(element_text(read_back_element(g[j])) =~= element_text(g[j]));
        } else {
            lemma_rest_empty(g, j);
        }
    }
}

/// A segment that is read back states the same texts and bytes at the same
/// places.
pub proof fn law_texts_kept(seg: Seq<Group>, i: int, j: int)
    ensures
        text_at(read_back_segment(seg), i, j) == text_at(seg, i, j),
        bytes_at(read_back_segment(seg), i, j) == bytes_at(seg, i, j),
{
    let t = trimmed_segment(seg);
    lemma_trimmed_segment(seg);
    if 0 <= i < seg.len() {
        lemma_group_kept(seg[i], j);
        if i < t.len() {
            assert(t[i] == seg[i]);
            assert(read_back_segment(seg)[i] == read_back_group(seg[i]));
        } else {
            lemma_rest_blank(seg, i);
            assert(element_at(group_at(read_back_segment(seg), i), j) is Empty);
            assert(element_at(read_back_group(seg[i]), j) is Empty);
        }
    }
}

// ---- Orders ----

/// Whether a segment with a number, and with a version where there is a choice,
/// states what an order says.
pub open spec fn states_order(seg: Seq<Group>, o: Order, number: int, version: int) -> bool {
    match o {
        Order::Identify { blz, user_id, system_id } => {
            &&& headed(seg, "HKIDN"@, number, 2)
            &&& text_at(seg, 1, 0) == "280"@ && text_at(seg, 1, 1) == blz
            &&& text_at(seg, 2, 0) == user_id
            &&& text_at(seg, 3, 0) == system_id
            &&& text_at(seg, 4, 0) == "1"@
        },
        Order::ProcessPrep { bpd_version, upd_version, product_id } => {
            &&& headed(seg, "HKVVB"@, number, 3)
            &&& text_at(seg, 1, 0) == decimal(bpd_version as nat)
            &&& text_at(seg, 2, 0) == decimal(upd_version as nat)
            &&& text_at(seg, 3, 0) == "1"@
            &&& text_at(seg, 4, 0) == product_id
        },
        Order::Sync => headed(seg, "HKSYN"@, number, 3) && text_at(seg, 1, 0) == "0"@,
        Order::Balance { account } => {
            &&& headed(seg, "HKSAL"@, number, version)
            &&& seg.len() >= 2 && addresses(seg[1], version, 6, account.iban, account.bic)
            &&& text_at(seg, 2, 0) == "N"@
            &&& text_at(seg, 4, 0).len() == 0
        },
        Order::Transactions { account, start_date, end_date, touchdown } => {
            &&& headed(seg, "HKKAZ"@, number, version)
            &&& seg.len() >= 2 && addresses(seg[1], version, 6, account.iban, account.bic)
            &&& text_at(seg, 2, 0) == "N"@
            &&& text_at(seg, 3, 0) == compact_text(start_date)
            &&& text_at(seg, 4, 0) == compact_text(end_date)
            &&& match touchdown {
                Some(td) => text_at(seg, 6, 0) == td,
                None => text_at(seg, 6, 0).len() == 0,
            }
        },
        Order::Holdings { account, currency, touchdown } => {
            &&& headed(seg, "HKWPD"@, number, version)
            &&& seg.len() >= 2 && addresses(seg[1], version, 7, account.iban, account.bic)
            &&& match currency {
                Some(c) => text_at(seg, 2, 0) == c,
                None => text_at(seg, 2, 0).len() == 0,
            }
            &&& match touchdown {
                Some(td) => text_at(seg, 5, 0) == td,
                None => text_at(seg, 5, 0).len() == 0,
            }
        },
        Order::TanProcess4 { reference_seg, tan_medium } => {
            &&& headed(seg, "HKTAN"@, number, version)
            &&& text_at(seg, 1, 0) == "4"@
            &&& text_at(seg, 2, 0) == reference_seg
            &&& tan_medium matches Some(name) ==> text_at(
                seg,
                if version >= 6 {
                    11
                } else {
                    3
                },
                0,
            ) == name
        },
        Order::TanPollDecoupled { task_reference, tan_medium } => states_task(
            seg,
            "S"@,
            number,
            version,
            task_reference,
            tan_medium,
        ),
        Order::TanProcess2 { task_reference, tan_medium } => states_task(
            seg,
            "2"@,
            number,
            version,
            task_reference,
            tan_medium,
        ),
        Order::End { dialog_id } => headed(seg, "HKEND"@, number, 1) && text_at(seg, 1, 0)
            == dialog_id,
    }
}

/// A TAN segment on a task that is under way.
pub open spec fn states_task(
    seg: Seq<Group>,
    process: Seq<char>,
    number: int,
    version: int,
    task: Seq<char>,
    medium: Option<Seq<char>>,
) -> bool {
    &&& headed(seg, "HKTAN"@, number, version)
    &&& text_at(seg, 1, 0) == process
    &&& text_at(
        seg,
        if version >= 6 {
            5
        } else {
            4
        },
        0,
    ) == task
    &&& medium matches Some(name) ==> text_at(
        seg,
        if version >= 6 {
            11
        } else {
            6
        },
        0,
    ) == name
}

/// The version that an order's segment has.
pub open spec fn order_version(o: Order, p: Params) -> int {
    match o {
        Order::Balance { .. } => at_least(version_for(p, "HISALS"@, 7), 5),
        Order::Transactions { .. } => at_least(version_for(p, "HIKAZS"@, 7), 5),
        Order::Holdings { .. } => at_least(version_for(p, "HIWPDS"@, 7), 1),
        _ => hktan_version_of(p),
    }
}

/// The segment of an order states what the order says.
pub proof fn law_order_stated(o: Order, p: Params)
    ensures
        states_order(order_groups(o, p), o, 0, order_version(o, p)),
{
    broadcast use lemma_stated_text;

    let v = order_version(o, p);
    match o {
        Order::Identify { blz, user_id, system_id } => {
            law_identification(0, blz, user_id, system_id);
        },
        Order::ProcessPrep { bpd_version, upd_version, product_id } => {
            law_preparation(0, bpd_version, upd_version, product_id);
        },
        Order::Sync => {
            law_synchronization(0);
        },
        Order::Balance { account } => {
            law_balance_request(0, v, account.iban, account.bic, ""@);
        },
        Order::Transactions { account, start_date, end_date, touchdown } => {
            law_transactions_range(
                0,
                v,
                account.iban,
                account.bic,
                start_date,
                end_date,
                touchdown,
            );
        },
        Order::Holdings { account, currency, touchdown } => {
            law_holdings_request(0, v, account.iban, account.bic, currency, ""@);
        },
        Order::TanProcess4 { reference_seg, tan_medium } => {
            law_challenge_request(0, v, reference_seg, tan_medium);
        },
        Order::TanPollDecoupled { task_reference, tan_medium } => {
            law_task_request("S"@, 0, v, task_reference, tan_medium);
        },
        Order::TanProcess2 { task_reference, tan_medium } => {
            law_task_request("2"@, 0, v, task_reference, tan_medium);
        },
        Order::End { dialog_id } => {
            law_dialog_end(0, dialog_id);
        },
    }
}

// ---- Versions ----

/// Whether the bank offers a version of a parameter segment.
pub open spec fn offers(p: Params, param_type: Seq<char>, version: int) -> bool {
    exists|i: int|
        0 <= i < p.bpd_segments.len() && type_of(#[trigger] p.bpd_segments[i]) == param_type
            && version_of(p.bpd_segments[i]) == version
}

proof fn lemma_highest_offered(segs: Seq<Seq<Group>>, t: Seq<char>, max: int)
    requires
        0 <= max,
    ensures
        highest_version(segs, t, max) > 0 ==> exists|i: int|
            0 <= i < segs.len() && type_of(#[trigger] segs[i]) == t && version_of(segs[i])
                == highest_version(segs, t, max),
    decreases segs.len(),
{
    if segs.len() > 0 {
        let init = segs.drop_last();
        lemma_highest_offered(init, t, max);
        assert(segs[segs.len() - 1] == segs.last());
        if highest_version(segs, t, max) > 0 && highest_version(segs, t, max) == highest_version(
            init,
            t,
            max,
        ) {
            let i = choose|i: int|
                0 <= i < init.len() && type_of(#[trigger] init[i]) == t && version_of(init[i])
                    == highest_version(init, t, max);
            assert(segs[i] == init[i]);
        }
    }
}

/// The version for a kind of segment is one that the bank offers, or the
/// client's own where the bank offers none that the client knows.
pub proof fn law_version_offered(p: Params, param_type: Seq<char>, max_version: int)
    requires
        0 < max_version,
    ensures
        offers(p, param_type, version_for(p, param_type, max_version)) || version_for(
            p,
            param_type,
            max_version,
        ) == max_version,
        forall|v: int|
            0 < v <= max_version && #[trigger] offers(p, param_type, v) ==> v <= version_for(
                p,
                param_type,
                max_version,
            ) && offers(p, param_type, version_for(p, param_type, max_version)),
{
    lemma_highest_version(p.bpd_segments, param_type, max_version);
    lemma_highest_offered(p.bpd_segments, param_type, max_version);
    let h = highest_version(p.bpd_segments, param_type, max_version);
    if h > 0 {
        let i = choose|i: int|
            0 <= i < p.bpd_segments.len() && type_of(#[trigger] p.bpd_segments[i]) == param_type
                && version_of(p.bpd_segments[i]) == h;
        assert(offers(p, param_type, h));
    }
    assert forall|v: int| 0 < v <= max_version && #[trigger] offers(p, param_type, v) implies v
        <= version_for(p, param_type, max_version) && offers(
        p,
        param_type,
        version_for(p, param_type, max_version),
    ) by {
        let i = choose|i: int|
            0 <= i < p.bpd_segments.len() && type_of(#[trigger] p.bpd_segments[i]) == param_type
                && version_of(p.bpd_segments[i]) == v;
        assert(h >= v);
    }
}

/// The parameter segment that describes the segment of a business order.
pub open spec fn parameters_for(o: Order) -> Seq<char> {
    match o {
        Order::Balance { .. } => "HISALS"@,
        Order::Transactions { .. } => "HIKAZS"@,
        _ => "HIWPDS"@,
    }
}

/// Business segments have the highest version up to 7 that the bank offers for
/// them, but no less than 5 for balances and transactions; version 7 where the
/// bank offers none.
pub proof fn law_business_versions(o: Order, p: Params, v: int)
    requires
        o is Balance || o is Transactions || o is Holdings,
    ensures
        ({
            let t = parameters_for(o);
            let stated = order_groups(o, p)[0][2];
            let chosen = order_version(o, p);
            &&& element_text(stated) == decimal(chosen as nat)
            &&& chosen <= 7
            &&& o is Holdings || chosen >= 5
            &&& 0 < v <= 7 && offers(p, t, v) ==> v <= chosen && (offers(p, t, chosen) || chosen
                == 5)
            &&& (forall|w: int| 0 < w <= 7 ==> !#[trigger] offers(p, t, w)) ==> chosen == 7
        }),
{
    let t = parameters_for(o);
    law_order_stated(o, p);
    law_version_offered(p, t, 7);
    law_version_bounds(p, t, 7);
    lemma_highest_version(p.bpd_segments, t, 7);
    let u = version_for(p, t, 7);
    assert(0 < u <= 7);
    if 0 < v <= 7 && offers(p, t, v) {
        assert(offers(p, t, u));
    }
    if forall|w: int| 0 < w <= 7 ==> !#[trigger] offers(p, t, w) {
        assert(!offers(p, t, u));
    }
}

// ---- Messages ----

/// The segments that a bank reads in a message.
pub open spec fn delivered(s: Sender, seal: Seal, orders: Seq<Order>, p: Params) -> Seq<Seq<Group>> {
    flattened(parsed_message(message_wire(s, seal, orders, p))->0)
}

proof fn lemma_delivered(s: Sender, seal: Seal, orders: Seq<Order>, p: Params, k: int)
    requires
        message_failure(s, seal, orders, p) is None,
        0 <= s.message_number,
    ensures
        delivered(s, seal, orders, p).len() == orders.len() + 5,
        delivered(s, seal, orders, p)[0] == read_back_segment(
            hnhbk_model(message_size(s, seal, orders, p), s.dialog_id, s.message_number),
        ),
        delivered(s, seal, orders, p)[1] == read_back_segment(
            hnvsk_model(s.blz, s.user_id, s.system_id, seal.moment),
        ),
        delivered(s, seal, orders, p).last() == read_back_segment(
            hnhbs_model(4 + orders.len() as int, s.message_number),
        ),
        0 <= k < orders.len() + 2 ==> delivered(s, seal, orders, p)[k + 2] == read_back_segment(
            signed_segments(s, seal, orders, p)[k],
        ),
{
    law_message_read(s, seal, orders, p);
    let signed = signed_segments(s, seal, orders, p);
    let back = read_back(signed);
    assert(signed.len() == orders.len() + 2);
    if 0 <= k < signed.len() {
        assert(back[k] == read_back_segment(signed[k]));
        assert(delivered(s, seal, orders, p)[k + 2] == back[k]);
    }
}

/// The bank reads in a message its size, the dialog and the number, and in both
/// headers who has sent it, from which system and when.
pub proof fn law_frame_delivered(s: Sender, seal: Seal, orders: Seq<Order>, p: Params)
    requires
        message_failure(s, seal, orders, p) is None,
        0 <= s.message_number,
    ensures
        parsed_message(message_wire(s, seal, orders, p)) is Some,
        ({
            let read = delivered(s, seal, orders, p);
            &&& read.len() == orders.len() + 5
            &&& type_of(read[0]) == "HNHBK"@
            &&& digits_value(text_at(read[0], 1, 0)) == message_wire(s, seal, orders, p).len()
            &&& text_at(read[0], 3, 0) == s.dialog_id
            &&& text_at(read[0], 4, 0) == decimal(s.message_number as nat)
            &&& type_of(read[1]) == "HNVSK"@
            &&& text_at(read[1], 4, 2) == s.system_id
            &&& text_at(read[1], 5, 1) == seal.moment.date
            &&& text_at(read[1], 5, 2) == seal.moment.time
            &&& text_at(read[1], 7, 1) == s.blz
            &&& text_at(read[1], 7, 2) == s.user_id
            &&& type_of(read.last()) == "HNHBS"@
            &&& text_at(read.last(), 1, 0) == decimal(s.message_number as nat)
        }),
{
    let size = message_size(s, seal, orders, p);
    let head = hnhbk_model(size, s.dialog_id, s.message_number);
    let vsk = hnvsk_model(s.blz, s.user_id, s.system_id, seal.moment);
    let tail = hnhbs_model(4 + orders.len() as int, s.message_number);
    law_message_read(s, seal, orders, p);
    lemma_delivered(s, seal, orders, p, 0);
    law_stated_size(s, seal, orders, p);
    law_message_header(size, s.dialog_id, s.message_number);
    law_encryption_header(s.blz, s.user_id, s.system_id, seal.moment);
    law_message_trailer(4 + orders.len() as int, s.message_number);
    law_texts_kept(head, 0, 0);
    law_texts_kept(head, 1, 0);
    law_texts_kept(head, 3, 0);
    law_texts_kept(head, 4, 0);
    law_texts_kept(vsk, 0, 0);
    law_texts_kept(vsk, 4, 2);
    law_texts_kept(vsk, 5, 1);
    law_texts_kept(vsk, 5, 2);
    law_texts_kept(vsk, 7, 1);
    law_texts_kept(vsk, 7, 2);
    law_texts_kept(tail, 0, 0);
    law_texts_kept(tail, 1, 0);
}

/// The bank reads at both ends of the signature the same reference, and in its
/// header the security function, the system, the moment, the bank and the user,
/// and in its trailer the PIN and the TAN.
pub proof fn law_signature_delivered(s: Sender, seal: Seal, orders: Seq<Order>, p: Params)
    requires
        message_failure(s, seal, orders, p) is None,
        0 <= s.message_number,
    ensures
        ({
            let read = delivered(s, seal, orders, p);
            let head = read[2];
            let tail = read[orders.len() as int + 3];
            &&& type_of(head) == "HNSHK"@
            &&& text_at(head, 0, 1) == decimal(2)
            &&& text_at(head, 2, 0) == s.security_function
            &&& text_at(head, 3, 0) == decimal(seal.reference as nat)
            &&& text_at(head, 6, 2) == s.system_id
            &&& text_at(head, 8, 1) == seal.moment.date
            &&& text_at(head, 8, 2) == seal.moment.time
            &&& text_at(head, 11, 1) == s.blz
            &&& text_at(head, 11, 2) == s.user_id
            &&& type_of(tail) == "HNSHA"@
            &&& text_at(tail, 1, 0) == decimal(seal.reference as nat)
            &&& text_at(tail, 3, 0) == s.pin
            &&& match seal.tan {
                Some(t) => text_at(tail, 3, 1) == t,
                None => text_at(tail, 3, 1).len() == 0,
            }
        }),
{
    let signed = signed_segments(s, seal, orders, p);
    let n = orders.len() as int;
    lemma_delivered(s, seal, orders, p, 0);
    lemma_delivered(s, seal, orders, p, n + 1);
    let head = signed[0];
    let tail = signed[n + 1];
    assert(head == hnshk_model(
        2,
        s.security_function,
        seal.reference,
        s.blz,
        s.user_id,
        s.system_id,
        seal.moment,
    ));
    assert(tail == hnsha_model(3 + n, seal.reference, s.pin, seal.tan));
    law_signature_header(
        2,
        s.security_function,
        seal.reference,
        s.blz,
        s.user_id,
        s.system_id,
        seal.moment,
    );
    law_signature_trailer(3 + n, seal.reference, s.pin, seal.tan);
    law_texts_kept(head, 0, 0);
    law_texts_kept(head, 0, 1);
    law_texts_kept(head, 2, 0);
    law_texts_kept(head, 3, 0);
    law_texts_kept(head, 6, 2);
    law_texts_kept(head, 8, 1);
    law_texts_kept(head, 8, 2);
    law_texts_kept(head, 11, 1);
    law_texts_kept(head, 11, 2);
    law_texts_kept(tail, 0, 0);
    law_texts_kept(tail, 1, 0);
    law_texts_kept(tail, 3, 0);
    law_texts_kept(tail, 3, 1);
}

/// The bank reads the orders in their order between both ends of the signature,
/// numbered from 3 on, each with the texts that the order's segment states.
pub proof fn law_orders_delivered(
    s: Sender,
    seal: Seal,
    orders: Seq<Order>,
    p: Params,
    k: int,
    i: int,
    j: int,
)
    requires
        message_failure(s, seal, orders, p) is None,
        0 <= s.message_number,
        0 <= k < orders.len(),
    ensures
        ({
            let read = delivered(s, seal, orders, p)[k + 3];
            &&& text_at(read, 0, 1) == decimal((k + 3) as nat)
            &&& i != 0 || j != 1 ==> text_at(read, i, j) == text_at(
                order_groups(orders[k], p),
                i,
                j,
            )
            &&& states_order(order_groups(orders[k], p), orders[k], 0, order_version(orders[k], p))
        }),
{
    law_order_stated(orders[k], p);
    lemma_delivered(s, seal, orders, p, k + 1);
    let seg = signed_segments(s, seal, orders, p)[k + 1];
    let own = order_groups(orders[k], p);
    assert(seg == numbered_orders(orders, p)[k]);
    assert(own.len() > 0 && own[0].len() == 3);
    law_texts_kept(seg, 0, 1);
    law_texts_kept(seg, i, j);
    if 0 < i < own.len() {
        assert(seg[i] == own[i]);
    }
}

} // verus!
