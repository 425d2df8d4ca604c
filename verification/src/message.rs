//! Whole messages: signed, wrapped in a container, and framed.
//!
//! A message is its header HNHBK, the encryption header HNVSK, the container
//! HNVSD and the trailer HNHBS. In the container are the signature header HNSHK,
//! the request segments and the signature trailer HNSHA. Segment numbers run
//! from 1 (HNHBK) over HNSHK to HNHBS; HNVSK and HNVSD have fixed ones.

use vstd::prelude::*;

use crate::dates::{Moment, Timestamp};
use crate::element::{
    bytes_at, de_num, element_at, group_at, num_element, text_at, type_of, views, Element, Group, DEG,
};
use crate::error::{result_of, Failure, FinTSError, Result};
use crate::ids::{Blz, DialogId, Pin, SecurityFunction, SystemId, UserId};
use crate::numbers::{decimal, lemma_decimal_digits, padded};
use crate::params::{BankParams, Params};
use crate::parser::parsed_message;
use crate::reply::{flattened, unwrapped};
use crate::request::{order_groups, Order, Segment};
use crate::roundtrip::{
    law_read_back, read_back, read_back_element, read_back_group, read_back_segment,
};
use crate::segments::builder::{
    header_group, hnhbk, hnhbk_model, hnhbs, hnhbs_model, hnsha, hnsha_model, hnshk_at, hnshk_model,
    hnvsd, hnvsd_model, hnvsk_at, hnvsk_model, text_group,
};
use crate::serializer::{
    element_wire, group_encodable, group_parts, group_wire, joined, segment_encodable,
    segment_parts, segment_wire, segments_wire, serialize_segment, text_wire, trimmed_group,
    trimmed_segment, unencodable,
};
use crate::text::{all_digits, is_digit, opt_str_view, push_bytes};

verus! {

// ---- Model ----

/// Who sends a message in which dialog.
pub struct Sender {
    pub dialog_id: Seq<char>,
    pub message_number: int,
    pub blz: Seq<char>,
    pub user_id: Seq<char>,
    pub system_id: Seq<char>,
    pub pin: Seq<char>,
    pub security_function: Seq<char>,
}

/// What signs a message: the TAN where there is one, the number that links both
/// ends of the signature, and the time.
pub struct Seal {
    pub tan: Option<Seq<char>>,
    pub reference: int,
    pub moment: Moment,
}

/// A segment with its number.
pub open spec fn numbered(seg: Seq<Group>, number: int) -> Seq<Group> {
    seg.update(0, seg[0].update(1, num_element(number)))
}

/// The segments that orders make, numbered from 3 on.
pub open spec fn numbered_orders(orders: Seq<Order>, p: Params) -> Seq<Seq<Group>> {
    Seq::new(orders.len(), |i: int| numbered(order_groups(orders[i], p), 3 + i))
}

/// The segments in the container.
pub open spec fn signed_segments(
    s: Sender,
    seal: Seal,
    orders: Seq<Order>,
    p: Params,
) -> Seq<Seq<Group>> {
    seq![
        hnshk_model(
            2,
            s.security_function,
            seal.reference,
            s.blz,
            s.user_id,
            s.system_id,
            seal.moment,
        ),
    ] + numbered_orders(orders, p) + seq![
        hnsha_model(3 + orders.len() as int, seal.reference, s.pin, seal.tan),
    ]
}

/// Three segments behind a header that states a size.
pub open spec fn framed(
    size: int,
    dialog_id: Seq<char>,
    message_number: int,
    a: Seq<Group>,
    b: Seq<Group>,
    c: Seq<Group>,
) -> Seq<Seq<Group>> {
    seq![hnhbk_model(size, dialog_id, message_number), a, b, c]
}

/// The segments of a message whose size is stated as `size`.
pub open spec fn message_segments(
    s: Sender,
    seal: Seal,
    orders: Seq<Order>,
    p: Params,
    size: int,
) -> Seq<Seq<Group>> {
    framed(
        size,
        s.dialog_id,
        s.message_number,
        hnvsk_model(s.blz, s.user_id, s.system_id, seal.moment),
        hnvsd_model(segments_wire(signed_segments(s, seal, orders, p))),
        hnhbs_model(4 + orders.len() as int, s.message_number),
    )
}

/// The length of a message.
pub open spec fn message_size(s: Sender, seal: Seal, orders: Seq<Order>, p: Params) -> int {
    segments_wire(message_segments(s, seal, orders, p, 0)).len() as int
}

/// The bytes of a message.
pub open spec fn message_wire(s: Sender, seal: Seal, orders: Seq<Order>, p: Params) -> Seq<u8> {
    segments_wire(message_segments(s, seal, orders, p, message_size(s, seal, orders, p)))
}

pub open spec fn all_encodable(segs: Seq<Seq<Group>>) -> bool {
    forall|i: int| 0 <= i < segs.len() ==> segment_encodable(#[trigger] segs[i])
}

/// Messages that can be written.
pub open spec fn writable(s: Sender, seal: Seal, orders: Seq<Order>, p: Params) -> bool {
    all_encodable(signed_segments(s, seal, orders, p)) && all_encodable(
        message_segments(s, seal, orders, p, 0),
    )
}

/// The error on a message whose size cannot be stated.
pub open spec fn too_long() -> Failure {
    Failure::Encoding("message too long"@)
}

/// Whether a message can be built, and the failure if not.
pub open spec fn message_failure(
    s: Sender,
    seal: Seal,
    orders: Seq<Order>,
    p: Params,
) -> Option<Failure> {
    if !writable(s, seal, orders, p) {
        Some(unencodable())
    } else if message_size(s, seal, orders, p) > u32::MAX {
        Some(too_long())
    } else {
        None
    }
}

// ---- Building ----

proof fn lemma_order_header(o: Order, p: Params)
    ensures
        order_groups(o, p).len() > 0,
        order_groups(o, p)[0].len() == 3,
{
}

fn number_segment(degs: Vec<DEG>, number: u16) -> (res: Vec<DEG>)
    requires
        degs@.len() > 0,
        degs@[0]@.len() > 1,
    ensures
        views(res@) == numbered(views(degs@), number as int),
{
    let ghost before = views(degs@);
    let mut res = degs;
    let mut header = res[0].clone();
    let ghost old_header = header@;
    header.0.set(1, de_num(number as u32));
    assert(header@ =~= old_header.update(1, num_element(number as int)));
    res.set(0, header);
    assert(views(res@) =~= numbered(before, number as int));
    res
}

/// Appends a segment as it is written.
fn write_segment(out: &mut Vec<u8>, degs: &Vec<DEG>) -> (ok: bool)
    ensures
        ok == segment_encodable(views(degs@)),
        ok ==> final(out)@ == old(out)@ + segment_wire(views(degs@)),
{
    match serialize_segment(degs) {
        Ok(bytes) => {
            push_bytes(out, bytes.as_slice());
            true
        },
        Err(_) => false,
    }
}

fn encoding_error() -> (e: FinTSError)
    ensures
        e@ == unencodable(),
{
    FinTSError::Encoding("text holds characters outside ISO 8859-1".to_string())
}

proof fn lemma_segments_wire_push(segs: Seq<Seq<Group>>, seg: Seq<Group>)
    ensures
        segments_wire(segs.push(seg)) == segments_wire(segs) + segment_wire(seg),
{
    assert(segs.push(seg).drop_last() =~= segs);
}

proof fn lemma_encodable_push(segs: Seq<Seq<Group>>, seg: Seq<Group>)
    ensures
        all_encodable(segs.push(seg)) == (all_encodable(segs) && segment_encodable(seg)),
{
    let t = segs.push(seg);
    if all_encodable(t) {
        assert(segment_encodable(t[segs.len() as int]));
        assert forall|i: int| 0 <= i < segs.len() implies segment_encodable(#[trigger] segs[i]) by {
            assert(segment_encodable(t[i]));
        }
    }
}

/// Writes the segments of the container.
fn write_signed(
    sender: &MessageSender,
    tan: Option<&str>,
    security_reference: u32,
    now: &Timestamp,
    segments: &[Segment],
    params: &BankParams,
) -> (res: Option<Vec<u8>>)
    requires
        segments@.len() + 4 <= u16::MAX,
    ensures
        ({
            let seal = Seal {
                tan: opt_str_view(tan),
                reference: security_reference as int,
                moment: now@,
            };
            let signed = signed_segments(sender@, seal, views(segments@), params@);
            match res {
                Some(bytes) => all_encodable(signed) && bytes@ == segments_wire(signed),
                None => !all_encodable(signed),
            }
        }),
{
    let ghost seal = Seal {
        tan: opt_str_view(tan),
        reference: security_reference as int,
        moment: now@,
    };
    let ghost orders = views(segments@);
    let ghost signed = signed_segments(sender@, seal, orders, params@);
    let mut out: Vec<u8> = Vec::new();
    let head = hnshk_at(
        2,
        sender.security_function.as_str(),
        security_reference,
        sender.blz.as_str(),
        sender.user_id.as_str(),
        sender.system_id.as_str(),
        now,
    );
    assert(views(head@) == signed[0]);
    if !write_segment(&mut out, &head) {
        return None;
    }
    proof {
        assert(signed.take(0) =~= Seq::<Seq<Group>>::empty());
        assert(signed.take(1) =~= signed.take(0).push(signed[0]));
        lemma_segments_wire_push(signed.take(0), signed[0]);
        assert(out@ =~= segments_wire(signed.take(1)));
        lemma_encodable_push(signed.take(0), signed[0]);
    }
    let mut i: usize = 0;
    while i < segments.len()
        invariant
            i <= segments@.len(),
            segments@.len() + 4 <= u16::MAX,
            orders == views(segments@),
            signed == signed_segments(sender@, seal, orders, params@),
            seal == (Seal {
                tan: opt_str_view(tan),
                reference: security_reference as int,
                moment: now@,
            }),
            out@ == segments_wire(signed.take(i + 1)),
            all_encodable(signed.take(i + 1)),
        decreases segments@.len() - i,
    {
        let degs = segments[i].to_degs(params);
        proof {
            lemma_order_header(orders[i as int], params@);
            assert(views(degs@) == order_groups(orders[i as int], params@));
            assert(views(degs@)[0] == degs@[0]@);
        }
        let degs = number_segment(degs, (i + 3) as u16);
        proof {
            assert(signed[i + 1] == numbered_orders(orders, params@)[i as int]);
            assert(views(degs@) == signed[i + 1]);
            assert(signed.take(i + 2) =~= signed.take(i + 1).push(signed[i + 1]));
            lemma_segments_wire_push(signed.take(i + 1), signed[i + 1]);
            lemma_encodable_push(signed.take(i + 1), signed[i + 1]);
        }
        if !write_segment(&mut out, &degs) {
            assert(!segment_encodable(signed[i + 1]));
            return None;
        }
        i += 1;
    }
    let tail = hnsha((i + 3) as u16, security_reference, sender.pin.as_str(), tan);
    proof {
        assert(views(tail@) == signed[i + 1]);
        assert(signed.take(i + 2) =~= signed.take(i + 1).push(signed[i + 1]));
        lemma_segments_wire_push(signed.take(i + 1), signed[i + 1]);
        lemma_encodable_push(signed.take(i + 1), signed[i + 1]);
        assert(signed.take(i + 2) =~= signed);
    }
    if !write_segment(&mut out, &tail) {
        return None;
    }
    Some(out)
}

/// Who sends a message in which dialog.
pub struct MessageSender<'a> {
    pub dialog_id: &'a DialogId,
    pub message_number: u16,
    pub blz: &'a Blz,
    pub user_id: &'a UserId,
    pub system_id: &'a SystemId,
    pub pin: &'a Pin,
    pub security_function: &'a SecurityFunction,
}

impl<'a> View for MessageSender<'a> {
    type V = Sender;

    open spec fn view(&self) -> Sender {
        Sender {
            dialog_id: self.dialog_id@,
            message_number: self.message_number as int,
            blz: self.blz@,
            user_id: self.user_id@,
            system_id: self.system_id@,
            pin: self.pin@,
            security_function: self.security_function@,
        }
    }
}

proof fn lemma_header_encodable(size: int, other: int, dialog_id: Seq<char>, number: int)
    requires
        0 <= size,
        0 <= other,
    ensures
        segment_encodable(hnhbk_model(size, dialog_id, number)) == segment_encodable(
            hnhbk_model(other, dialog_id, number),
        ),
{
    let a = hnhbk_model(size, dialog_id, number);
    let b = hnhbk_model(other, dialog_id, number);
    lemma_padded_digits(size as nat, 12);
    lemma_padded_digits(other as nat, 12);
    assert(a[0] == b[0] && a[2] == b[2] && a[3] == b[3] && a[4] == b[4]);
    assert(group_encodable(a[1])) by {
        lemma_digits_encodable(padded(size as nat, 12));
    }
    assert(group_encodable(b[1])) by {
        lemma_digits_encodable(padded(other as nat, 12));
    }
    if segment_encodable(a) {
        assert forall|i: int| 0 <= i < b.len() implies group_encodable(#[trigger] b[i]) by {
            assert(group_encodable(a[i]));
        }
    }
    if segment_encodable(b) {
        assert forall|i: int| 0 <= i < a.len() implies group_encodable(#[trigger] a[i]) by {
            assert(group_encodable(b[i]));
        }
    }
}

proof fn lemma_digits_encodable(s: Seq<char>)
    requires
        all_digits(s),
    ensures
        group_encodable(text_group(s)),
{
    assert forall|i: int| 0 <= i < s.len() implies (#[trigger] s[i]) as u32 <= 0xff by {
        assert(is_digit(s[i]));
    }
}

/// Padded numbers are digits.
pub proof fn lemma_padded_digits(n: nat, width: nat)
    ensures
        all_digits(padded(n, width)),
        padded(n, width).len() >= width,
        decimal(n).len() <= width ==> padded(n, width).len() == width,
{
    lemma_decimal_digits(n);
}

/// Numbers of up to 32 bits have ten digits at most.
pub proof fn lemma_u32_digits(n: nat)
    requires
        n <= u32::MAX,
    ensures
        decimal(n).len() <= 10,
{
    assert(vstd::arithmetic::power::pow(10, 10) == 10000000000int) by {
        reveal(vstd::arithmetic::power::pow);
        reveal_with_fuel(vstd::arithmetic::power::pow, 11);
    }
    lemma_decimal_len(n, 10, 10000000000);
}

proof fn lemma_decimal_len(n: nat, k: nat, bound: nat)
    requires
        n < bound,
        bound == vstd::arithmetic::power::pow(10, k),
        k > 0,
    ensures
        decimal(n).len() <= k,
    decreases k,
{
    if n >= 10 {
        if k == 1 {
            vstd::arithmetic::power::lemma_pow1(10);
        } else {
            vstd::arithmetic::power::lemma_pow_adds(10, 1, (k - 1) as nat);
            vstd::arithmetic::power::lemma_pow1(10);
            let smaller = vstd::arithmetic::power::pow(10, (k - 1) as nat);
            vstd::arithmetic::power::lemma_pow_positive(10, (k - 1) as nat);
            assert(bound == 10 * smaller);
            lemma_decimal_len(n / 10, (k - 1) as nat, smaller as nat);
        }
    }
}

/// Digits are written as they stand.
proof fn lemma_digits_wire(s: Seq<char>)
    requires
        all_digits(s),
    ensures
        text_wire(s).len() == s.len(),
    decreases s.len(),
{
    if s.len() > 0 {
        assert(is_digit(s[0]));
        assert forall|i: int| 0 <= i < s.skip(1).len() implies is_digit(#[trigger] s.skip(1)[i]) by {
            assert(is_digit(s[i + 1]));
        }
        lemma_digits_wire(s.skip(1));
    }
}

pub proof fn lemma_one_element_wire(e: Element)
    requires
        !(e is Empty),
    ensures
        group_wire(seq![e]) == element_wire(e),
        trimmed_group(seq![e]).len() == 1,
{
    assert(trimmed_group(seq![e]) =~= seq![e]);
    assert(group_parts(seq![e]) =~= seq![element_wire(e)]);
}

/// The header has one length for all sizes that fit in its field.
proof fn lemma_header_len(size: int, dialog_id: Seq<char>, number: int)
    requires
        0 <= size <= u32::MAX,
        0 <= number,
    ensures
        segment_wire(hnhbk_model(size, dialog_id, number)).len() == segment_wire(
            hnhbk_model(0, dialog_id, number),
        ).len(),
{
    let a = hnhbk_model(size, dialog_id, number);
    let b = hnhbk_model(0, dialog_id, number);
    lemma_u32_digits(size as nat);
    lemma_u32_digits(0);
    lemma_padded_digits(size as nat, 12);
    lemma_padded_digits(0, 12);
    lemma_digits_wire(padded(size as nat, 12));
    lemma_digits_wire(padded(0, 12));
    lemma_one_element_wire(Element::Text(padded(size as nat, 12)));
    lemma_one_element_wire(Element::Text(padded(0, 12)));
    assert(a[1] == seq![Element::Text(padded(size as nat, 12))]);
    assert(b[1] == seq![Element::Text(padded(0, 12))]);
    assert(group_wire(a[1]).len() == 12 && group_wire(b[1]).len() == 12);
    lemma_one_element_wire(num_element(number));
    assert(trimmed_segment(a) == a);
    assert(trimmed_segment(b) == b);
    let pa = segment_parts(a);
    let pb = segment_parts(b);
    assert(pa.len() == 5 && pb.len() == 5);
    assert forall|i: int| 0 <= i < 5 implies (#[trigger] pa[i]).len() == pb[i].len() by {
        assert(pa[i] == group_wire(a[i]));
        assert(pb[i] == group_wire(b[i]));
        if i != 1 {
            assert(a[i] == b[i]);
        }
    }
    lemma_joined_len(pa, pb, 0x2b);
}

/// Parts of equal lengths make joins of equal lengths.
proof fn lemma_joined_len(a: Seq<Seq<u8>>, b: Seq<Seq<u8>>, sep: u8)
    requires
        a.len() == b.len(),
        forall|i: int| 0 <= i < a.len() ==> (#[trigger] a[i]).len() == b[i].len(),
    ensures
        joined(a, sep).len() == joined(b, sep).len(),
    decreases a.len(),
{
    if a.len() > 0 {
        assert(a[0].len() == b[0].len());
        if a.len() > 1 {
            assert forall|i: int| 0 <= i < a.skip(1).len() implies (#[trigger] a.skip(1)[i]).len()
                == b.skip(1)[i].len() by {
                assert(a[i + 1].len() == b[i + 1].len());
            }
            lemma_joined_len(a.skip(1), b.skip(1), sep);
        }
    }
}

pub proof fn lemma_four(a: Seq<Group>, b: Seq<Group>, c: Seq<Group>, d: Seq<Group>)
    ensures
        segments_wire(seq![a, b, c, d]) == segment_wire(a) + segment_wire(b) + segment_wire(c)
            + segment_wire(d),
        all_encodable(seq![a, b, c, d]) == (segment_encodable(a) && segment_encodable(b)
            && segment_encodable(c) && segment_encodable(d)),
{
    let e = Seq::<Seq<Group>>::empty();
    lemma_segments_wire_push(e, a);
    lemma_segments_wire_push(e.push(a), b);
    lemma_segments_wire_push(e.push(a).push(b), c);
    lemma_segments_wire_push(e.push(a).push(b).push(c), d);
    lemma_encodable_push(e, a);
    lemma_encodable_push(e.push(a), b);
    lemma_encodable_push(e.push(a).push(b), c);
    lemma_encodable_push(e.push(a).push(b).push(c), d);
    assert(seq![a, b, c, d] =~= e.push(a).push(b).push(c).push(d));
    assert(segments_wire(e) =~= Seq::<u8>::empty());
    assert(segments_wire(e.push(a)) =~= segment_wire(a));
}

/// Puts the header in front of three segments.
fn frame(
    dialog_id: &str,
    message_number: u16,
    a: &Vec<DEG>,
    b: &Vec<DEG>,
    c: &Vec<DEG>,
) -> (res: Result<Vec<u8>>)
    ensures
        ({
            let number = message_number as int;
            let blank = framed(0, dialog_id@, number, views(a@), views(b@), views(c@));
            let size = segments_wire(blank).len() as int;
            match res {
                Ok(bytes) => all_encodable(blank) && size <= u32::MAX && bytes@ == segments_wire(
                    framed(size, dialog_id@, number, views(a@), views(b@), views(c@)),
                ),
                Err(e) => if !all_encodable(blank) {
                    e@ == unencodable()
                } else {
                    size > u32::MAX && e@ == too_long()
                },
            }
        }),
{
    let blank = hnhbk(0, dialog_id, message_number);
    proof {
        lemma_four(views(blank@), views(a@), views(b@), views(c@));
    }
    let mut header: Vec<u8> = Vec::new();
    if !write_segment(&mut header, &blank) {
        return Err(encoding_error());
    }
    let mut body: Vec<u8> = Vec::new();
    if !write_segment(&mut body, a) || !write_segment(&mut body, b) || !write_segment(
        &mut body,
        c,
    ) {
        return Err(encoding_error());
    }
    assert(header@ =~= segment_wire(views(blank@)));
    assert(body@ =~= segment_wire(views(a@)) + segment_wire(views(b@)) + segment_wire(views(c@)));
    let total: u128 = header.len() as u128 + body.len() as u128;
    if total > u32::MAX as u128 {
        return Err(FinTSError::Encoding("message too long".to_string()));
    }
    let sized = hnhbk(total as u32, dialog_id, message_number);
    proof {
        lemma_header_encodable(0, total as int, dialog_id@, message_number as int);
        lemma_four(views(sized@), views(a@), views(b@), views(c@));
    }
    let mut out: Vec<u8> = Vec::new();
    if !write_segment(&mut out, &sized) {
        assert(false);
    }
    push_bytes(&mut out, body.as_slice());
    assert(out@ =~= segment_wire(views(sized@)) + segment_wire(views(a@)) + segment_wire(views(b@))
        + segment_wire(views(c@)));
    Ok(out)
}

/// Builds a message with the given time stamp.
pub fn build_message_at(
    sender: &MessageSender,
    tan: Option<&str>,
    security_reference: u32,
    now: &Timestamp,
    segments: &[Segment],
    params: &BankParams,
) -> (res: Result<Vec<u8>>)
    requires
        segments@.len() + 4 <= u16::MAX,
    ensures
        message_result(
            result_of(res),
            sender@,
            opt_str_view(tan),
            security_reference as int,
            now@,
            views(segments@),
            params@,
        ),
{
    let inner = match write_signed(sender, tan, security_reference, now, segments, params) {
        Some(bytes) => bytes,
        None => {
            return Err(encoding_error());
        },
    };
    let vsk = hnvsk_at(
        sender.blz.as_str(),
        sender.user_id.as_str(),
        sender.system_id.as_str(),
        now,
    );
    let vsd = hnvsd(inner.as_slice());
    let hbs = hnhbs((segments.len() + 4) as u16, sender.message_number);
    frame(sender.dialog_id.as_str(), sender.message_number, &vsk, &vsd, &hbs)
}

/// What building a message gives.
pub open spec fn message_result(
    res: core::result::Result<Seq<u8>, Failure>,
    s: Sender,
    tan: Option<Seq<char>>,
    reference: int,
    moment: Moment,
    orders: Seq<Order>,
    p: Params,
) -> bool {
    let seal = Seal { tan, reference, moment };
    match res {
        Ok(bytes) => message_failure(s, seal, orders, p) is None && bytes == message_wire(
            s,
            seal,
            orders,
            p,
        ),
        Err(e) => message_failure(s, seal, orders, p) == Some(e),
    }
}

// ---- Laws ----

/// The size that the header of a message states is the length of the message.
pub proof fn law_stated_size(s: Sender, seal: Seal, orders: Seq<Order>, p: Params)
    requires
        message_failure(s, seal, orders, p) is None,
        0 <= s.message_number,
    ensures
        message_wire(s, seal, orders, p).len() == message_size(s, seal, orders, p),
{
    let size = message_size(s, seal, orders, p);
    let a = message_segments(s, seal, orders, p, 0);
    let b = message_segments(s, seal, orders, p, size);
    lemma_four(a[0], a[1], a[2], a[3]);
    lemma_four(b[0], b[1], b[2], b[3]);
    assert(a =~= seq![a[0], a[1], a[2], a[3]]);
    assert(b =~= seq![b[0], b[1], b[2], b[3]]);
    lemma_header_len(size, s.dialog_id, s.message_number);
}

/// Both ends of a signature state the same reference, and the segments between
/// and including them are numbered without a gap.
pub proof fn law_signature(s: Sender, seal: Seal, orders: Seq<Order>, p: Params)
    ensures
        ({
            let signed = signed_segments(s, seal, orders, p);
            &&& signed.len() == orders.len() + 2
            &&& text_at(signed[0], 3, 0) == decimal(seal.reference as nat)
            &&& text_at(signed.last(), 1, 0) == decimal(seal.reference as nat)
            &&& forall|i: int|
                0 <= i < signed.len() ==> element_at(group_at(#[trigger] signed[i], 0), 1)
                    == num_element(i + 2)
        }),
{
    let signed = signed_segments(s, seal, orders, p);
    assert forall|i: int| 0 <= i < signed.len() implies element_at(
        group_at(#[trigger] signed[i], 0),
        1,
    ) == num_element(i + 2) by {
        if 0 < i < signed.len() - 1 {
            lemma_order_header(orders[i - 1], p);
            assert(signed[i] == numbered(order_groups(orders[i - 1], p), 3 + (i - 1)));
        }
    }
}

proof fn lemma_nonblank_kept(seg: Seq<Group>)
    requires
        seg.len() > 0,
        trimmed_group(seg[0]).len() > 0,
    ensures
        trimmed_segment(seg).len() > 0,
    decreases seg.len(),
{
    if seg.len() > 1 && trimmed_group(seg.last()).len() == 0 {
        assert(seg.drop_last()[0] == seg[0]);
        lemma_nonblank_kept(seg.drop_last());
    }
}

/// A segment keeps its type when it is read back.
pub proof fn lemma_type_read_back(seg: Seq<Group>, t: Seq<char>, number: int, version: int)
    requires
        seg.len() > 0,
        seg[0] == header_group(t, number, version),
        t.len() > 0,
    ensures
        type_of(read_back_segment(seg)) == t,
{
    let header = seg[0];
    assert(header.last() == num_element(version));
    assert(trimmed_group(header) == header);
    lemma_nonblank_kept(seg);
    crate::serializer::lemma_trimmed_segment(seg);
    let back = read_back_segment(seg);
    assert(trimmed_segment(seg)[0] == header);
    assert(back[0] == read_back_group(header));
    assert(back[0][0] == read_back_element(header[0]));
}

pub proof fn lemma_container_read_back(inner: Seq<u8>)
    ensures
        type_of(read_back_segment(hnvsd_model(inner))) == "HNVSD"@,
        bytes_at(read_back_segment(hnvsd_model(inner)), 1, 0) == Some(inner),
{
    let seg = hnvsd_model(inner);
    reveal_strlit("HNVSD");
    lemma_type_read_back(seg, "HNVSD"@, 999, 1);
    lemma_one_element_wire(Element::Binary(inner));
    assert(trimmed_segment(seg) == seg);
    let back = read_back_segment(seg);
    assert(trimmed_group(seg[1]) =~= seq![Element::Binary(inner)]);
    assert(back[1] == read_back_group(seg[1]));
    assert(back[1][0] == Element::Binary(inner));
}

pub proof fn lemma_flattened_four(a: Seq<Group>, b: Seq<Group>, c: Seq<Group>, d: Seq<Group>)
    requires
        type_of(a) != "HNVSD"@,
        type_of(b) != "HNVSD"@,
        type_of(d) != "HNVSD"@,
    ensures
        flattened(seq![a, b, c, d]) == seq![a, b] + unwrapped(c) + seq![d],
{
    let e = Seq::<Seq<Group>>::empty();
    let o1 = e.push(a);
    let o2 = o1.push(b);
    let o3 = o2.push(c);
    let o4 = o3.push(d);
    assert(o4.drop_last() =~= o3);
    assert(o3.drop_last() =~= o2);
    assert(o2.drop_last() =~= o1);
    assert(o1.drop_last() =~= e);
    assert(flattened(e) =~= e);
    assert(flattened(o1) =~= seq![a]);
    assert(flattened(o2) =~= seq![a, b]);
    assert(flattened(o3) =~= seq![a, b] + unwrapped(c));
    assert(flattened(o4) =~= seq![a, b] + unwrapped(c) + seq![d]);
    assert(o4 =~= seq![a, b, c, d]);
}

proof fn lemma_framed_read(
    size: int,
    dialog_id: Seq<char>,
    number: int,
    a: Seq<Group>,
    inner: Seq<Seq<Group>>,
    d: Seq<Group>,
)
    requires
        0 <= size,
        0 <= number,
        all_encodable(inner),
        all_encodable(framed(0, dialog_id, number, a, hnvsd_model(segments_wire(inner)), d)),
        type_of(read_back_segment(a)) != "HNVSD"@,
        type_of(read_back_segment(d)) != "HNVSD"@,
    ensures
        ({
            let segs = framed(size, dialog_id, number, a, hnvsd_model(segments_wire(inner)), d);
            &&& parsed_message(segments_wire(segs)) matches Some(outer)
            &&& flattened(outer) == seq![
                read_back_segment(hnhbk_model(size, dialog_id, number)),
                read_back_segment(a),
            ] + read_back(inner) + seq![read_back_segment(d)]
        }),
{
    let c = hnvsd_model(segments_wire(inner));
    let blank = hnhbk_model(0, dialog_id, number);
    let header = hnhbk_model(size, dialog_id, number);
    let segs = framed(size, dialog_id, number, a, c, d);
    lemma_header_encodable(0, size, dialog_id, number);
    lemma_four(blank, a, c, d);
    lemma_four(header, a, c, d);
    law_read_back(segs);
    law_read_back(inner);
    reveal_strlit("HNHBK");
    reveal_strlit("HNVSD");
    lemma_type_read_back(header, "HNHBK"@, 1, 3);
    assert("HNHBK"@[3] != "HNVSD"@[3]);
    lemma_container_read_back(segments_wire(inner));
    assert(read_back(segs) =~= seq![
        read_back_segment(header),
        read_back_segment(a),
        read_back_segment(c),
        read_back_segment(d),
    ]);
    lemma_flattened_four(
        read_back_segment(header),
        read_back_segment(a),
        read_back_segment(c),
        read_back_segment(d),
    );
}

/// The bank reads in a message its header, the encryption header, the signed
/// segments out of the container, and the trailer.
pub proof fn law_message_read(s: Sender, seal: Seal, orders: Seq<Order>, p: Params)
    requires
        message_failure(s, seal, orders, p) is None,
        0 <= s.message_number,
    ensures
        ({
            let size = message_size(s, seal, orders, p);
            &&& parsed_message(message_wire(s, seal, orders, p)) matches Some(outer)
            &&& flattened(outer) == seq![
                read_back_segment(hnhbk_model(size, s.dialog_id, s.message_number)),
                read_back_segment(hnvsk_model(s.blz, s.user_id, s.system_id, seal.moment)),
            ] + read_back(signed_segments(s, seal, orders, p)) + seq![
                read_back_segment(hnhbs_model(4 + orders.len() as int, s.message_number)),
            ]
        }),
{
    let size = message_size(s, seal, orders, p);
    let signed = signed_segments(s, seal, orders, p);
    let vsk = hnvsk_model(s.blz, s.user_id, s.system_id, seal.moment);
    let hbs = hnhbs_model(4 + orders.len() as int, s.message_number);
    reveal_strlit("HNVSK");
    reveal_strlit("HNVSD");
    reveal_strlit("HNHBS");
    lemma_type_read_back(vsk, "HNVSK"@, 998, 3);
    lemma_type_read_back(hbs, "HNHBS"@, 4 + orders.len() as int, 1);
    assert("HNVSK"@[4] != "HNVSD"@[4]);
    assert("HNHBS"@[2] != "HNVSD"@[2]);
    lemma_framed_read(size, s.dialog_id, s.message_number, vsk, signed, hbs);
}

} // verus!
