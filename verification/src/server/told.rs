//! What a client learns from the mock bank's answers.

use vstd::prelude::*;
use vstd::utf8::*;

use crate::delivered::law_texts_kept;
use crate::element::{bytes_at, element_text, text_at, type_of, Element, Group};
use crate::numbers::{decimal, lemma_decimal_digits};
use crate::parser::parsed_message;
use crate::roundtrip::{law_read_back, read_back, read_back_segment};
use crate::serializer::{
    ascii_bytes, element_wire, encodable, group_encodable, group_wire, joined, lemma_joined_push,
    lemma_text_wire_push, segment_encodable, segment_wire, segments_wire, text_wire, trimmed_group,
    trimmed_segment,
};
use crate::server::answer::{
    balance_part, balance_reply, bpd_segments, escaped, greeting, holding_deg, holding_degs,
    holdings_part, page_at, paging_code, preparation_part, preparation_reply, sync_part,
    synchronizes, text_if, transactions_part, transactions_reply, upd_segments,
};
use crate::server::faults::ErrorType;
use crate::server::fixtures::{transaction_pages, FixtureData, HoldingData};
use crate::server::laws::{lemma_ascii, lemma_byte_of_char, lemma_digits_ascii};
use crate::server::reading::{lemma_digits_plain, lemma_plain_wire, plain, plain_char};
use crate::server::scan::{number_version_in, touchdown_in};
use crate::server::state::{
    after_answer, answer_of, assigns_system, generated_id, init_fault, message_pin, BankState,
};

verus! {

// ---- Writing by and by ----

/// A DEG written element by element, without leaving anything out.
spec fn whole_group(g: Group) -> Seq<u8> {
    joined(g.map_values(|e: Element| element_wire(e)), 0x3a)
}

/// A segment written DEG by DEG, without leaving anything out.
spec fn whole_segment(seg: Seq<Group>) -> Seq<u8> {
    joined(seg.map_values(|g: Group| group_wire(g)), 0x2b)
}

proof fn lemma_group_grows(g: Group, e: Element)
    ensures
        whole_group(g.push(e)) == (if g.len() == 0 {
            element_wire(e)
        } else {
            whole_group(g) + seq![0x3au8] + element_wire(e)
        }),
{
    let parts = g.map_values(|e: Element| element_wire(e));
    lemma_joined_push(parts, element_wire(e), 0x3a);
    assert(g.push(e).map_values(|e: Element| element_wire(e)) =~= parts.push(element_wire(e)));
}

proof fn lemma_group_whole(g: Group)
    requires
        g.len() > 0,
        !(g.last() is Empty),
    ensures
        group_wire(g) == whole_group(g),
        trimmed_group(g) == g,
{
}

proof fn lemma_segment_grows(seg: Seq<Group>, g: Group)
    ensures
        whole_segment(seg.push(g)) == (if seg.len() == 0 {
            group_wire(g)
        } else {
            whole_segment(seg) + seq![0x2bu8] + group_wire(g)
        }),
{
    let parts = seg.map_values(|g: Group| group_wire(g));
    lemma_joined_push(parts, group_wire(g), 0x2b);
    assert(seg.push(g).map_values(|g: Group| group_wire(g)) =~= parts.push(group_wire(g)));
}

proof fn lemma_segment_whole(seg: Seq<Group>)
    requires
        seg.len() > 0,
        trimmed_group(seg.last()).len() > 0,
    ensures
        segment_wire(seg) == whole_segment(seg).push(0x27),
{
}

spec fn t(s: Seq<char>) -> Element {
    Element::Text(s)
}

/// A DEG `a::b:c`.
proof fn lemma_reference_group(a: Seq<char>, b: Seq<char>, c: Seq<char>)
    requires
        plain(a) && plain(b) && plain(c),
    ensures
        ({
            let g = seq![t(a), Element::Empty, t(b), t(c)];
            &&& group_wire(g) == encode_utf8(a) + seq![0x3au8, 0x3au8] + encode_utf8(b) + seq![
                0x3au8,
            ] + encode_utf8(c)
            &&& trimmed_group(g).len() > 0
            &&& group_encodable(g)
        }),
{
    let e = Seq::<Element>::empty();
    let g = seq![t(a), Element::Empty, t(b), t(c)];
    lemma_plain_wire(a);
    lemma_plain_wire(b);
    lemma_plain_wire(c);
    lemma_group_grows(e, t(a));
    lemma_group_grows(e.push(t(a)), Element::Empty);
    lemma_group_grows(e.push(t(a)).push(Element::Empty), t(b));
    lemma_group_grows(e.push(t(a)).push(Element::Empty).push(t(b)), t(c));
    assert(g =~= e.push(t(a)).push(Element::Empty).push(t(b)).push(t(c)));
    lemma_group_whole(g);
    assert(group_wire(g) =~= encode_utf8(a) + seq![0x3au8, 0x3au8] + encode_utf8(b) + seq![0x3au8]
        + encode_utf8(c));
}

/// A DEG `a::b`.
proof fn lemma_code_group(a: Seq<char>, b: Seq<char>)
    requires
        plain(a) && plain(b),
    ensures
        ({
            let g = seq![t(a), Element::Empty, t(b)];
            &&& group_wire(g) == encode_utf8(a) + seq![0x3au8, 0x3au8] + encode_utf8(b)
            &&& trimmed_group(g).len() > 0
            &&& group_encodable(g)
        }),
{
    let e = Seq::<Element>::empty();
    let g = seq![t(a), Element::Empty, t(b)];
    lemma_plain_wire(a);
    lemma_plain_wire(b);
    lemma_group_grows(e, t(a));
    lemma_group_grows(e.push(t(a)), Element::Empty);
    lemma_group_grows(e.push(t(a)).push(Element::Empty), t(b));
    assert(g =~= e.push(t(a)).push(Element::Empty).push(t(b)));
    lemma_group_whole(g);
    assert(group_wire(g) =~= encode_utf8(a) + seq![0x3au8, 0x3au8] + encode_utf8(b));
}

/// A DEG of one plain text.
proof fn lemma_text(a: Seq<char>)
    requires
        plain(a),
    ensures
        group_wire(seq![t(a)]) == encode_utf8(a),
        trimmed_group(seq![t(a)]).len() > 0,
        group_encodable(seq![t(a)]),
{
    let e = Seq::<Element>::empty();
    lemma_plain_wire(a);
    lemma_group_grows(e, t(a));
    assert(seq![t(a)] =~= e.push(t(a)));
    lemma_group_whole(seq![t(a)]);
}

/// A segment of two DEGs.
proof fn lemma_segment_of_two(a: Group, b: Group)
    requires
        trimmed_group(b).len() > 0,
        group_encodable(a) && group_encodable(b),
    ensures
        segment_wire(seq![a, b]) == (group_wire(a) + seq![0x2bu8] + group_wire(b)).push(0x27),
        segment_encodable(seq![a, b]),
{
    let e = Seq::<Group>::empty();
    lemma_segment_grows(e, a);
    lemma_segment_grows(e.push(a), b);
    assert(seq![a, b] =~= e.push(a).push(b));
    lemma_segment_whole(seq![a, b]);
}

proof fn lemma_two_segments(a: Seq<Group>, b: Seq<Group>)
    requires
        segment_encodable(a) && segment_encodable(b),
    ensures
        parsed_message(segment_wire(a) + segment_wire(b)) == Some(
            seq![read_back_segment(a), read_back_segment(b)],
        ),
{
    let e = Seq::<Seq<Group>>::empty();
    let segs = seq![a, b];
    assert(segs.drop_last() =~= seq![a]);
    assert(seq![a].drop_last() =~= e);
    assert(segments_wire(e) =~= Seq::<u8>::empty());
    assert(segments_wire(seq![a]) =~= segment_wire(a));
    assert(segments_wire(segs) =~= segment_wire(a) + segment_wire(b));
    law_read_back(segs);
    assert(read_back(segs) =~= seq![read_back_segment(a), read_back_segment(b)]);
}

proof fn lemma_one_segment(a: Seq<Group>)
    requires
        segment_encodable(a),
    ensures
        parsed_message(segment_wire(a)) == Some(seq![read_back_segment(a)]),
{
    let e = Seq::<Seq<Group>>::empty();
    let segs = seq![a];
    assert(segs.drop_last() =~= e);
    assert(segments_wire(e) =~= Seq::<u8>::empty());
    assert(segments_wire(segs) =~= segment_wire(a));
    law_read_back(segs);
    assert(read_back(segs) =~= seq![read_back_segment(a)]);
}

proof fn lemma_separators()
    ensures
        encode_utf8("+"@) == seq![0x2bu8],
        encode_utf8(":"@) == seq![0x3au8],
        encode_utf8("'"@) == seq![0x27u8],
        encode_utf8("@"@) == seq![0x40u8],
        encode_utf8("+@"@) == seq![0x2bu8, 0x40u8],
{
    reveal_strlit("+");
    reveal_strlit(":");
    reveal_strlit("'");
    reveal_strlit("@");
    reveal_strlit("+@");
    lemma_ascii("+"@);
    lemma_ascii(":"@);
    lemma_ascii("'"@);
    lemma_ascii("@"@);
    lemma_ascii("+@"@);
    assert(encode_utf8("+"@) =~= seq![0x2bu8]);
    assert(encode_utf8(":"@) =~= seq![0x3au8]);
    assert(encode_utf8("'"@) =~= seq![0x27u8]);
    assert(encode_utf8("@"@) =~= seq![0x40u8]);
    assert(encode_utf8("+@"@) =~= seq![0x2bu8, 0x40u8]);
}

// ---- System identification ----

/// A client that synchronizes is told the system identification that the bank
/// assigns.
pub proof fn law_system_told(message: Seq<u8>, system_id: Seq<char>, fault: Option<ErrorType>)
    requires
        plain(system_id),
        synchronizes(message, fault),
    ensures
        ({
            &&& parsed_message(sync_part(message, system_id, fault)) matches Some(segs)
            &&& segs.len() == 1
            &&& type_of(segs[0]) == "HISYN"@
            &&& text_at(segs[0], 1, 0) == system_id
        }),
{
    let seg = seq![
        seq![t("HISYN"@), Element::Empty, t("4"@), t("5"@)],
        seq![t(system_id)],
    ];
    reveal_strlit("HISYN");
    reveal_strlit("4");
    reveal_strlit("5");
    reveal_strlit("HISYN::4:5+");
    lemma_reference_group("HISYN"@, "4"@, "5"@);
    lemma_text(system_id);
    lemma_segment_of_two(seg[0], seg[1]);
    assert(seg =~= seq![seg[0], seg[1]]);
    lemma_separators();
    lemma_ascii("HISYN"@);
    lemma_ascii("4"@);
    lemma_ascii("5"@);
    lemma_ascii("HISYN::4:5+"@);
    assert(encode_utf8("HISYN::4:5+"@) =~= encode_utf8("HISYN"@) + seq![0x3au8, 0x3au8]
        + encode_utf8("4"@) + seq![0x3au8] + encode_utf8("5"@) + seq![0x2bu8]);
    assert(segment_wire(seg) =~= sync_part(message, system_id, fault));
    lemma_one_segment(seg);
    law_texts_kept(seg, 0, 0);
    law_texts_kept(seg, 1, 0);
}

/// The identification that an answer tells is new, and the bank remembers it.
pub proof fn law_system_remembered(b: BankState, message: Seq<u8>)
    requires
        assigns_system(b, message),
    ensures
        ({
            let after = after_answer(b, message);
            let id = generated_id(b.system_prefix, b.system_counter + 1);
            &&& after.systems == b.systems.push(id)
            &&& after.system_counter == b.system_counter + 1
            &&& exists|front: Seq<u8>, back: Seq<u8>|
                answer_of(b, message) == #[trigger] (front + (encode_utf8("HISYN::4:5+"@)
                    + encode_utf8(id) + encode_utf8("'"@)) + back)
        }),
{
    let id = generated_id(b.system_prefix, b.system_counter + 1);
    let init = init_fault(b);
    let locked = b.fixtures.temp_locked_pins.contains(message_pin(message));
    let front = greeting() + preparation_part(
        message,
        locked,
        b.port,
        init,
    );
    let back = answer_of(b, message).skip((front + sync_part(message, id, init)).len() as int);
    assert(answer_of(b, message) =~= front + (encode_utf8("HISYN::4:5+"@) + encode_utf8(id)
        + encode_utf8("'"@)) + back);
}

// ---- Balances ----

/// The segment that a balance is told in.
spec fn balance_segment(
    number: Seq<char>,
    balance: Seq<char>,
    currency: Seq<char>,
    date: Seq<char>,
) -> Seq<Group> {
    seq![
        seq![t("HISAL"@), Element::Empty, t("7"@), t(number)],
        seq![t("1"@), Element::Empty, t("280"@), t("12345678"@)],
        seq![t("Girokonto"@)],
        seq![t(currency)],
        seq![t("C"@), t(balance), t(currency), t(date)],
    ]
}

proof fn lemma_four_texts(a: Seq<char>, b: Seq<char>, c: Seq<char>, d: Seq<char>)
    requires
        plain(a) && plain(b) && plain(c) && plain(d),
    ensures
        ({
            let g = seq![t(a), t(b), t(c), t(d)];
            &&& group_wire(g) == encode_utf8(a) + seq![0x3au8] + encode_utf8(b) + seq![0x3au8]
                + encode_utf8(c) + seq![0x3au8] + encode_utf8(d)
            &&& trimmed_group(g).len() > 0
            &&& group_encodable(g)
        }),
{
    let e = Seq::<Element>::empty();
    let g = seq![t(a), t(b), t(c), t(d)];
    lemma_plain_wire(a);
    lemma_plain_wire(b);
    lemma_plain_wire(c);
    lemma_plain_wire(d);
    lemma_group_grows(e, t(a));
    lemma_group_grows(e.push(t(a)), t(b));
    lemma_group_grows(e.push(t(a)).push(t(b)), t(c));
    lemma_group_grows(e.push(t(a)).push(t(b)).push(t(c)), t(d));
    assert(g =~= e.push(t(a)).push(t(b)).push(t(c)).push(t(d)));
    lemma_group_whole(g);
}

/// Five parts with a `+` between them.
proof fn lemma_five_groups(seg: Seq<Group>)
    requires
        seg.len() == 5,
        trimmed_group(seg[4]).len() > 0,
        forall|i: int| 0 <= i < 5 ==> group_encodable(#[trigger] seg[i]),
    ensures
        segment_wire(seg) == (group_wire(seg[0]) + seq![0x2bu8] + group_wire(seg[1]) + seq![0x2bu8]
            + group_wire(seg[2]) + seq![0x2bu8] + group_wire(seg[3]) + seq![0x2bu8] + group_wire(
            seg[4],
        )).push(0x27),
        segment_encodable(seg),
{
    let e = Seq::<Group>::empty();
    let a = e.push(seg[0]);
    let b = a.push(seg[1]);
    let c = b.push(seg[2]);
    let d = c.push(seg[3]);
    lemma_segment_grows(e, seg[0]);
    lemma_segment_grows(a, seg[1]);
    lemma_segment_grows(b, seg[2]);
    lemma_segment_grows(c, seg[3]);
    lemma_segment_grows(d, seg[4]);
    assert(seg =~= d.push(seg[4]));
    lemma_segment_whole(seg);
}

/// How the pieces of a balance lie behind each other.
proof fn lemma_balance_glued(
    h: Seq<u8>,
    n: Seq<u8>,
    k: Seq<u8>,
    cur: Seq<u8>,
    bal: Seq<u8>,
    date: Seq<u8>,
    c: Seq<u8>,
    s: Seq<u8>,
    q: Seq<u8>,
)
    ensures
        ({
            let p = seq![0x2bu8];
            (h + n + p + k + p + cur + p + (c + s + bal + s + cur + s + date)) + q == h + n + (p + k
                + p) + cur + (p + c + s) + bal + s + cur + s + date + q
        }),
{
    let p = seq![0x2bu8];
    assert((h + n + p + k + p + cur + p + (c + s + bal + s + cur + s + date)) + q =~= h + n + (p + k
        + p) + cur + (p + c + s) + bal + s + cur + s + date + q);
}

proof fn lemma_balance_wire(
    number: Seq<char>,
    balance: Seq<char>,
    currency: Seq<char>,
    date: Seq<char>,
)
    requires
        plain(number) && plain(balance) && plain(currency) && plain(date),
    ensures
        segment_wire(balance_segment(number, balance, currency, date)) == encode_utf8(
            "HISAL::7:"@,
        ) + encode_utf8(number) + encode_utf8("+1::280:12345678+Girokonto+"@) + encode_utf8(
            currency,
        ) + encode_utf8("+C:"@) + encode_utf8(balance) + encode_utf8(":"@) + encode_utf8(currency)
            + encode_utf8(":"@) + encode_utf8(date) + encode_utf8("'"@),
        segment_encodable(balance_segment(number, balance, currency, date)),
{
    let seg = balance_segment(number, balance, currency, date);
    reveal_strlit("HISAL");
    reveal_strlit("7");
    reveal_strlit("1");
    reveal_strlit("280");
    reveal_strlit("12345678");
    reveal_strlit("Girokonto");
    reveal_strlit("C");
    reveal_strlit("HISAL::7:");
    reveal_strlit("+1::280:12345678+Girokonto+");
    reveal_strlit("+C:");
    lemma_reference_group("HISAL"@, "7"@, number);
    lemma_reference_group("1"@, "280"@, "12345678"@);
    lemma_text("Girokonto"@);
    lemma_text(currency);
    lemma_four_texts("C"@, balance, currency, date);
    lemma_five_groups(seg);
    lemma_separators();
    lemma_ascii("HISAL"@);
    lemma_ascii("7"@);
    lemma_ascii("1"@);
    lemma_ascii("280"@);
    lemma_ascii("12345678"@);
    lemma_ascii("Girokonto"@);
    lemma_ascii("C"@);
    lemma_ascii("HISAL::7:"@);
    lemma_ascii("+1::280:12345678+Girokonto+"@);
    lemma_ascii("+C:"@);
    let p = seq![0x2bu8];
    let s = seq![0x3au8];
    let k = group_wire(seg[1]) + p + group_wire(seg[2]);
    assert(encode_utf8("+1::280:12345678+Girokonto+"@) =~= p + k + p);
    assert(encode_utf8("+C:"@) =~= p + encode_utf8("C"@) + s);
    assert(encode_utf8("HISAL::7:"@) =~= encode_utf8("HISAL"@) + seq![0x3au8, 0x3au8] + encode_utf8(
        "7"@,
    ) + s);
    let h = encode_utf8("HISAL::7:"@);
    let n = encode_utf8(number);
    let cur = encode_utf8(currency);
    let bal = encode_utf8(balance);
    let d = encode_utf8(date);
    let c = encode_utf8("C"@);
    lemma_balance_glued(h, n, k, cur, bal, d, c, s, seq![0x27u8]);
    assert(group_wire(seg[0]) =~= h + n);
    assert(segment_wire(seg) =~= (h + n + p + k + p + cur + p + (c + s + bal + s + cur + s + d))
        + seq![0x27u8]);
}

/// A segment `HIRMS::2:number+code::text'`.
proof fn lemma_code_wire(number: Seq<char>, code: Seq<char>, text: Seq<char>)
    requires
        plain(number) && plain(code) && plain(text),
    ensures
        ({
            let seg = seq![
                seq![t("HIRMS"@), Element::Empty, t("2"@), t(number)],
                seq![t(code), Element::Empty, t(text)],
            ];
            &&& segment_wire(seg) == encode_utf8("HIRMS::2:"@) + encode_utf8(number) + seq![0x2bu8]
                + encode_utf8(code) + seq![0x3au8, 0x3au8] + encode_utf8(text) + seq![0x27u8]
            &&& segment_encodable(seg)
        }),
{
    let seg = seq![
        seq![t("HIRMS"@), Element::Empty, t("2"@), t(number)],
        seq![t(code), Element::Empty, t(text)],
    ];
    reveal_strlit("HIRMS");
    reveal_strlit("2");
    reveal_strlit("HIRMS::2:");
    lemma_reference_group("HIRMS"@, "2"@, number);
    lemma_code_group(code, text);
    lemma_segment_of_two(seg[0], seg[1]);
    assert(seg =~= seq![seg[0], seg[1]]);
    lemma_ascii("HIRMS"@);
    lemma_ascii("2"@);
    lemma_ascii("HIRMS::2:"@);
    assert(encode_utf8("HIRMS::2:"@) =~= encode_utf8("HIRMS"@) + seq![0x3au8, 0x3au8]
        + encode_utf8("2"@) + seq![0x3au8]);
    assert(segment_wire(seg) =~= encode_utf8("HIRMS::2:"@) + encode_utf8(number) + seq![0x2bu8]
        + encode_utf8(code) + seq![0x3au8, 0x3au8] + encode_utf8(text) + seq![0x27u8]);
}

/// The segment with the code that comes with a balance.
spec fn balance_code(number: Seq<char>) -> Seq<Group> {
    seq![
        seq![t("HIRMS"@), Element::Empty, t("2"@), t(number)],
        seq![t("0010"@), Element::Empty, t("Saldo ermittelt"@)],
    ]
}

proof fn lemma_balance_code(number: Seq<char>)
    requires
        plain(number),
    ensures
        segment_wire(balance_code(number)) == encode_utf8("HIRMS::2:"@) + encode_utf8(number)
            + encode_utf8("+0010::Saldo ermittelt'"@),
        segment_encodable(balance_code(number)),
{
    reveal_strlit("0010");
    reveal_strlit("Saldo ermittelt");
    reveal_strlit("+0010::Saldo ermittelt'");
    lemma_code_wire(number, "0010"@, "Saldo ermittelt"@);
    lemma_ascii("0010"@);
    lemma_ascii("Saldo ermittelt"@);
    lemma_ascii("+0010::Saldo ermittelt'"@);
    assert(encode_utf8("+0010::Saldo ermittelt'"@) =~= seq![0x2bu8] + encode_utf8("0010"@) + seq![
        0x3au8,
        0x3au8,
    ] + encode_utf8("Saldo ermittelt"@) + seq![0x27u8]);
    assert(segment_wire(balance_code(number)) =~= encode_utf8("HIRMS::2:"@) + encode_utf8(number)
        + encode_utf8("+0010::Saldo ermittelt'"@));
}

proof fn lemma_balance_reply(
    number: Seq<char>,
    balance: Seq<char>,
    currency: Seq<char>,
    date: Seq<char>,
)
    requires
        plain(number) && plain(balance) && plain(currency) && plain(date),
    ensures
        parsed_message(balance_reply(number, balance, currency, date)) == Some(
            seq![
                read_back_segment(balance_code(number)),
                read_back_segment(balance_segment(number, balance, currency, date)),
            ],
        ),
{
    let code = balance_code(number);
    let seg = balance_segment(number, balance, currency, date);
    lemma_balance_code(number);
    lemma_balance_wire(number, balance, currency, date);
    lemma_behind_first(
        encode_utf8("HIRMS::2:"@) + encode_utf8(number) + encode_utf8("+0010::Saldo ermittelt'"@),
        encode_utf8("HISAL::7:"@),
        encode_utf8(number),
        encode_utf8("+1::280:12345678+Girokonto+"@),
        encode_utf8(currency),
        encode_utf8("+C:"@),
        encode_utf8(balance),
        encode_utf8(":"@),
        encode_utf8(date),
        encode_utf8("'"@),
    );
    assert(balance_reply(number, balance, currency, date) == segment_wire(code) + segment_wire(
        seg,
    ));
    lemma_two_segments(code, seg);
}

/// A client that asks for a balance is told that of the first account: a credit,
/// with its currency and its date, under the number of its request.
pub proof fn law_balance_told(message: Seq<u8>, f: FixtureData, number: Seq<char>, v: Seq<char>)
    requires
        number_version_in(message, "HKSAL"@) == Some((number, v)),
        f.accounts.len() > 0,
        plain(number),
        plain(f.accounts[0].balance) && plain(f.accounts[0].currency) && plain(
            f.accounts[0].balance_date,
        ),
    ensures
        ({
            let a = f.accounts[0];
            &&& parsed_message(balance_part(message, f, None)) matches Some(segs)
            &&& segs.len() == 2
            &&& type_of(segs[0]) == "HIRMS"@ && text_at(segs[0], 0, 3) == number
            &&& text_at(segs[0], 1, 0) == "0010"@
            &&& type_of(segs[1]) == "HISAL"@ && text_at(segs[1], 0, 3) == number
            &&& text_at(segs[1], 3, 0) == a.currency
            &&& text_at(segs[1], 4, 0) == "C"@
            &&& text_at(segs[1], 4, 1) == a.balance
            &&& text_at(segs[1], 4, 2) == a.currency
            &&& text_at(segs[1], 4, 3) == a.balance_date
        }),
{
    let a = f.accounts[0];
    let code = balance_code(number);
    let seg = balance_segment(number, a.balance, a.currency, a.balance_date);
    lemma_balance_reply(number, a.balance, a.currency, a.balance_date);
    law_texts_kept(code, 0, 0);
    law_texts_kept(code, 0, 3);
    law_texts_kept(code, 1, 0);
    law_texts_kept(seg, 0, 0);
    law_texts_kept(seg, 0, 3);
    law_texts_kept(seg, 3, 0);
    law_texts_kept(seg, 4, 0);
    law_texts_kept(seg, 4, 1);
    law_texts_kept(seg, 4, 2);
    law_texts_kept(seg, 4, 3);
}

proof fn lemma_behind_first(
    f: Seq<u8>,
    h: Seq<u8>,
    n: Seq<u8>,
    k: Seq<u8>,
    cur: Seq<u8>,
    c: Seq<u8>,
    bal: Seq<u8>,
    s: Seq<u8>,
    d: Seq<u8>,
    q: Seq<u8>,
)
    ensures
        f + (h + n + k + cur + c + bal + s + cur + s + d + q) == f + h + n + k + cur + c + bal + s
            + cur + s + d + q,
{
    assert(f + (h + n + k + cur + c + bal + s + cur + s + d + q) =~= f + h + n + k + cur + c + bal
        + s + cur + s + d + q);
}

// ---- Transactions ----

proof fn lemma_payload(number: Seq<char>, page: Seq<u8>)
    requires
        plain(number),
    ensures
        ({
            let seg = page_segment(number, page);
            &&& segment_wire(seg) == encode_utf8("HIKAZ::7:"@) + encode_utf8(number) + encode_utf8(
                "+@"@,
            ) + encode_utf8(decimal(page.len())) + encode_utf8("@"@) + page + encode_utf8("'"@)
            &&& segment_encodable(seg)
        }),
{
    let seg = page_segment(number, page);
    let e = Seq::<Element>::empty();
    reveal_strlit("HIKAZ");
    reveal_strlit("7");
    reveal_strlit("HIKAZ::7:");
    lemma_reference_group("HIKAZ"@, "7"@, number);
    lemma_group_grows(e, Element::Binary(page));
    assert(seg[1] =~= e.push(Element::Binary(page)));
    lemma_group_whole(seg[1]);
    lemma_segment_of_two(seg[0], seg[1]);
    assert(seg =~= seq![seg[0], seg[1]]);
    lemma_separators();
    lemma_ascii("HIKAZ"@);
    lemma_ascii("7"@);
    lemma_ascii("HIKAZ::7:"@);
    lemma_decimal_digits(page.len());
    lemma_digits_ascii(decimal(page.len()));
    assert(ascii_bytes(decimal(page.len())) =~= encode_utf8(decimal(page.len()))) by {
        lemma_digits_plain(decimal(page.len()));
        lemma_plain_wire(decimal(page.len()));
        assert forall|i: int| 0 <= i < decimal(page.len()).len() implies '\0' <= #[trigger] decimal(
            page.len(),
        )[i] <= '\u{7f}' by {
            assert(plain_char(decimal(page.len())[i]));
        }
        lemma_ascii(decimal(page.len()));
    }
    assert(encode_utf8("HIKAZ::7:"@) =~= encode_utf8("HIKAZ"@) + seq![0x3au8, 0x3au8]
        + encode_utf8("7"@) + seq![0x3au8]);
    assert(segment_wire(seg) =~= encode_utf8("HIKAZ::7:"@) + encode_utf8(number) + encode_utf8(
        "+@"@,
    ) + encode_utf8(decimal(page.len())) + encode_utf8("@"@) + page + encode_utf8("'"@));
}

/// The segment that a page of transactions is told in.
spec fn page_segment(number: Seq<char>, page: Seq<u8>) -> Seq<Group> {
    seq![
        seq![t("HIKAZ"@), Element::Empty, t("7"@), t(number)],
        seq![Element::Binary(page)],
    ]
}

/// The segment with the code that comes with a page.
spec fn page_code(number: Seq<char>, next: Option<int>) -> Seq<Group> {
    seq![
        seq![t("HIRMS"@), Element::Empty, t("2"@), t(number)],
        match next {
            Some(n) => seq![
                t("3040"@),
                Element::Empty,
                t("Es liegen weitere Informationen vor"@),
                t(decimal(n as nat)),
            ],
            None => seq![t("0010"@), Element::Empty, t("Umsaetze geliefert"@)],
        },
    ]
}

proof fn lemma_last_page_code(number: Seq<char>)
    requires
        plain(number),
    ensures
        segment_wire(page_code(number, None)) == encode_utf8("HIRMS::2:"@) + encode_utf8(number)
            + paging_code(None),
        segment_encodable(page_code(number, None)),
{
    reveal_strlit("0010");
    reveal_strlit("Umsaetze geliefert");
    reveal_strlit("+0010::Umsaetze geliefert'");
    lemma_code_wire(number, "0010"@, "Umsaetze geliefert"@);
    lemma_ascii("0010"@);
    lemma_ascii("Umsaetze geliefert"@);
    lemma_ascii("+0010::Umsaetze geliefert'"@);
    assert(encode_utf8("+0010::Umsaetze geliefert'"@) =~= seq![0x2bu8] + encode_utf8("0010"@)
        + seq![0x3au8, 0x3au8] + encode_utf8("Umsaetze geliefert"@) + seq![0x27u8]);
    assert(page_code(number, None) =~= seq![
        seq![t("HIRMS"@), Element::Empty, t("2"@), t(number)],
        seq![t("0010"@), Element::Empty, t("Umsaetze geliefert"@)],
    ]);
    assert(segment_wire(page_code(number, None)) =~= encode_utf8("HIRMS::2:"@) + encode_utf8(number)
        + paging_code(None));
}

proof fn lemma_next_page_code(number: Seq<char>, n: int)
    requires
        plain(number),
        0 <= n,
    ensures
        segment_wire(page_code(number, Some(n))) == encode_utf8("HIRMS::2:"@) + encode_utf8(number)
            + paging_code(Some(n)),
        segment_encodable(page_code(number, Some(n))),
{
    let seg = page_code(number, Some(n));
    let text = "Es liegen weitere Informationen vor"@;
    reveal_strlit("HIRMS");
    reveal_strlit("2");
    reveal_strlit("HIRMS::2:");
    reveal_strlit("3040");
    reveal_strlit("Es liegen weitere Informationen vor");
    reveal_strlit("+3040::Es liegen weitere Informationen vor:");
    lemma_decimal_digits(n as nat);
    lemma_digits_plain(decimal(n as nat));
    lemma_reference_group("HIRMS"@, "2"@, number);
    lemma_reference_group("3040"@, text, decimal(n as nat));
    lemma_segment_of_two(seg[0], seg[1]);
    assert(seg =~= seq![seg[0], seg[1]]);
    lemma_separators();
    lemma_ascii("HIRMS"@);
    lemma_ascii("2"@);
    lemma_ascii("HIRMS::2:"@);
    lemma_ascii("3040"@);
    lemma_ascii(text);
    lemma_ascii("+3040::Es liegen weitere Informationen vor:"@);
    assert(encode_utf8("HIRMS::2:"@) =~= encode_utf8("HIRMS"@) + seq![0x3au8, 0x3au8]
        + encode_utf8("2"@) + seq![0x3au8]);
    assert(encode_utf8("+3040::Es liegen weitere Informationen vor:"@) =~= seq![0x2bu8]
        + encode_utf8("3040"@) + seq![0x3au8, 0x3au8] + encode_utf8(text) + seq![0x3au8]);
    assert(segment_wire(seg) =~= encode_utf8("HIRMS::2:"@) + encode_utf8(number) + paging_code(
        Some(n),
    ));
}

proof fn lemma_page_reply(number: Seq<char>, start: int)
    requires
        plain(number),
        0 <= start,
    ensures
        ({
            let pages = transaction_pages();
            let (shown, next) = page_at(start, pages.len() as int);
            parsed_message(transactions_reply(number, start)) == Some(
                seq![
                    read_back_segment(page_code(number, next)),
                    read_back_segment(page_segment(number, pages[shown])),
                ],
            )
        }),
{
    let pages = transaction_pages();
    let (shown, next) = page_at(start, pages.len() as int);
    let code = page_code(number, next);
    let seg = page_segment(number, pages[shown]);
    match next {
        Some(n) => {
            lemma_next_page_code(number, n);
        },
        None => {
            lemma_last_page_code(number);
        },
    }
    lemma_payload(number, pages[shown]);
    lemma_page_glued(
        encode_utf8("HIRMS::2:"@) + encode_utf8(number) + paging_code(next),
        encode_utf8("HIKAZ::7:"@),
        encode_utf8(number),
        encode_utf8("+@"@),
        encode_utf8(decimal(pages[shown].len())),
        encode_utf8("@"@),
        pages[shown],
        encode_utf8("'"@),
    );
    assert(transactions_reply(number, start) == segment_wire(code) + segment_wire(seg));
    lemma_two_segments(code, seg);
}

proof fn lemma_page_glued(
    f: Seq<u8>,
    h: Seq<u8>,
    n: Seq<u8>,
    a: Seq<u8>,
    l: Seq<u8>,
    b: Seq<u8>,
    page: Seq<u8>,
    q: Seq<u8>,
)
    ensures
        f + (h + n + a + l + b + page + q) == f + h + n + a + l + b + page + q,
{
    assert(f + (h + n + a + l + b + page + q) =~= f + h + n + a + l + b + page + q);
}

/// A client that asks for transactions is told the page that its point leads to,
/// the first one where it states none, and the point of the next page, where
/// there is one.
pub proof fn law_page_told(message: Seq<u8>, number: Seq<char>, v: Seq<char>)
    requires
        number_version_in(message, "HKKAZ"@) == Some((number, v)),
        plain(number),
        touchdown_in(message) matches Some(n) ==> 0 <= n,
    ensures
        ({
            let pages = transaction_pages();
            let start = match touchdown_in(message) {
                Some(n) => n,
                None => 0,
            };
            &&& parsed_message(transactions_part(message, None)) matches Some(segs)
            &&& segs.len() == 2
            &&& type_of(segs[0]) == "HIRMS"@ && text_at(segs[0], 0, 3) == number
            &&& type_of(segs[1]) == "HIKAZ"@ && text_at(segs[1], 0, 3) == number
            &&& start < pages.len() ==> bytes_at(segs[1], 1, 0) == Some(pages[start])
            &&& start >= pages.len() ==> bytes_at(segs[1], 1, 0) == Some(pages.last())
            &&& start + 1 < pages.len() ==> text_at(segs[0], 1, 0) == "3040"@ && text_at(
                segs[0],
                1,
                3,
            ) == decimal((start + 1) as nat)
            &&& start + 1 >= pages.len() ==> text_at(segs[0], 1, 0) == "0010"@ && text_at(
                segs[0],
                1,
                3,
            ).len() == 0
        }),
{
    let pages = transaction_pages();
    let start = match touchdown_in(message) {
        Some(n) => n,
        None => 0,
    };
    let (shown, next) = page_at(start, pages.len() as int);
    let code = page_code(number, next);
    let seg = page_segment(number, pages[shown]);
    lemma_page_reply(number, start);
    law_texts_kept(code, 0, 0);
    law_texts_kept(code, 0, 3);
    law_texts_kept(code, 1, 0);
    law_texts_kept(code, 1, 3);
    law_texts_kept(seg, 0, 0);
    law_texts_kept(seg, 0, 3);
    law_texts_kept(seg, 1, 0);
}

// ---- Positions ----

proof fn lemma_char_ascii(c: char)
    requires
        (c as u32) < 0x80,
    ensures
        '\0' <= c <= '\u{7f}',
        crate::serializer::is_special(c as u8) <==> c == '?' || c == '+' || c == ':' || c == '\''
            || c == '@',
{
}

/// An ASCII text is escaped as it is written.
proof fn lemma_escaped(s: Seq<char>)
    requires
        forall|i: int| 0 <= i < s.len() ==> (#[trigger] s[i]) as u32 <= 0x7f,
    ensures
        encode_utf8(escaped(s)) == text_wire(s),
        forall|i: int| 0 <= i < escaped(s).len() ==> '\0' <= #[trigger] escaped(s)[i] <= '\u{7f}',
    decreases s.len(),
{
    if s.len() == 0 {
        lemma_ascii(escaped(s));
        assert(encode_utf8(escaped(s)) =~= Seq::<u8>::empty());
    } else {
        let c = s.last();
        let init = s.drop_last();
        assert(s[s.len() - 1] == c);
        assert forall|i: int| 0 <= i < init.len() implies (#[trigger] init[i]) as u32 <= 0x7f by {
            assert(init[i] == s[i]);
        }
        lemma_escaped(init);
        lemma_char_ascii(c);
        lemma_text_wire_push(init, c);
        assert(init.push(c) =~= s);
        let e = escaped(s);
        assert forall|i: int| 0 <= i < e.len() implies '\0' <= #[trigger] e[i] <= '\u{7f}' by {
            if i < escaped(init).len() {
                assert(e[i] == escaped(init)[i]);
            }
        }
        lemma_ascii(e);
        lemma_ascii(escaped(init));
        assert(encode_utf8(e) =~= text_wire(init) + crate::serializer::char_wire(c));
    }
}

/// A position of the mock bank as a DEG.
pub open spec fn position_group(h: HoldingData) -> Group {
    seq![
        Element::Text(h.isin),
        Element::Text(h.wkn),
        Element::Text(h.name),
        Element::Text(h.quantity),
        Element::Text(h.price),
        Element::Text(h.price_currency),
        Element::Text(h.price_date),
        Element::Text(h.market_value),
    ]
}

/// Positions whose name is ASCII and whose other texts hold no character with a
/// meaning of its own.
pub open spec fn tellable(h: HoldingData) -> bool {
    &&& plain(h.isin) && plain(h.wkn) && plain(h.quantity) && plain(h.price)
    &&& plain(h.price_currency) && plain(h.price_date) && plain(h.market_value)
    &&& forall|i: int| 0 <= i < h.name.len() ==> (#[trigger] h.name[i]) as u32 <= 0x7f
}

proof fn lemma_position_wire(h: HoldingData)
    requires
        tellable(h),
    ensures
        seq![0x2bu8] + group_wire(position_group(h)) == holding_deg(h),
        trimmed_group(position_group(h)).len() > 0,
        group_encodable(position_group(h)),
{
    let g = position_group(h);
    let e = Seq::<Element>::empty();
    let g1 = e.push(g[0]);
    let g2 = g1.push(g[1]);
    let g3 = g2.push(g[2]);
    let g4 = g3.push(g[3]);
    let g5 = g4.push(g[4]);
    let g6 = g5.push(g[5]);
    let g7 = g6.push(g[6]);
    lemma_group_grows(e, g[0]);
    lemma_group_grows(g1, g[1]);
    lemma_group_grows(g2, g[2]);
    lemma_group_grows(g3, g[3]);
    lemma_group_grows(g4, g[4]);
    lemma_group_grows(g5, g[5]);
    lemma_group_grows(g6, g[6]);
    lemma_group_grows(g7, g[7]);
    assert(g =~= g7.push(g[7]));
    lemma_group_whole(g);
    lemma_plain_wire(h.isin);
    lemma_plain_wire(h.wkn);
    lemma_plain_wire(h.quantity);
    lemma_plain_wire(h.price);
    lemma_plain_wire(h.price_currency);
    lemma_plain_wire(h.price_date);
    lemma_plain_wire(h.market_value);
    lemma_escaped(h.name);
    lemma_separators();
    lemma_eight_glued(
        encode_utf8(h.isin),
        encode_utf8(h.wkn),
        encode_utf8(escaped(h.name)),
        encode_utf8(h.quantity),
        encode_utf8(h.price),
        encode_utf8(h.price_currency),
        encode_utf8(h.price_date),
        encode_utf8(h.market_value),
    );
    assert forall|i: int| 0 <= i < g.len() implies encodable(#[trigger] g[i]) by {
        if i == 2 {
            assert forall|j: int| 0 <= j < h.name.len() implies (#[trigger] h.name[j]) as u32
                <= 0xff by {}
        }
    }
}

proof fn lemma_eight_glued(
    a: Seq<u8>,
    b: Seq<u8>,
    c: Seq<u8>,
    d: Seq<u8>,
    e: Seq<u8>,
    f: Seq<u8>,
    g: Seq<u8>,
    h: Seq<u8>,
)
    ensures
        ({
            let s = seq![0x3au8];
            let p = seq![0x2bu8];
            p + (a + s + b + s + c + s + d + s + e + s + f + s + g + s + h) == p + a + s + b + s + c
                + s + d + s + e + s + f + s + g + s + h
        }),
{
    let s = seq![0x3au8];
    let p = seq![0x2bu8];
    assert(p + (a + s + b + s + c + s + d + s + e + s + f + s + g + s + h) =~= p + a + s + b + s + c
        + s + d + s + e + s + f + s + g + s + h);
}

/// A segment with positions behind it.
spec fn with_positions(front: Seq<Group>, hs: Seq<HoldingData>) -> Seq<Group> {
    front + hs.map_values(|h: HoldingData| position_group(h))
}

proof fn lemma_positions_wire(front: Seq<Group>, hs: Seq<HoldingData>)
    requires
        front.len() > 0,
        forall|i: int| 0 <= i < hs.len() ==> tellable(#[trigger] hs[i]),
    ensures
        whole_segment(with_positions(front, hs)) == whole_segment(front) + holding_degs(hs),
    decreases hs.len(),
{
    if hs.len() == 0 {
        assert(with_positions(front, hs) =~= front);
        assert(whole_segment(front) + holding_degs(hs) =~= whole_segment(front));
    } else {
        let init = hs.drop_last();
        assert forall|i: int| 0 <= i < init.len() implies tellable(#[trigger] init[i]) by {
            assert(init[i] == hs[i]);
        }
        lemma_positions_wire(front, init);
        assert(tellable(hs[hs.len() - 1]));
        lemma_position_wire(hs.last());
        lemma_segment_grows(with_positions(front, init), position_group(hs.last()));
        assert(with_positions(front, hs) =~= with_positions(front, init).push(
            position_group(hs.last()),
        ));
        assert(whole_segment(with_positions(front, hs)) =~= whole_segment(front) + holding_degs(
            hs,
        ));
    }
}

spec fn depot_front(number: Seq<char>, iban: Seq<char>, bic: Seq<char>) -> Seq<Group> {
    seq![seq![t("HIWPD"@), Element::Empty, t("6"@), t(number)], seq![t(iban), t(bic)]]
}

spec fn depot_code(number: Seq<char>) -> Seq<Group> {
    seq![
        seq![t("HIRMS"@), Element::Empty, t("2"@), t(number)],
        seq![t("0010"@), Element::Empty, t("Depot abgerufen"@)],
    ]
}

proof fn lemma_depot_front(number: Seq<char>, iban: Seq<char>, bic: Seq<char>)
    requires
        plain(number) && plain(iban) && plain(bic),
    ensures
        whole_segment(depot_front(number, iban, bic)) == encode_utf8("HIWPD::6:"@) + encode_utf8(
            number,
        ) + seq![0x2bu8] + (encode_utf8(iban) + seq![0x3au8] + encode_utf8(bic)),
        group_encodable(depot_front(number, iban, bic)[0]),
        group_encodable(depot_front(number, iban, bic)[1]),
        trimmed_group(depot_front(number, iban, bic)[1]).len() > 0,
{
    let front = depot_front(number, iban, bic);
    let e = Seq::<Element>::empty();
    let s = Seq::<Group>::empty();
    reveal_strlit("HIWPD");
    reveal_strlit("6");
    reveal_strlit("HIWPD::6:");
    lemma_reference_group("HIWPD"@, "6"@, number);
    lemma_plain_wire(iban);
    lemma_plain_wire(bic);
    lemma_group_grows(e, t(iban));
    lemma_group_grows(e.push(t(iban)), t(bic));
    assert(front[1] =~= e.push(t(iban)).push(t(bic)));
    lemma_group_whole(front[1]);
    lemma_segment_grows(s, front[0]);
    lemma_segment_grows(s.push(front[0]), front[1]);
    assert(front =~= s.push(front[0]).push(front[1]));
    lemma_ascii("HIWPD"@);
    lemma_ascii("6"@);
    lemma_ascii("HIWPD::6:"@);
    assert(encode_utf8("HIWPD::6:"@) =~= encode_utf8("HIWPD"@) + seq![0x3au8, 0x3au8]
        + encode_utf8("6"@) + seq![0x3au8]);
    assert(whole_segment(front) =~= encode_utf8("HIWPD::6:"@) + encode_utf8(number) + seq![0x2bu8]
        + (encode_utf8(iban) + seq![0x3au8] + encode_utf8(bic)));
}

proof fn lemma_depot_code(number: Seq<char>)
    requires
        plain(number),
    ensures
        segment_wire(depot_code(number)) + encode_utf8("HIWPD::6:"@) == encode_utf8("HIRMS::2:"@)
            + encode_utf8(number) + encode_utf8("+0010::Depot abgerufen'HIWPD::6:"@),
        segment_encodable(depot_code(number)),
{
    reveal_strlit("0010");
    reveal_strlit("Depot abgerufen");
    reveal_strlit("HIWPD::6:");
    reveal_strlit("+0010::Depot abgerufen'HIWPD::6:");
    lemma_code_wire(number, "0010"@, "Depot abgerufen"@);
    lemma_ascii("0010"@);
    lemma_ascii("Depot abgerufen"@);
    lemma_ascii("HIWPD::6:"@);
    lemma_ascii("+0010::Depot abgerufen'HIWPD::6:"@);
    assert(encode_utf8("+0010::Depot abgerufen'HIWPD::6:"@) =~= seq![0x2bu8] + encode_utf8(
        "0010"@,
    ) + seq![0x3au8, 0x3au8] + encode_utf8("Depot abgerufen"@) + seq![0x27u8] + encode_utf8(
        "HIWPD::6:"@,
    ));
    assert(segment_wire(depot_code(number)) + encode_utf8("HIWPD::6:"@) =~= encode_utf8(
        "HIRMS::2:"@,
    ) + encode_utf8(number) + encode_utf8("+0010::Depot abgerufen'HIWPD::6:"@));
}

proof fn lemma_depot_glued(
    code: Seq<u8>,
    h: Seq<u8>,
    n: Seq<u8>,
    account: Seq<u8>,
    degs: Seq<u8>,
    all: Seq<u8>,
)
    requires
        code + h == all,
    ensures
        code + (h + n + seq![0x2bu8] + account + degs).push(0x27) == all + n + seq![0x2bu8] + account
            + degs + seq![0x27u8],
{
    assert(code + (h + n + seq![0x2bu8] + account + degs).push(0x27) =~= (code + h) + n + seq![
        0x2bu8,
    ] + account + degs + seq![0x27u8]);
}

/// A client that asks for positions is told those of the bank, in order, each with
/// ISIN, WKN, name, quantity, price, currency, date and market value as they
/// stand, and the first account.
pub proof fn law_positions_told(message: Seq<u8>, f: FixtureData, number: Seq<char>, v: Seq<char>)
    requires
        number_version_in(message, "HKWPD"@) == Some((number, v)),
        f.accounts.len() > 0,
        f.holdings.len() > 0,
        plain(number),
        plain(f.accounts[0].iban) && plain(f.accounts[0].bic),
        forall|i: int| 0 <= i < f.holdings.len() ==> tellable(#[trigger] f.holdings[i]),
    ensures
        ({
            &&& parsed_message(holdings_part(message, f, None)) matches Some(segs)
            &&& segs.len() == 2
            &&& type_of(segs[0]) == "HIRMS"@ && text_at(segs[0], 0, 3) == number
            &&& type_of(segs[1]) == "HIWPD"@ && text_at(segs[1], 0, 3) == number
            &&& text_at(segs[1], 1, 0) == f.accounts[0].iban
            &&& text_at(segs[1], 1, 1) == f.accounts[0].bic
            &&& segs[1].len() == f.holdings.len() + 2
            &&& forall|i: int, j: int|
                0 <= i < f.holdings.len() ==> #[trigger] text_at(segs[1], i + 2, j) == (if 0 <= j
                    < 8 {
                    element_text(position_group(f.holdings[i])[j])
                } else {
                    Seq::empty()
                })
        }),
{
    let a = f.accounts[0];
    let front = depot_front(number, a.iban, a.bic);
    let seg = with_positions(front, f.holdings);
    let code = depot_code(number);
    lemma_depot_front(number, a.iban, a.bic);
    lemma_depot_code(number);
    lemma_positions_wire(front, f.holdings);
    lemma_separators();
    let n = f.holdings.len() as int;
    assert(seg.last() == position_group(f.holdings[n - 1]));
    lemma_position_wire(f.holdings[n - 1]);
    lemma_segment_whole(seg);
    assert(segment_encodable(seg)) by {
        assert forall|i: int| 0 <= i < seg.len() implies group_encodable(#[trigger] seg[i]) by {
            if i < 2 {
                assert(seg[i] == front[i]);
            } else {
                assert(seg[i] == position_group(f.holdings[i - 2]));
                lemma_position_wire(f.holdings[i - 2]);
            }
        }
    }
    lemma_depot_glued(
        segment_wire(code),
        encode_utf8("HIWPD::6:"@),
        encode_utf8(number),
        encode_utf8(a.iban) + seq![0x3au8] + encode_utf8(a.bic),
        holding_degs(f.holdings),
        encode_utf8("HIRMS::2:"@) + encode_utf8(number) + encode_utf8(
            "+0010::Depot abgerufen'HIWPD::6:"@,
        ),
    );
    assert(holdings_part(message, f, None) == segment_wire(code) + segment_wire(seg));
    lemma_two_segments(code, seg);
    law_texts_kept(code, 0, 0);
    law_texts_kept(code, 0, 3);
    law_texts_kept(seg, 0, 0);
    law_texts_kept(seg, 0, 3);
    law_texts_kept(seg, 1, 0);
    law_texts_kept(seg, 1, 1);
    let back = read_back_segment(seg);
    assert(trimmed_segment(seg) == seg);
    assert forall|i: int, j: int| 0 <= i < f.holdings.len() implies #[trigger] text_at(
        back,
        i + 2,
        j,
    ) == (if 0 <= j < 8 {
        element_text(position_group(f.holdings[i])[j])
    } else {
        Seq::empty()
    }) by {
        law_texts_kept(seg, i + 2, j);
        assert(seg[i + 2] == position_group(f.holdings[i]));
    }
}

/// Without an account the bank tells a balance of 1523,42 euros on 15 January
/// 2025.
pub proof fn law_default_balance(message: Seq<u8>, f: FixtureData, g: FixtureData)
    requires
        f.accounts.len() == 0,
        g.accounts.len() > 0,
        g.accounts[0].balance == "1523,42"@,
        g.accounts[0].currency == "EUR"@,
        g.accounts[0].balance_date == "20250115"@,
    ensures
        balance_part(message, f, None) == balance_part(message, g, None),
{
}

/// Positions without an account are told for an account of the bank's own.
pub proof fn law_default_depot(message: Seq<u8>, f: FixtureData, g: FixtureData)
    requires
        f.accounts.len() == 0,
        f.holdings.len() > 0,
        g.accounts.len() > 0,
        g.accounts[0].iban == "DE89370400440532013000"@,
        g.accounts[0].bic == "GENODE23X42"@,
        g.holdings == f.holdings,
    ensures
        holdings_part(message, f, None) == holdings_part(message, g, None),
{
    reveal_strlit("DE89370400440532013000:GENODE23X42");
    reveal_strlit("DE89370400440532013000");
    reveal_strlit("GENODE23X42");
    lemma_separators();
    lemma_ascii("DE89370400440532013000:GENODE23X42"@);
    lemma_ascii("DE89370400440532013000"@);
    lemma_ascii("GENODE23X42"@);
    assert(encode_utf8("DE89370400440532013000:GENODE23X42"@) =~= encode_utf8(
        "DE89370400440532013000"@,
    ) + encode_utf8(":"@) + encode_utf8("GENODE23X42"@));
}

// ---- Initializations ----

/// Whether some bytes hold one segment, behind which nothing stands.
pub open spec fn one_segment(bytes: Seq<u8>) -> bool {
    &&& bytes.len() > 0 && bytes.last() == 0x27
    &&& forall|i: int| 0 <= i < bytes.len() - 1 ==> #[trigger] bytes[i] != 0x27
}

/// A client is sent the parameters of the bank unless it knows version 78 of them,
/// those of the user unless it knows version 3, and otherwise one segment of
/// codes.
pub proof fn law_parameters_on_demand(
    number: Seq<char>,
    bpd: Seq<char>,
    upd: Seq<char>,
    locked: bool,
    port: int,
)
    requires
        plain(number),
    ensures
        exists|codes: Seq<u8>|
            #[trigger] one_segment(codes) && preparation_reply(number, bpd, upd, locked, port)
                == codes + (if bpd == "78"@ {
                Seq::<u8>::empty()
            } else {
                bpd_segments(port)
            }) + (if upd == "3"@ {
                Seq::<u8>::empty()
            } else {
                upd_segments()
            }),
{
    let front = encode_utf8("HIRMS::2:"@) + encode_utf8(number);
    let a = text_if(
        bpd != "78"@,
        "+3050::BPD nicht mehr aktuell, aktuelle Version enthalten."@,
    );
    let b = text_if(upd != "3"@, "+3050::UPD nicht mehr aktuell, aktuelle Version enthalten."@);
    let c = text_if(locked, "+3938::Ihr Zugang ist vor\u{fc}bergehend gesperrt."@);
    let d = text_if(
        !locked,
        "+3920::Zugelassene TAN-Verfahren fur den Benutzer:942+0901::*PIN gultig."@,
    );
    let e = encode_utf8("+0020::*Dialoginitialisierung erfolgreich'"@);
    lemma_preparation_texts();
    lemma_plain_bytes(number);
    let codes = front + a + b + c + d + e;
    assert(one_segment(codes));
    assert(preparation_reply(number, bpd, upd, locked, port) =~= codes + (if bpd == "78"@ {
        Seq::<u8>::empty()
    } else {
        bpd_segments(port)
    }) + (if upd == "3"@ {
        Seq::<u8>::empty()
    } else {
        upd_segments()
    }));
}

/// Whether no quote stands in the UTF-8 form of a text.
spec fn unquoted(s: Seq<char>) -> bool {
    forall|i: int| 0 <= i < encode_utf8(s).len() ==> #[trigger] encode_utf8(s)[i] != 0x27
}

proof fn lemma_unquoted(s: Seq<char>)
    requires
        !s.contains('\''),
    ensures
        unquoted(s),
{
    assert forall|i: int| 0 <= i < encode_utf8(s).len() implies #[trigger] encode_utf8(s)[i]
        != 0x27 by {
        if encode_utf8(s)[i] == 0x27 {
            lemma_byte_of_char(s, i);
            assert(0x27u8 as char == '\'');
        }
    }
}

proof fn lemma_plain_bytes(s: Seq<char>)
    requires
        plain(s),
    ensures
        unquoted(s),
{
    assert forall|i: int| 0 <= i < s.len() implies s[i] != '\'' by {
        assert(plain_char(s[i]));
    }
    lemma_unquoted(s);
}

proof fn lemma_preparation_texts()
    ensures
        unquoted("HIRMS::2:"@),
        unquoted("+3050::BPD nicht mehr aktuell, aktuelle Version enthalten."@),
        unquoted("+3050::UPD nicht mehr aktuell, aktuelle Version enthalten."@),
        unquoted("+3938::Ihr Zugang ist vor\u{fc}bergehend gesperrt."@),
        unquoted("+3920::Zugelassene TAN-Verfahren fur den Benutzer:942+0901::*PIN gultig."@),
        one_segment(encode_utf8("+0020::*Dialoginitialisierung erfolgreich'"@)),
{
    reveal_strlit("HIRMS::2:");
    reveal_strlit("+3050::BPD nicht mehr aktuell, aktuelle Version enthalten.");
    reveal_strlit("+3050::UPD nicht mehr aktuell, aktuelle Version enthalten.");
    reveal_strlit("+3938::Ihr Zugang ist vor\u{fc}bergehend gesperrt.");
    reveal_strlit("+3920::Zugelassene TAN-Verfahren fur den Benutzer:942+0901::*PIN gultig.");
    reveal_strlit("+0020::*Dialoginitialisierung erfolgreich'");
    lemma_unquoted("HIRMS::2:"@);
    lemma_unquoted("+3050::BPD nicht mehr aktuell, aktuelle Version enthalten."@);
    lemma_unquoted("+3050::UPD nicht mehr aktuell, aktuelle Version enthalten."@);
    lemma_unquoted("+3938::Ihr Zugang ist vor\u{fc}bergehend gesperrt."@);
    lemma_unquoted(
        "+3920::Zugelassene TAN-Verfahren fur den Benutzer:942+0901::*PIN gultig."@,
    );
    lemma_ascii("+0020::*Dialoginitialisierung erfolgreich'"@);
}

/// A client whose access is locked is told so in place of what it may sign with;
/// nothing else of the answer depends on it.
pub proof fn law_lock_told(
    number: Seq<char>,
    bpd: Seq<char>,
    upd: Seq<char>,
    port: int,
)
    ensures
        exists|front: Seq<u8>, back: Seq<u8>|
            #![trigger front + back]
            preparation_reply(number, bpd, upd, true, port) == front + encode_utf8(
                "+3938::Ihr Zugang ist vor\u{fc}bergehend gesperrt."@,
            ) + back && preparation_reply(number, bpd, upd, false, port) == front + encode_utf8(
                "+3920::Zugelassene TAN-Verfahren fur den Benutzer:942+0901::*PIN gultig."@,
            ) + back,
{
    let front = encode_utf8("HIRMS::2:"@) + encode_utf8(number) + text_if(
        bpd != "78"@,
        "+3050::BPD nicht mehr aktuell, aktuelle Version enthalten."@,
    ) + text_if(upd != "3"@, "+3050::UPD nicht mehr aktuell, aktuelle Version enthalten."@);
    let back = encode_utf8("+0020::*Dialoginitialisierung erfolgreich'"@) + (if bpd != "78"@ {
        bpd_segments(port)
    } else {
        Seq::<u8>::empty()
    }) + (if upd != "3"@ {
        upd_segments()
    } else {
        Seq::<u8>::empty()
    });
    let both = front + back;
    assert(preparation_reply(number, bpd, upd, true, port) =~= front + encode_utf8(
        "+3938::Ihr Zugang ist vor\u{fc}bergehend gesperrt."@,
    ) + back);
    assert(preparation_reply(number, bpd, upd, false, port) =~= front + encode_utf8(
        "+3920::Zugelassene TAN-Verfahren fur den Benutzer:942+0901::*PIN gultig."@,
    ) + back);
}

} // verus!
