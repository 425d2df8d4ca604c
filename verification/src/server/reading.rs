//! How a client reads the mock bank's answers.

use vstd::prelude::*;
use vstd::utf8::*;

use crate::codes::{codes_in, group_code, segment_codes, Code};
use crate::dialog::reply_dialog_id;
use crate::element::{num_element, text_at, text_element, type_of, Element, Group};
use crate::error::Failure;
use crate::message::{
    lemma_container_read_back, lemma_flattened_four, lemma_four,
    lemma_one_element_wire, lemma_padded_digits, lemma_type_read_back, message_failure,
    message_segments, message_size, message_wire, Seal, Sender,
};
use crate::numbers::{decimal, lemma_decimal_digits, padded};
use crate::params::Params;
use crate::parser::parsed_message;
use crate::reply::{
    codes_of, flattened, law_failure, other_number, reply_codes, reply_failure, reply_of,
};
use crate::request::Order;
use crate::roundtrip::{
    law_lossless, law_read_back, read_back, read_back_group, read_back_segment,
};
use crate::segments::builder::{
    header_group, hnhbk_model, hnhbs_model, hnvsd_model, identification_group, key_group, no_key,
    num_group, text_group,
};
use crate::serializer::{
    ascii_bytes, binary_wire, char_wire, element_wire, encodable, group_encodable, group_parts, group_wire,
    is_special, joined, latin1, lemma_joined_push, segment_encodable, segment_parts, segment_wire,
    segments_wire, text_wire, trimmed_group, trimmed_segment,
};
use crate::server::answer::refusal;
use crate::server::laws::{
    is_separator, lemma_ascii, lemma_byte_of_char, lemma_digits_ascii, lemma_header_id,
};
use crate::server::scan::dialog_id_in;
use crate::server::state::{
    after_answer, answer_of, answered, counted, dialog_for, encryption_header, envelope,
    envelope_container, envelope_header, envelope_size, envelope_trailer, refused, BankState,
};
use crate::text::{all_digits, is_digit};

verus! {

// ---- Plain texts ----

/// ASCII characters that have no meaning of their own.
pub open spec fn plain_char(c: char) -> bool {
    (c as u32) < 0x80 && !is_special(c as u8)
}

/// Texts of such characters.
pub open spec fn plain(s: Seq<char>) -> bool {
    forall|i: int| 0 <= i < s.len() ==> plain_char(#[trigger] s[i])
}

proof fn lemma_plain_bytes(s: Seq<char>)
    requires
        plain(s),
    ensures
        text_wire(s) == ascii_bytes(s),
    decreases s.len(),
{
    if s.len() > 0 {
        assert(plain_char(s[0]));
        assert forall|i: int| 0 <= i < s.skip(1).len() implies plain_char(#[trigger] s.skip(1)[i]) by {
            assert(plain_char(s[i + 1]));
        }
        lemma_plain_bytes(s.skip(1));
        assert(char_wire(s[0]) =~= seq![s[0] as u8]);
    }
    assert(text_wire(s) =~= ascii_bytes(s));
}

proof fn lemma_plain_char(c: char)
    requires
        plain_char(c),
    ensures
        '\0' <= c <= '\u{7f}',
        c as u32 <= 0xff,
{
}

/// Plain texts are written as they stand.
pub proof fn lemma_plain_wire(s: Seq<char>)
    requires
        plain(s),
    ensures
        text_wire(s) == encode_utf8(s),
        element_wire(text_element(s)) == encode_utf8(s),
        latin1(s),
{
    lemma_plain_bytes(s);
    assert forall|i: int| 0 <= i < s.len() implies '\0' <= #[trigger] s[i] <= '\u{7f}' by {
        lemma_plain_char(s[i]);
    }
    lemma_ascii(s);
    assert(ascii_bytes(s) =~= encode_utf8(s));
    assert forall|i: int| 0 <= i < s.len() implies (#[trigger] s[i]) as u32 <= 0xff by {
        lemma_plain_char(s[i]);
    }
}

pub proof fn lemma_digits_plain(s: Seq<char>)
    requires
        all_digits(s),
    ensures
        plain(s),
{
    assert forall|i: int| 0 <= i < s.len() implies plain_char(#[trigger] s[i]) by {
        assert(is_digit(s[i]));
    }
}

/// A number is written as its decimal notation.
pub proof fn lemma_num_wire(n: int)
    requires
        0 <= n,
    ensures
        element_wire(num_element(n)) == encode_utf8(decimal(n as nat)),
        group_wire(num_group(n)) == encode_utf8(decimal(n as nat)),
        trimmed_group(num_group(n)).len() == 1,
        group_encodable(num_group(n)),
{
    lemma_decimal_digits(n as nat);
    lemma_digits_plain(decimal(n as nat));
    lemma_plain_wire(decimal(n as nat));
    lemma_one_element_wire(num_element(n));
}

/// A DEG of one plain text.
proof fn lemma_text_group_wire(s: Seq<char>)
    requires
        plain(s),
    ensures
        group_wire(text_group(s)) == encode_utf8(s),
        group_encodable(text_group(s)),
{
    lemma_plain_wire(s);
    if s.len() > 0 {
        lemma_one_element_wire(text_element(s));
    } else {
        let g = text_group(s);
        assert(g =~= seq![Element::Empty]);
        assert(g.drop_last() =~= Seq::<Element>::empty());
        assert(trimmed_group(g.drop_last()) =~= Seq::<Element>::empty());
        assert(group_parts(g) =~= Seq::<Seq<u8>>::empty());
        assert(group_wire(g) =~= encode_utf8(s));
    }
}

// ---- Joins ----

pub proof fn lemma_joined_two(a: Seq<u8>, b: Seq<u8>, sep: u8)
    ensures
        joined(seq![a, b], sep) == a + seq![sep] + b,
{
    let e = Seq::<Seq<u8>>::empty();
    lemma_joined_push(e, a, sep);
    lemma_joined_push(e.push(a), b, sep);
    assert(seq![a, b] =~= e.push(a).push(b));
}

pub proof fn lemma_joined_three(a: Seq<u8>, b: Seq<u8>, c: Seq<u8>, sep: u8)
    ensures
        joined(seq![a, b, c], sep) == a + seq![sep] + b + seq![sep] + c,
{
    lemma_joined_two(a, b, sep);
    lemma_joined_push(seq![a, b], c, sep);
    assert(seq![a, b, c] =~= seq![a, b].push(c));
}

proof fn lemma_joined_five(a: Seq<u8>, b: Seq<u8>, c: Seq<u8>, d: Seq<u8>, e: Seq<u8>, sep: u8)
    ensures
        joined(seq![a, b, c, d, e], sep) == a + seq![sep] + b + seq![sep] + c + seq![sep] + d
            + seq![sep] + e,
{
    lemma_joined_three(a, b, c, sep);
    lemma_joined_push(seq![a, b, c], d, sep);
    lemma_joined_push(seq![a, b, c].push(d), e, sep);
    assert(seq![a, b, c, d, e] =~= seq![a, b, c].push(d).push(e));
}

/// A segment header as it is written.
pub proof fn lemma_header_wire(t: Seq<char>, number: int, version: int)
    requires
        plain(t),
        t.len() > 0,
        0 <= number,
        0 <= version,
    ensures
        group_wire(header_group(t, number, version)) == encode_utf8(t) + seq![0x3au8]
            + encode_utf8(decimal(number as nat)) + seq![0x3au8] + encode_utf8(
            decimal(version as nat),
        ),
        trimmed_group(header_group(t, number, version)).len() == 3,
        group_encodable(header_group(t, number, version)),
{
    let g = header_group(t, number, version);
    lemma_plain_wire(t);
    lemma_num_wire(number);
    lemma_num_wire(version);
    assert(num_group(number)[0] == g[1]);
    assert(num_group(version)[0] == g[2]);
    assert(g.last() == num_element(version));
    assert(trimmed_group(g) == g);
    let a = encode_utf8(t);
    let b = encode_utf8(decimal(number as nat));
    let c = encode_utf8(decimal(version as nat));
    assert(group_parts(g) =~= seq![a, b, c]);
    lemma_joined_three(a, b, c, 0x3a);
}

// ---- The parts of an answer ----

/// A text as it is read that was written in UTF-8: byte by byte.
pub open spec fn read_as_latin1(s: Seq<char>) -> Seq<char> {
    Seq::new(encode_utf8(s).len(), |i: int| encode_utf8(s)[i] as char)
}

/// Texts without characters that have a meaning of their own.
pub open spec fn without_separators(s: Seq<char>) -> bool {
    forall|i: int| 0 <= i < s.len() ==> !is_separator(#[trigger] s[i])
}

proof fn lemma_byte_wire(b: u8)
    requires
        !is_special(b),
    ensures
        char_wire(b as char) == seq![b],
        (b as char) as u32 <= 0xff,
{
}

/// Bytes that have no meaning of their own are written as they were read.
proof fn lemma_latin1_wire(chars: Seq<char>, bytes: Seq<u8>)
    requires
        chars == Seq::new(bytes.len(), |i: int| bytes[i] as char),
        forall|i: int| 0 <= i < bytes.len() ==> !is_special(#[trigger] bytes[i]),
    ensures
        text_wire(chars) == bytes,
        latin1(chars),
    decreases bytes.len(),
{
    if bytes.len() > 0 {
        let rest = bytes.skip(1);
        assert(chars.skip(1) =~= Seq::new(rest.len(), |i: int| rest[i] as char));
        assert forall|i: int| 0 <= i < rest.len() implies !is_special(#[trigger] rest[i]) by {
            assert(rest[i] == bytes[i + 1]);
        }
        lemma_latin1_wire(chars.skip(1), rest);
        assert(!is_special(bytes[0]));
        lemma_byte_wire(bytes[0]);
        assert(text_wire(chars) =~= bytes);
        assert forall|i: int| 0 <= i < chars.len() implies (#[trigger] chars[i]) as u32 <= 0xff by {
            assert(!is_special(bytes[i]));
            lemma_byte_wire(bytes[i]);
        }
    } else {
        assert(text_wire(chars) =~= bytes);
    }
}

/// A DEG of one text that was written in UTF-8.
proof fn lemma_id_group_wire(id: Seq<char>)
    requires
        without_separators(id),
    ensures
        group_wire(text_group(read_as_latin1(id))) == encode_utf8(id),
        group_encodable(text_group(read_as_latin1(id))),
{
    let bytes = encode_utf8(id);
    let t = read_as_latin1(id);
    assert forall|i: int| 0 <= i < bytes.len() implies !is_special(#[trigger] bytes[i]) by {
        if is_special(bytes[i]) {
            lemma_byte_of_char(id, i);
            let c = bytes[i] as char;
            let k = choose|k: int| 0 <= k < id.len() && id[k] == c;
            assert(is_separator(id[k])) by {
                lemma_special_separator(bytes[i]);
            }
        }
    }
    lemma_latin1_wire(t, bytes);
    if t.len() > 0 {
        lemma_one_element_wire(text_element(t));
    } else {
        let g = text_group(t);
        assert(g =~= seq![Element::Empty]);
        assert(g.drop_last() =~= Seq::<Element>::empty());
        assert(trimmed_group(g.drop_last()) =~= Seq::<Element>::empty());
        assert(group_parts(g) =~= Seq::<Seq<u8>>::empty());
        assert(group_wire(g) =~= bytes);
    }
}

proof fn lemma_special_separator(b: u8)
    requires
        is_special(b),
    ensures
        is_separator(b as char),
{
}

proof fn lemma_envelope_header(size: int, id: Seq<char>, n: int)
    requires
        without_separators(id),
        0 <= size,
        0 <= n,
    ensures
        segment_wire(hnhbk_model(size, read_as_latin1(id), n)) == envelope_header(size, id, n),
        segment_encodable(hnhbk_model(size, read_as_latin1(id), n)),
{
    let seg = hnhbk_model(size, read_as_latin1(id), n);
    reveal_strlit("HNHBK");
    reveal_strlit("300");
    assert(plain("HNHBK"@));
    assert(plain("300"@));
    lemma_padded_digits(size as nat, 12);
    lemma_digits_plain(padded(size as nat, 12));
    lemma_header_wire("HNHBK"@, 1, 3);
    lemma_text_group_wire(padded(size as nat, 12));
    lemma_text_group_wire("300"@);
    lemma_id_group_wire(id);
    lemma_num_wire(n);
    assert(seg.last() == num_group(n));
    assert(trimmed_segment(seg) == seg);
    let a = group_wire(seg[0]);
    let b = encode_utf8(padded(size as nat, 12));
    let c = encode_utf8("300"@);
    let d = encode_utf8(id);
    let e = encode_utf8(decimal(n as nat));
    assert(segment_parts(seg) =~= seq![a, b, c, d, e]);
    lemma_joined_five(a, b, c, d, e, 0x2b);
    lemma_header_literals();
    lemma_five_glued(a, b, c, d, e);
}

proof fn lemma_five_glued(a: Seq<u8>, b: Seq<u8>, c: Seq<u8>, d: Seq<u8>, e: Seq<u8>)
    ensures
        ({
            let p = seq![0x2bu8];
            (a + p + b + p + c + p + d + p + e).push(0x27) == (a + p) + b + (p + c + p) + d + p + e
                + seq![0x27u8]
        }),
{
    let p = seq![0x2bu8];
    let q = seq![0x27u8];
    assert((a + p + b + p + c + p + d + p + e).push(0x27) =~= (a + p) + b + (p + c + p) + d + p + e
        + q);
}

proof fn lemma_header_literals()
    ensures
        encode_utf8("HNHBK:1:3+"@) == encode_utf8("HNHBK"@) + seq![0x3au8] + encode_utf8(decimal(1))
            + seq![0x3au8] + encode_utf8(decimal(3)) + seq![0x2bu8],
        encode_utf8("+300+"@) == seq![0x2bu8] + encode_utf8("300"@) + seq![0x2bu8],
        encode_utf8("+"@) == seq![0x2bu8],
        encode_utf8("'"@) == seq![0x27u8],
        encode_utf8("@"@) == seq![0x40u8],
{
    reveal_strlit("HNHBK:1:3+");
    reveal_strlit("HNHBK");
    reveal_strlit("+300+");
    reveal_strlit("300");
    reveal_strlit("+");
    reveal_strlit("'");
    reveal_strlit("@");
    lemma_ascii("HNHBK:1:3+"@);
    lemma_ascii("HNHBK"@);
    lemma_ascii("+300+"@);
    lemma_ascii("300"@);
    lemma_ascii("+"@);
    lemma_ascii("'"@);
    lemma_ascii("@"@);
    lemma_decimal_digits(1);
    lemma_decimal_digits(3);
    lemma_digits_ascii(decimal(1));
    lemma_digits_ascii(decimal(3));
    lemma_ascii(decimal(1));
    lemma_ascii(decimal(3));
    assert(encode_utf8(decimal(1)) =~= seq![0x31u8]);
    assert(encode_utf8(decimal(3)) =~= seq![0x33u8]);
    assert(encode_utf8("HNHBK:1:3+"@) =~= encode_utf8("HNHBK"@) + seq![0x3au8] + encode_utf8(
        decimal(1),
    ) + seq![0x3au8] + encode_utf8(decimal(3)) + seq![0x2bu8]);
    assert(encode_utf8("+300+"@) =~= seq![0x2bu8] + encode_utf8("300"@) + seq![0x2bu8]);
    assert(encode_utf8("+"@) =~= seq![0x2bu8]);
    assert(encode_utf8("'"@) =~= seq![0x27u8]);
    assert(encode_utf8("@"@) =~= seq![0x40u8]);
}

pub proof fn lemma_envelope_container(inner: Seq<u8>)
    ensures
        segment_wire(hnvsd_model(inner)) == envelope_container(inner),
        segment_encodable(hnvsd_model(inner)),
{
    let seg = hnvsd_model(inner);
    reveal_strlit("HNVSD");
    assert(plain("HNVSD"@));
    lemma_header_wire("HNVSD"@, 999, 1);
    lemma_one_element_wire(Element::Binary(inner));
    assert(seg.last() == seq![Element::Binary(inner)]);
    assert(trimmed_segment(seg) == seg);
    let a = group_wire(seg[0]);
    let b = binary_wire(inner);
    assert(segment_parts(seg) =~= seq![a, b]);
    lemma_joined_two(a, b, 0x2b);
    let n = decimal(inner.len());
    lemma_decimal_digits(inner.len());
    lemma_digits_plain(n);
    lemma_plain_bytes(n);
    lemma_plain_wire(n);
    lemma_header_literals();
    lemma_container_literals();
    let x = encode_utf8("HNVSD:999:1+"@);
    assert(segment_wire(seg) =~= x + seq![0x40u8] + encode_utf8(n) + seq![0x40u8] + inner
        + seq![0x27u8]) by {
        assert(x == a + seq![0x2bu8]);
    }
    assert(segment_encodable(seg)) by {
        assert(group_encodable(seg[1]));
    }
}

proof fn lemma_container_literals()
    ensures
        encode_utf8("HNVSD:999:1+"@) == encode_utf8("HNVSD"@) + seq![0x3au8] + encode_utf8(
            decimal(999),
        ) + seq![0x3au8] + encode_utf8(decimal(1)) + seq![0x2bu8],
{
    reveal_strlit("HNVSD:999:1+");
    reveal_strlit("HNVSD");
    reveal_with_fuel(decimal, 3);
    lemma_ascii("HNVSD:999:1+"@);
    lemma_ascii("HNVSD"@);
    lemma_decimal_digits(999);
    lemma_digits_ascii(decimal(999));
    lemma_digits_ascii(decimal(1));
    assert(decimal(999) =~= seq!['9', '9', '9']);
    lemma_ascii(decimal(999));
    lemma_ascii(decimal(1));
    assert(encode_utf8(decimal(999)) =~= seq![0x39u8, 0x39u8, 0x39u8]);
    assert(encode_utf8(decimal(1)) =~= seq![0x31u8]);
    assert(encode_utf8("HNVSD:999:1+"@) =~= encode_utf8("HNVSD"@) + seq![0x3au8] + encode_utf8(
        decimal(999),
    ) + seq![0x3au8] + encode_utf8(decimal(1)) + seq![0x2bu8]);
}

proof fn lemma_envelope_trailer(n: int)
    requires
        0 <= n,
    ensures
        segment_wire(hnhbs_model(5, n)) == envelope_trailer(n),
        segment_encodable(hnhbs_model(5, n)),
{
    let seg = hnhbs_model(5, n);
    reveal_strlit("HNHBS");
    reveal_strlit("HNHBS:5:1+");
    assert(plain("HNHBS"@));
    lemma_header_wire("HNHBS"@, 5, 1);
    lemma_num_wire(n);
    assert(seg.last() == num_group(n));
    assert(trimmed_segment(seg) == seg);
    let a = group_wire(seg[0]);
    let b = encode_utf8(decimal(n as nat));
    assert(segment_parts(seg) =~= seq![a, b]);
    lemma_joined_two(a, b, 0x2b);
    lemma_header_literals();
    lemma_ascii("HNHBS"@);
    lemma_ascii("HNHBS:5:1+"@);
    lemma_decimal_digits(5);
    lemma_digits_ascii(decimal(5));
    lemma_digits_ascii(decimal(1));
    lemma_ascii(decimal(5));
    lemma_ascii(decimal(1));
    assert(encode_utf8(decimal(5)) =~= seq![0x35u8]);
    assert(encode_utf8(decimal(1)) =~= seq![0x31u8]);
    assert(encode_utf8("HNHBS:5:1+"@) =~= a + seq![0x2bu8]);
    assert(segment_wire(seg) =~= envelope_trailer(n));
}

/// The encryption header of every answer as a segment.
pub open spec fn encryption_segment() -> Seq<Group> {
    seq![
        header_group("HNVSK"@, 998, 3),
        seq![text_element("PIN"@), text_element("1"@)],
        text_group("998"@),
        text_group("1"@),
        identification_group("0"@),
        text_group("1"@),
        seq![
            text_element("2"@),
            text_element("2"@),
            text_element("13"@),
            Element::Binary(no_key()),
            text_element("5"@),
            text_element("1"@),
        ],
        key_group("12345678"@, "0"@, "S"@),
        text_group("0"@),
    ]
}

/// `HNVSK:998:3`.
spec fn header_bytes() -> Seq<u8> {
    seq![
        0x48u8, 0x4eu8, 0x56u8, 0x53u8, 0x4bu8, 0x3au8, 0x39u8, 0x39u8, 0x38u8, 0x3au8,
        0x33u8,
    ]
}

/// `@8@` and eight zeros.
spec fn key_bytes() -> Seq<u8> {
    seq![
        0x40u8, 0x38u8, 0x40u8, 0x00u8, 0x00u8, 0x00u8, 0x00u8, 0x00u8, 0x00u8, 0x00u8,
        0x00u8,
    ]
}

/// `2:2:13:`, the key and `:5:1`.
spec fn algorithm_bytes() -> Seq<u8> {
    seq![
        0x32u8, 0x3au8, 0x32u8, 0x3au8, 0x31u8, 0x33u8, 0x3au8, 0x40u8, 0x38u8, 0x40u8,
        0x00u8, 0x00u8, 0x00u8, 0x00u8, 0x00u8, 0x00u8, 0x00u8, 0x00u8, 0x3au8, 0x35u8,
        0x3au8, 0x31u8,
    ]
}

/// `280:12345678:0:S:0:0`.
spec fn key_name_bytes() -> Seq<u8> {
    seq![
        0x32u8, 0x38u8, 0x30u8, 0x3au8, 0x31u8, 0x32u8, 0x33u8, 0x34u8, 0x35u8, 0x36u8,
        0x37u8, 0x38u8, 0x3au8, 0x30u8, 0x3au8, 0x53u8, 0x3au8, 0x30u8, 0x3au8, 0x30u8,
    ]
}

/// The texts of the encryption header as they are written.
proof fn lemma_texts_written()
    ensures
        element_wire(text_element("HNVSK"@)) == seq![0x48u8, 0x4eu8, 0x56u8, 0x53u8, 0x4bu8],
        text_element("HNVSK"@) is Text && encodable(text_element("HNVSK"@)),
        element_wire(text_element("PIN"@)) == seq![0x50u8, 0x49u8, 0x4eu8],
        text_element("PIN"@) is Text && encodable(text_element("PIN"@)),
        element_wire(text_element("1"@)) == seq![0x31u8],
        text_element("1"@) is Text && encodable(text_element("1"@)),
        element_wire(text_element("998"@)) == seq![0x39u8, 0x39u8, 0x38u8],
        text_element("998"@) is Text && encodable(text_element("998"@)),
        element_wire(text_element("2"@)) == seq![0x32u8],
        text_element("2"@) is Text && encodable(text_element("2"@)),
        element_wire(text_element("0"@)) == seq![0x30u8],
        text_element("0"@) is Text && encodable(text_element("0"@)),
        element_wire(text_element("13"@)) == seq![0x31u8, 0x33u8],
        text_element("13"@) is Text && encodable(text_element("13"@)),
        element_wire(text_element("5"@)) == seq![0x35u8],
        text_element("5"@) is Text && encodable(text_element("5"@)),
        element_wire(text_element("280"@)) == seq![0x32u8, 0x38u8, 0x30u8],
        text_element("280"@) is Text && encodable(text_element("280"@)),
        element_wire(text_element("12345678"@)) == seq![
            0x31u8, 0x32u8, 0x33u8, 0x34u8, 0x35u8, 0x36u8, 0x37u8, 0x38u8,
        ],
        text_element("12345678"@) is Text && encodable(text_element("12345678"@)),
        element_wire(text_element("S"@)) == seq![0x53u8],
        text_element("S"@) is Text && encodable(text_element("S"@)),
{
    reveal_strlit("HNVSK");
    lemma_plain_literal("HNVSK"@, seq![0x48u8, 0x4eu8, 0x56u8, 0x53u8, 0x4bu8]);
    reveal_strlit("PIN");
    lemma_plain_literal("PIN"@, seq![0x50u8, 0x49u8, 0x4eu8]);
    reveal_strlit("1");
    lemma_plain_literal("1"@, seq![0x31u8]);
    reveal_strlit("998");
    lemma_plain_literal("998"@, seq![0x39u8, 0x39u8, 0x38u8]);
    reveal_strlit("2");
    lemma_plain_literal("2"@, seq![0x32u8]);
    reveal_strlit("0");
    lemma_plain_literal("0"@, seq![0x30u8]);
    reveal_strlit("13");
    lemma_plain_literal("13"@, seq![0x31u8, 0x33u8]);
    reveal_strlit("5");
    lemma_plain_literal("5"@, seq![0x35u8]);
    reveal_strlit("280");
    lemma_plain_literal("280"@, seq![0x32u8, 0x38u8, 0x30u8]);
    reveal_strlit("12345678");
    lemma_plain_literal("12345678"@, seq![
        0x31u8, 0x32u8, 0x33u8, 0x34u8, 0x35u8, 0x36u8, 0x37u8, 0x38u8,
    ]);
    reveal_strlit("S");
    lemma_plain_literal("S"@, seq![0x53u8]);
}

proof fn lemma_byte_char(b: u8)
    requires
        b < 0x80,
        !is_special(b),
    ensures
        plain_char(b as char),
        (b as char) as u8 == b,
{
}

proof fn lemma_plain_literal(s: Seq<char>, b: Seq<u8>)
    requires
        s.len() > 0,
        s.len() == b.len(),
        forall|i: int| 0 <= i < s.len() ==> #[trigger] s[i] == b[i] as char,
        forall|i: int| 0 <= i < b.len() ==> b[i] < 0x80 && !is_special(#[trigger] b[i]),
    ensures
        element_wire(text_element(s)) == b,
        text_element(s) is Text && encodable(text_element(s)),
{
    assert forall|i: int| 0 <= i < s.len() implies plain_char(#[trigger] s[i]) && s[i] as u8
        == b[i] by {
        lemma_byte_char(b[i]);
    }
    lemma_plain_bytes(s);
    lemma_plain_wire(s);
    assert(text_wire(s) =~= b);
}

proof fn lemma_joined_six(
    a: Seq<u8>,
    b: Seq<u8>,
    c: Seq<u8>,
    d: Seq<u8>,
    e: Seq<u8>,
    f: Seq<u8>,
    sep: u8,
)
    ensures
        joined(seq![a, b, c, d, e, f], sep) == a + seq![sep] + b + seq![sep] + c + seq![sep] + d
            + seq![sep] + e + seq![sep] + f,
{
    lemma_joined_five(a, b, c, d, e, sep);
    lemma_joined_push(seq![a, b, c, d, e], f, sep);
    assert(seq![a, b, c, d, e, f] =~= seq![a, b, c, d, e].push(f));
}

/// A DEG that states something at its end is written in full.
pub proof fn lemma_full_group(g: Group)
    requires
        g.len() > 0,
        !(g.last() is Empty),
    ensures
        trimmed_group(g) == g,
        group_parts(g) == g.map_values(|e: Element| element_wire(e)),
{
}

/// The short DEGs of the encryption header as they are written.
proof fn lemma_short_groups_written()
    ensures
        group_wire(encryption_segment()[1]) == seq![0x50u8, 0x49u8, 0x4eu8, 0x3au8, 0x31u8],
        group_wire(encryption_segment()[2]) == seq![0x39u8, 0x39u8, 0x38u8],
        group_wire(encryption_segment()[3]) == seq![0x31u8],
        group_wire(encryption_segment()[4]) == seq![0x32u8, 0x3au8, 0x3au8, 0x30u8],
        group_wire(encryption_segment()[5]) == seq![0x31u8],
        group_wire(encryption_segment()[8]) == seq![0x30u8],
{
    let seg = encryption_segment();
    lemma_texts_written();
    lemma_one_element_wire(text_element("998"@));
    lemma_one_element_wire(text_element("1"@));
    lemma_one_element_wire(text_element("0"@));
    lemma_full_group(seg[1]);
    lemma_full_group(seg[4]);
    let none = Seq::<u8>::empty();
    let w0 = seq![0x30u8];
    let w1 = seq![0x31u8];
    let w2 = seq![0x32u8];
    let pin = seq![0x50u8, 0x49u8, 0x4eu8];
    assert(group_parts(seg[1]) =~= seq![pin, w1]);
    lemma_joined_two(pin, w1, 0x3a);
    assert(group_wire(seg[1]) =~= seq![0x50u8, 0x49u8, 0x4eu8, 0x3au8, 0x31u8]);
    assert(group_parts(seg[4]) =~= seq![w2, none, w0]);
    lemma_joined_three(w2, none, w0, 0x3a);
    assert(group_wire(seg[4]) =~= seq![0x32u8, 0x3au8, 0x3au8, 0x30u8]);
}

proof fn lemma_algorithm_written()
    ensures
        group_wire(encryption_segment()[6]) == algorithm_bytes(),
{
    let g = encryption_segment()[6];
    lemma_texts_written();
    lemma_key_written();
    lemma_full_group(g);
    let w1 = seq![0x31u8];
    let w2 = seq![0x32u8];
    let w5 = seq![0x35u8];
    let w13 = seq![0x31u8, 0x33u8];
    let key = key_bytes();
    assert(group_parts(g) =~= seq![w2, w2, w13, key, w5, w1]);
    lemma_joined_six(w2, w2, w13, key, w5, w1, 0x3a);
    assert(group_wire(g) =~= algorithm_bytes());
}

proof fn lemma_key_name_written()
    ensures
        group_wire(encryption_segment()[7]) == key_name_bytes(),
{
    let g = encryption_segment()[7];
    lemma_texts_written();
    lemma_full_group(g);
    let w0 = seq![0x30u8];
    let w280 = seq![0x32u8, 0x38u8, 0x30u8];
    let blz = seq![0x31u8, 0x32u8, 0x33u8, 0x34u8, 0x35u8, 0x36u8, 0x37u8, 0x38u8];
    let s = seq![0x53u8];
    assert(group_parts(g) =~= seq![w280, blz, w0, s, w0, w0]);
    lemma_joined_six(w280, blz, w0, s, w0, w0, 0x3a);
    assert(group_wire(g) =~= key_name_bytes());
}

proof fn lemma_encryption_encodable()
    ensures
        segment_encodable(encryption_segment()),
        trimmed_segment(encryption_segment()) == encryption_segment(),
{
    let seg = encryption_segment();
    lemma_texts_written();
    lemma_header_numbers();
    assert(seg.last() == text_group("0"@));
    assert(trimmed_segment(seg) == seg);
    assert forall|i: int| 0 <= i < seg.len() implies group_encodable(#[trigger] seg[i]) by {
        assert(group_encodable(seg[0]));
        assert(group_encodable(seg[1]));
        assert(group_encodable(seg[2]));
        assert(group_encodable(seg[3]));
        assert(group_encodable(seg[4]));
        assert(group_encodable(seg[5]));
        assert(group_encodable(seg[6]));
        assert(group_encodable(seg[7]));
        assert(group_encodable(seg[8]));
    }
}

/// The DEGs of the encryption header as they are written.
proof fn lemma_groups_written()
    ensures
        group_wire(encryption_segment()[0]) == header_bytes(),
        group_wire(encryption_segment()[1]) == seq![0x50u8, 0x49u8, 0x4eu8, 0x3au8, 0x31u8],
        group_wire(encryption_segment()[2]) == seq![0x39u8, 0x39u8, 0x38u8],
        group_wire(encryption_segment()[3]) == seq![0x31u8],
        group_wire(encryption_segment()[4]) == seq![0x32u8, 0x3au8, 0x3au8, 0x30u8],
        group_wire(encryption_segment()[5]) == seq![0x31u8],
        group_wire(encryption_segment()[6]) == algorithm_bytes(),
        group_wire(encryption_segment()[7]) == key_name_bytes(),
        group_wire(encryption_segment()[8]) == seq![0x30u8],
        segment_encodable(encryption_segment()),
        trimmed_segment(encryption_segment()) == encryption_segment(),
{
    lemma_header_numbers();
    lemma_short_groups_written();
    lemma_algorithm_written();
    lemma_key_name_written();
    lemma_encryption_encodable();
}

proof fn lemma_header_numbers()
    ensures
        group_wire(header_group("HNVSK"@, 998, 3)) == header_bytes(),
        group_encodable(header_group("HNVSK"@, 998, 3)),
{
    reveal_strlit("HNVSK");
    reveal_with_fuel(decimal, 3);
    assert(plain("HNVSK"@));
    lemma_header_wire("HNVSK"@, 998, 3);
    lemma_texts_written();
    lemma_plain_wire("HNVSK"@);
    assert(decimal(998) =~= seq!['9', '9', '8']);
    assert(decimal(3) =~= seq!['3']);
    lemma_ascii(decimal(998));
    lemma_ascii(decimal(3));
    assert(encode_utf8(decimal(998)) =~= seq![0x39u8, 0x39u8, 0x38u8]);
    assert(encode_utf8(decimal(3)) =~= seq![0x33u8]);
    assert(group_wire(header_group("HNVSK"@, 998, 3)) =~= header_bytes());
}

proof fn lemma_key_written()
    ensures
        element_wire(Element::Binary(no_key())) == key_bytes(),
{
    assert(no_key().len() == 8);
    assert(decimal(8) =~= seq!['8']);
    assert(ascii_bytes(decimal(8)) =~= seq![0x38u8]);
    assert(binary_wire(no_key()) =~= key_bytes());
}

/// Bytes up to a separator, the separator, and the rest.
proof fn lemma_cut(l: Seq<u8>, k: int, w: Seq<u8>, m: int)
    requires
        0 <= k,
        k + w.len() < m <= l.len(),
        l.subrange(k, k + w.len()) == w,
        l[k + w.len()] == 0x2b,
    ensures
        l.subrange(k, m) == w + seq![0x2bu8] + l.subrange(k + w.len() + 1, m),
{
    assert forall|i: int| 0 <= i < w.len() implies l[k + i] == #[trigger] w[i] by {
        assert(l.subrange(k, k + w.len())[i] == l[k + i]);
    }
    assert(l.subrange(k, m) =~= w + seq![0x2bu8] + l.subrange(k + w.len() + 1, m));
}

proof fn lemma_encryption_header()
    ensures
        segment_wire(encryption_segment()) == encryption_header(),
        segment_encodable(encryption_segment()),
{
    let seg = encryption_segment();
    let l = encryption_header();
    lemma_groups_written();
    lemma_literal_cut();
    let parts = segment_parts(seg);
    assert(parts.len() == 9);
    assert forall|i: int| 0 <= i < 9 implies #[trigger] parts[i] == group_wire(seg[i]) by {
    }
    assert(parts.skip(8) =~= seq![parts[8]]);
    assert(joined(parts.skip(8), 0x2b) == parts[8]);
    lemma_cut(l, 54, parts[7], 76);
    assert(parts.skip(7).skip(1) =~= parts.skip(8));
    assert(joined(parts.skip(7), 0x2b) == l.subrange(54, 76));
    lemma_cut(l, 31, parts[6], 76);
    assert(parts.skip(6).skip(1) =~= parts.skip(7));
    assert(joined(parts.skip(6), 0x2b) == l.subrange(31, 76));
    lemma_cut(l, 29, parts[5], 76);
    assert(parts.skip(5).skip(1) =~= parts.skip(6));
    assert(joined(parts.skip(5), 0x2b) == l.subrange(29, 76));
    lemma_cut(l, 24, parts[4], 76);
    assert(parts.skip(4).skip(1) =~= parts.skip(5));
    assert(joined(parts.skip(4), 0x2b) == l.subrange(24, 76));
    lemma_cut(l, 22, parts[3], 76);
    assert(parts.skip(3).skip(1) =~= parts.skip(4));
    assert(joined(parts.skip(3), 0x2b) == l.subrange(22, 76));
    lemma_cut(l, 18, parts[2], 76);
    assert(parts.skip(2).skip(1) =~= parts.skip(3));
    assert(joined(parts.skip(2), 0x2b) == l.subrange(18, 76));
    lemma_cut(l, 12, parts[1], 76);
    assert(parts.skip(1).skip(1) =~= parts.skip(2));
    assert(joined(parts.skip(1), 0x2b) == l.subrange(12, 76));
    lemma_cut(l, 0, parts[0], 76);
    assert(parts.skip(0).skip(1) =~= parts.skip(1));
    assert(joined(parts.skip(0), 0x2b) == l.subrange(0, 76));
    assert(parts.skip(0) =~= parts);
    assert(l =~= l.subrange(0, 76).push(0x27));
}

/// Where the DEGs stand in the encryption header.
proof fn lemma_literal_cut()
    ensures
        encryption_header().len() == 77,
        encryption_header().subrange(0, 11) == header_bytes(),
        encryption_header()[11] == 0x2b,
        encryption_header().subrange(12, 17) == seq![0x50u8, 0x49u8, 0x4eu8, 0x3au8, 0x31u8],
        encryption_header()[17] == 0x2b,
        encryption_header().subrange(18, 21) == seq![0x39u8, 0x39u8, 0x38u8],
        encryption_header()[21] == 0x2b,
        encryption_header().subrange(22, 23) == seq![0x31u8],
        encryption_header()[23] == 0x2b,
        encryption_header().subrange(24, 28) == seq![0x32u8, 0x3au8, 0x3au8, 0x30u8],
        encryption_header()[28] == 0x2b,
        encryption_header().subrange(29, 30) == seq![0x31u8],
        encryption_header()[30] == 0x2b,
        encryption_header().subrange(31, 53) == algorithm_bytes(),
        encryption_header()[53] == 0x2b,
        encryption_header().subrange(54, 74) == key_name_bytes(),
        encryption_header()[74] == 0x2b,
        encryption_header().subrange(75, 76) == seq![0x30u8],
        encryption_header()[76] == 0x27,
{
    let lit =
        "HNVSK:998:3+PIN:1+998+1+2::0+1+2:2:13:@8@\x00\x00\x00\x00\x00\x00\x00\x00:5:1+280:12345678:0:S:0:0+0'"@;
    reveal_strlit(
        "HNVSK:998:3+PIN:1+998+1+2::0+1+2:2:13:@8@\x00\x00\x00\x00\x00\x00\x00\x00:5:1+280:12345678:0:S:0:0+0'",
    );
    lemma_ascii(lit);
    let l = encryption_header();
    assert(l.subrange(0, 11) =~= header_bytes());
    assert(l.subrange(12, 17) =~= seq![0x50u8, 0x49u8, 0x4eu8, 0x3au8, 0x31u8]);
    assert(l.subrange(18, 21) =~= seq![0x39u8, 0x39u8, 0x38u8]);
    assert(l.subrange(22, 23) =~= seq![0x31u8]);
    assert(l.subrange(24, 28) =~= seq![0x32u8, 0x3au8, 0x3au8, 0x30u8]);
    assert(l.subrange(29, 30) =~= seq![0x31u8]);
    assert(l.subrange(31, 53) =~= algorithm_bytes());
    assert(l.subrange(54, 74) =~= key_name_bytes());
    assert(l.subrange(75, 76) =~= seq![0x30u8]);
}

// ---- The law ----

proof fn lemma_encryption_type()
    ensures
        type_of(read_back_segment(encryption_segment())) != "HNVSD"@,
{
    reveal_strlit("HNVSK");
    reveal_strlit("HNVSD");
    lemma_type_read_back(encryption_segment(), "HNVSK"@, 998, 3);
    assert("HNVSK"@[4] != "HNVSD"@[4]);
}

/// Three segments and a container are read back, with the segments inside the
/// container in its place.
proof fn lemma_four_read(a: Seq<Group>, b: Seq<Group>, inner: Seq<u8>, d: Seq<Group>)
    requires
        segment_encodable(a),
        segment_encodable(b),
        segment_encodable(d),
        type_of(read_back_segment(a)) != "HNVSD"@,
        type_of(read_back_segment(b)) != "HNVSD"@,
        type_of(read_back_segment(d)) != "HNVSD"@,
        parsed_message(inner) is Some,
    ensures
        ({
            let bytes = segment_wire(a) + (segment_wire(b) + envelope_container(inner)
                + segment_wire(d));
            &&& parsed_message(bytes) matches Some(outer)
            &&& outer.len() > 0 && outer[0] == read_back_segment(a)
            &&& flattened(outer) == seq![read_back_segment(a), read_back_segment(b)]
                + parsed_message(inner)->0 + seq![read_back_segment(d)]
        }),
{
    let c = hnvsd_model(inner);
    let segs = seq![a, b, c, d];
    lemma_envelope_container(inner);
    lemma_four(a, b, c, d);
    assert(segments_wire(segs) =~= segment_wire(a) + (segment_wire(b) + envelope_container(inner)
        + segment_wire(d)));
    law_read_back(segs);
    assert(read_back(segs) =~= seq![
        read_back_segment(a),
        read_back_segment(b),
        read_back_segment(c),
        read_back_segment(d),
    ]);
    lemma_container_read_back(inner);
    lemma_flattened_four(
        read_back_segment(a),
        read_back_segment(b),
        read_back_segment(c),
        read_back_segment(d),
    );
}

/// The frame of an answer holds no container.
proof fn lemma_frame_types(size: int, id: Seq<char>, n: int)
    ensures
        type_of(read_back_segment(hnhbk_model(size, id, n))) != "HNVSD"@,
        type_of(read_back_segment(hnhbs_model(5, n))) != "HNVSD"@,
{
    reveal_strlit("HNHBK");
    reveal_strlit("HNVSD");
    reveal_strlit("HNHBS");
    lemma_type_read_back(hnhbk_model(size, id, n), "HNHBK"@, 1, 3);
    lemma_type_read_back(hnhbs_model(5, n), "HNHBS"@, 5, 1);
    assert("HNHBK"@[2] != "HNVSD"@[2]);
    assert("HNHBS"@[2] != "HNVSD"@[2]);
}

/// An answer whose frame is written as three segments.
proof fn lemma_envelope_read(
    id: Seq<char>,
    n: int,
    inner: Seq<u8>,
    a: Seq<Group>,
    b: Seq<Group>,
    d: Seq<Group>,
)
    requires
        segment_wire(a) == envelope_header(envelope_size(id, n, inner), id, n),
        segment_wire(b) == encryption_header(),
        segment_wire(d) == envelope_trailer(n),
        segment_encodable(a) && segment_encodable(b) && segment_encodable(d),
        type_of(read_back_segment(a)) != "HNVSD"@,
        type_of(read_back_segment(b)) != "HNVSD"@,
        type_of(read_back_segment(d)) != "HNVSD"@,
        parsed_message(inner) is Some,
    ensures
        ({
            &&& parsed_message(envelope(id, n, inner)) matches Some(outer)
            &&& outer.len() > 0 && outer[0] == read_back_segment(a)
            &&& flattened(outer) == seq![read_back_segment(a), read_back_segment(b)]
                + parsed_message(inner)->0 + seq![read_back_segment(d)]
        }),
{
    lemma_four_read(a, b, inner, d);
}

/// A client reads in an answer its header, the encryption header, the segments
/// that the bank put in, and the trailer, unless the dialog identification holds
/// a character that has a meaning of its own. The identification is read byte by
/// byte.
pub proof fn law_answer_read(dialog_id: Seq<char>, message_number: int, inner: Seq<u8>)
    requires
        without_separators(dialog_id),
        0 <= message_number,
        parsed_message(inner) is Some,
    ensures
        ({
            let size = envelope_size(dialog_id, message_number, inner);
            let header = read_back_segment(
                hnhbk_model(size, read_as_latin1(dialog_id), message_number),
            );
            &&& parsed_message(envelope(dialog_id, message_number, inner)) matches Some(outer)
            &&& outer.len() > 0 && outer[0] == header
            &&& flattened(outer) == seq![header, read_back_segment(encryption_segment())]
                + parsed_message(inner)->0 + seq![
                read_back_segment(hnhbs_model(5, message_number)),
            ]
        }),
{
    let size = envelope_size(dialog_id, message_number, inner);
    let a = hnhbk_model(size, read_as_latin1(dialog_id), message_number);
    let d = hnhbs_model(5, message_number);
    lemma_envelope_header(size, dialog_id, message_number);
    lemma_encryption_header();
    lemma_envelope_trailer(message_number);
    lemma_encryption_type();
    lemma_frame_types(size, read_as_latin1(dialog_id), message_number);
    lemma_envelope_read(dialog_id, message_number, inner, a, encryption_segment(), d);
}

/// The text at the start of a DEG is read back.
proof fn lemma_text_read_back(seg: Seq<Group>, i: int, s: Seq<char>)
    requires
        0 <= i < seg.len(),
        seg[i] == seq![Element::Text(s)],
        s.len() > 0,
        trimmed_segment(seg) == seg,
    ensures
        text_at(read_back_segment(seg), i, 0) == s,
{
    lemma_one_element_wire(Element::Text(s));
    assert(trimmed_group(seg[i]) =~= seg[i]);
    assert(read_back_segment(seg)[i] == read_back_group(seg[i]));
    assert(read_back_group(seg[i])[0] == Element::Text(s));
}

/// A client takes over the dialog identification that the bank states in an
/// answer, and finds the number of the message that it has sent. The
/// identification is ASCII, as the bank makes it.
pub proof fn law_dialog_taken_up(dialog_id: Seq<char>, message_number: int, inner: Seq<u8>)
    requires
        without_separators(dialog_id),
        is_ascii_chars(dialog_id),
        dialog_id.len() > 0,
        dialog_id != "0"@,
        0 <= message_number,
        parsed_message(inner) is Some,
    ensures
        ({
            &&& parsed_message(envelope(dialog_id, message_number, inner)) matches Some(outer)
            &&& reply_dialog_id(reply_of(outer)) == Some(dialog_id)
            &&& other_number(outer, message_number) is None
        }),
{
    let size = envelope_size(dialog_id, message_number, inner);
    let model = hnhbk_model(size, read_as_latin1(dialog_id), message_number);
    let header = read_back_segment(model);
    law_answer_read(dialog_id, message_number, inner);
    lemma_ascii_read(dialog_id);
    lemma_num_wire(message_number);
    assert(model.last() == num_group(message_number));
    assert(trimmed_segment(model) == model);
    lemma_decimal_digits(message_number as nat);
    lemma_text_read_back(model, 3, dialog_id);
    lemma_text_read_back(model, 4, decimal(message_number as nat));
    reveal_strlit("HNHBK");
    lemma_type_read_back(model, "HNHBK"@, 1, 3);
    let outer = parsed_message(envelope(dialog_id, message_number, inner))->0;
    assert(flattened(outer)[0] == header);
}

/// ASCII texts are read as they were written.
proof fn lemma_ascii_read(s: Seq<char>)
    requires
        is_ascii_chars(s),
    ensures
        read_as_latin1(s) == s,
{
    is_ascii_chars_encode_utf8(s);
    assert forall|i: int| 0 <= i < s.len() implies encode_utf8(s)[i] as char == #[trigger] s[i] by {
        lemma_ascii_byte(s[i]);
    }
    assert(read_as_latin1(s) =~= s);
}

proof fn lemma_ascii_byte(c: char)
    requires
        '\0' <= c <= '\u{7f}',
    ensures
        (c as u8) as char == c,
{
}

/// The bank finds in a message the dialog identification that the client has
/// stated, where that is ASCII without characters that have a meaning of their
/// own and the message is UTF-8.
pub proof fn law_request_dialog_found(s: Sender, seal: Seal, orders: Seq<Order>, p: Params)
    requires
        message_failure(s, seal, orders, p) is None,
        0 <= s.message_number,
        without_separators(s.dialog_id),
        is_ascii_chars(s.dialog_id),
        valid_utf8(message_wire(s, seal, orders, p)),
    ensures
        dialog_id_in(message_wire(s, seal, orders, p)) == Some(s.dialog_id),
{
    let size = message_size(s, seal, orders, p);
    let segs = message_segments(s, seal, orders, p, size);
    lemma_envelope_header(size, s.dialog_id, s.message_number);
    lemma_ascii_read(s.dialog_id);
    lemma_four(segs[0], segs[1], segs[2], segs[3]);
    assert(segs =~= seq![segs[0], segs[1], segs[2], segs[3]]);
    let rest = segment_wire(segs[1]) + segment_wire(segs[2]) + segment_wire(segs[3]);
    assert(message_wire(s, seal, orders, p) =~= segment_wire(segs[0]) + rest);
    assert(!s.dialog_id.contains('+')) by {
        assert forall|i: int| 0 <= i < s.dialog_id.len() implies s.dialog_id[i] != '+' by {
            assert(!is_separator(s.dialog_id[i]));
        }
    }
    lemma_header_id(size, s.dialog_id, s.message_number, rest);
}

// ---- Refusals ----

/// What the text of a refusal is read as: its UTF-8 bytes, one by one.
pub open spec fn refusal_text() -> Seq<char> {
    "Pin ung"@ + seq!['\u{c3}', '\u{bc}'] + "ltig"@
}

/// The answer to a wrong PIN as a segment.
pub open spec fn refusal_segment() -> Seq<Group> {
    seq![
        seq![Element::Text("HIRMG"@), Element::Empty, Element::Text("2"@)],
        seq![Element::Text("9910"@), Element::Empty, Element::Text(refusal_text())],
    ]
}

proof fn lemma_encoded_joined(a: Seq<char>, b: Seq<char>)
    ensures
        encode_utf8(a + b) == encode_utf8(a) + encode_utf8(b),
    decreases a.len(),
{
    if a.len() == 0 {
        assert(a + b =~= b);
    } else {
        assert((a + b).drop_first() =~= a.drop_first() + b);
        lemma_encoded_joined(a.drop_first(), b);
    }
    assert(encode_utf8(a + b) =~= encode_utf8(a) + encode_utf8(b));
}

proof fn lemma_umlaut_encoded()
    ensures
        encode_utf8(seq!['\u{fc}']) == seq![0xc3u8, 0xbcu8],
{
    let s = seq!['\u{fc}'];
    assert(s[0] as u32 == 0xfc);
    assert(leading_byte_width_2(0xfcu32) == 0xc3u8) by (bit_vector);
    assert(last_continuation_byte(0xfcu32) == 0xbcu8) by (bit_vector);
    assert(s.drop_first() =~= Seq::<char>::empty());
    assert(encode_utf8(s.drop_first()) =~= Seq::<u8>::empty());
    assert(encode_utf8(s) =~= seq![0xc3u8, 0xbcu8]);
}

proof fn lemma_refusal_bytes()
    ensures
        refusal() == encode_utf8("HIRMG::2+9910::Pin ung"@) + seq![0xc3u8, 0xbcu8] + encode_utf8(
            "ltig'"@,
        ),
{
    let whole = "HIRMG::2+9910::Pin ung\u{fc}ltig'"@;
    let front = "HIRMG::2+9910::Pin ung"@;
    let back = "ltig'"@;
    reveal_strlit("HIRMG::2+9910::Pin ung\u{fc}ltig'");
    reveal_strlit("HIRMG::2+9910::Pin ung");
    reveal_strlit("ltig'");
    assert(whole =~= front + seq!['\u{fc}'] + back);
    lemma_encoded_joined(front + seq!['\u{fc}'], back);
    lemma_encoded_joined(front, seq!['\u{fc}']);
    lemma_umlaut_encoded();
}

proof fn lemma_text_wire_joined(a: Seq<char>, b: Seq<char>)
    ensures
        text_wire(a + b) == text_wire(a) + text_wire(b),
    decreases a.len(),
{
    if a.len() == 0 {
        assert(a + b =~= b);
    } else {
        assert((a + b).skip(1) =~= a.skip(1) + b);
        lemma_text_wire_joined(a.skip(1), b);
    }
    assert(text_wire(a + b) =~= text_wire(a) + text_wire(b));
}

proof fn lemma_refusal_text()
    ensures
        text_wire(refusal_text()) == encode_utf8("Pin ung"@) + seq![0xc3u8, 0xbcu8] + encode_utf8(
            "ltig"@,
        ),
        latin1(refusal_text()),
{
    let a = "Pin ung"@;
    let b = seq!['\u{c3}', '\u{bc}'];
    let c = "ltig"@;
    reveal_strlit("Pin ung");
    reveal_strlit("ltig");
    assert(plain(a));
    assert(plain(c));
    lemma_plain_wire(a);
    lemma_plain_wire(c);
    lemma_text_wire_joined(a + b, c);
    lemma_text_wire_joined(a, b);
    assert(b.skip(1) =~= seq!['\u{bc}']);
    assert(b.skip(1).skip(1) =~= Seq::<char>::empty());
    assert('\u{c3}' as u8 == 0xc3u8);
    assert('\u{bc}' as u8 == 0xbcu8);
    assert(text_wire(b.skip(1).skip(1)) =~= Seq::<u8>::empty());
    assert(text_wire(b.skip(1)) =~= seq![0xbcu8]);
    assert(text_wire(b) =~= seq![0xc3u8, 0xbcu8]);
    assert forall|i: int| 0 <= i < refusal_text().len() implies (#[trigger] refusal_text()[i]) as u32
        <= 0xff by {
        let t = refusal_text();
        if i < a.len() {
            assert(t[i] == a[i]);
        } else if i < a.len() + 2 {
            assert(t[i] == b[i - a.len()]);
        } else {
            assert(t[i] == c[i - a.len() - 2]);
        }
    }
}

/// A refusal is read as a segment with code 9910.
proof fn lemma_refusal_read()
    ensures
        parsed_message(refusal()) == Some(seq![refusal_segment()]),
{
    let seg = refusal_segment();
    let none = Seq::<u8>::empty();
    let a = encode_utf8("HIRMG"@);
    let b = encode_utf8("2"@);
    let c = encode_utf8("9910"@);
    let d = text_wire(refusal_text());
    reveal_strlit("HIRMG");
    reveal_strlit("2");
    reveal_strlit("9910");
    reveal_strlit("HIRMG::2+9910::Pin ung");
    reveal_strlit("Pin ung");
    reveal_strlit("ltig'");
    reveal_strlit("ltig");
    assert(plain("HIRMG"@));
    assert(plain("2"@));
    assert(plain("9910"@));
    lemma_plain_wire("HIRMG"@);
    lemma_plain_wire("2"@);
    lemma_plain_wire("9910"@);
    lemma_refusal_text();
    lemma_refusal_bytes();
    lemma_full_group(seg[0]);
    lemma_full_group(seg[1]);
    assert(group_parts(seg[0]) =~= seq![a, none, b]);
    assert(group_parts(seg[1]) =~= seq![c, none, d]);
    lemma_joined_three(a, none, b, 0x3a);
    lemma_joined_three(c, none, d, 0x3a);
    assert(seg.last() == seg[1]);
    assert(trimmed_segment(seg) == seg);
    assert(segment_parts(seg) =~= seq![group_wire(seg[0]), group_wire(seg[1])]);
    lemma_joined_two(group_wire(seg[0]), group_wire(seg[1]), 0x2b);
    lemma_ascii("HIRMG"@);
    lemma_ascii("2"@);
    lemma_ascii("9910"@);
    lemma_ascii("HIRMG::2+9910::Pin ung"@);
    lemma_ascii("Pin ung"@);
    lemma_ascii("ltig'"@);
    lemma_ascii("ltig"@);
    let k = seq![0x3au8];
    assert(encode_utf8("HIRMG::2+9910::Pin ung"@) =~= a + k + none + k + b + seq![0x2bu8] + c + k
        + none + k + encode_utf8("Pin ung"@));
    assert(encode_utf8("ltig'"@) =~= encode_utf8("ltig"@).push(0x27));
    lemma_refusal_glued(
        a + k + none + k + b,
        c + k + none + k,
        encode_utf8("Pin ung"@),
        seq![0xc3u8, 0xbcu8],
        encode_utf8("ltig"@),
    );
    assert(a + k + none + k + b + seq![0x2bu8] + c + k + none + k + encode_utf8("Pin ung"@)
        =~= (a + k + none + k + b) + seq![0x2bu8] + (c + k + none + k) + encode_utf8("Pin ung"@));
    assert(segment_wire(seg) == refusal());
    assert(group_encodable(seg[0]));
    assert(group_encodable(seg[1]));
    law_lossless(seg);
}

proof fn lemma_refusal_glued(a: Seq<u8>, b: Seq<u8>, c: Seq<u8>, d: Seq<u8>, e: Seq<u8>)
    ensures
        (a + seq![0x2bu8] + (b + (c + d + e))).push(0x27) == (a + seq![0x2bu8] + b + c) + d + e.push(
            0x27,
        ),
{
    assert((a + seq![0x2bu8] + (b + (c + d + e))).push(0x27) =~= (a + seq![0x2bu8] + b + c) + d
        + e.push(0x27));
}

/// A code segment behind segments of other types and in front of one is the only
/// one that counts.
proof fn lemma_one_code_segment(
    a: Seq<Group>,
    b: Seq<Group>,
    c: Seq<Group>,
    d: Seq<Group>,
    seg_type: Seq<char>,
)
    requires
        type_of(a) != seg_type,
        type_of(b) != seg_type,
        type_of(d) != seg_type,
    ensures
        codes_of(seq![a, b] + seq![c] + seq![d], seg_type) == if type_of(c) == seg_type {
            segment_codes(c)
        } else {
            Seq::empty()
        },
{
    let e = Seq::<Seq<Group>>::empty();
    let all = seq![a, b] + seq![c] + seq![d];
    assert(all =~= e.push(a).push(b).push(c).push(d));
    assert(e.push(a).drop_last() =~= e);
    assert(e.push(a).push(b).drop_last() =~= e.push(a));
    assert(e.push(a).push(b).push(c).drop_last() =~= e.push(a).push(b));
    assert(e.push(a).push(b).push(c).push(d).drop_last() =~= e.push(a).push(b).push(c));
    assert(codes_of(e, seg_type) =~= Seq::<Code>::empty());
    assert(codes_of(e.push(a), seg_type) =~= Seq::<Code>::empty());
    assert(codes_of(e.push(a).push(b), seg_type) =~= Seq::<Code>::empty());
    assert(Seq::<Code>::empty() + segment_codes(c) =~= segment_codes(c));
    let o3 = e.push(a).push(b).push(c);
    assert(o3.last() == c);
    assert(codes_of(o3, seg_type) == if type_of(c) == seg_type {
        segment_codes(c)
    } else {
        Seq::empty()
    });
    assert(o3.push(d).last() == d);
    assert(codes_of(o3.push(d), seg_type) == codes_of(o3, seg_type));
}

proof fn lemma_refusal_code()
    ensures
        segment_codes(refusal_segment()).len() == 1,
        segment_codes(refusal_segment())[0].kind is PinWrong,
        type_of(refusal_segment()) == "HIRMG"@,
{
    let seg = refusal_segment();
    let g = seg[1];
    let rest = seg.skip(1);
    assert(rest =~= seq![g]);
    assert(rest.drop_last() =~= Seq::<Group>::empty());
    reveal_strlit("9910");
    reveal_strlit("0030");
    reveal_strlit("3955");
    reveal_strlit("3956");
    reveal_strlit("3076");
    reveal_strlit("3040");
    reveal_strlit("3920");
    reveal_strlit("3938");
    assert("9910"@[0] != "0030"@[0]);
    assert("9910"@[0] != "3955"@[0]);
    assert("9910"@[0] != "3956"@[0]);
    assert("9910"@[0] != "3076"@[0]);
    assert("9910"@[0] != "3040"@[0]);
    assert("9910"@[0] != "3920"@[0]);
    assert("9910"@[0] != "3938"@[0]);
    assert(codes_in(rest.drop_last()) =~= Seq::<Code>::empty());
    assert(codes_in(rest) =~= seq![group_code(g)]);
}

/// Whatever a message with a refused PIN asks for, the bank changes nothing but
/// the count of messages, and the client learns that the PIN is wrong, unless the
/// dialog identification holds a character that has a meaning of its own.
pub proof fn law_refusal_told(b: BankState, message: Seq<u8>)
    requires
        refused(b, message),
        without_separators(dialog_for(b, message)),
    ensures
        after_answer(counted(b, message), message) == counted(b, message),
        ({
            let answer = envelope(
                dialog_for(b, message),
                answered(b, message) + 1,
                answer_of(counted(b, message), message),
            );
            &&& parsed_message(answer) matches Some(outer)
            &&& reply_failure(reply_of(outer)) == Some(Failure::PinWrong)
        }),
{
    let id = dialog_for(b, message);
    let n = answered(b, message) + 1;
    let inner = refusal();
    let size = envelope_size(id, n, inner);
    let head = read_back_segment(hnhbk_model(size, read_as_latin1(id), n));
    let enc = read_back_segment(encryption_segment());
    let tail = read_back_segment(hnhbs_model(5, n));
    let seg = refusal_segment();
    lemma_refusal_read();
    law_answer_read(id, n, inner);
    reveal_strlit("HNHBK");
    reveal_strlit("HNVSK");
    reveal_strlit("HNHBS");
    reveal_strlit("HIRMG");
    reveal_strlit("HIRMS");
    lemma_type_read_back(hnhbk_model(size, read_as_latin1(id), n), "HNHBK"@, 1, 3);
    lemma_type_read_back(encryption_segment(), "HNVSK"@, 998, 3);
    lemma_type_read_back(hnhbs_model(5, n), "HNHBS"@, 5, 1);
    assert("HNHBK"@[1] != "HIRMG"@[1] && "HNHBK"@[1] != "HIRMS"@[1]);
    assert("HNVSK"@[1] != "HIRMG"@[1] && "HNVSK"@[1] != "HIRMS"@[1]);
    assert("HNHBS"@[1] != "HIRMG"@[1] && "HNHBS"@[1] != "HIRMS"@[1]);
    assert("HIRMG"@[4] != "HIRMS"@[4]);
    lemma_refusal_code();
    lemma_one_code_segment(head, enc, seg, tail, "HIRMG"@);
    lemma_one_code_segment(head, enc, seg, tail, "HIRMS"@);
    let outer = parsed_message(envelope(id, n, inner))->0;
    let r = reply_of(outer);
    assert(r.global_codes == segment_codes(seg));
    assert(reply_codes(r) =~= segment_codes(seg));
    law_failure(r);
    assert(reply_codes(r)[0].kind is PinWrong);
}

} // verus!
