//! How the mock bank finds the PIN and the TAN in a client's message.

use vstd::prelude::*;
use vstd::utf8::*;

use crate::element::{text_element, Element, Group};
use crate::message::{
    lemma_four, lemma_one_element_wire, message_failure, message_segments,
    message_size, message_wire, signed_segments, Seal, Sender,
};
use crate::numbers::{decimal, lemma_decimal_digits};
use crate::params::Params;
use crate::request::Order;
use crate::segments::builder::{
    blank_group, header_group, hnsha_model, hnvsd_model, num_group, signature_group,
};
use crate::serializer::{
    group_parts, group_wire, is_special, joined, lemma_joined_push, segment_parts, segment_wire,
    segments_wire, trimmed_group, trimmed_segment,
};
use crate::server::laws::{
    lemma_ascii, lemma_byte_found, lemma_container_read, lemma_digits_ascii, lemma_found_longer,
};
use crate::server::reading::{
    lemma_envelope_container, lemma_full_group, lemma_header_wire, lemma_joined_two,
    lemma_num_wire, lemma_plain_wire, plain, plain_char,
};
use crate::server::scan::{
    byte_from, colon, container_in, find_from, nth_plus, pin_tan_in, quote, split_pin_tan,
};

verus! {

// ---- The signature trailer as it is written ----

/// PIN and TAN as they are written.
spec fn signature_bytes(pin: Seq<char>, tan: Option<Seq<char>>) -> Seq<u8> {
    match tan {
        Some(t) => encode_utf8(pin) + seq![0x3au8] + encode_utf8(t),
        None => encode_utf8(pin),
    }
}

/// The TAN that a bank finds: an empty one counts as none.
pub open spec fn stated_tan(tan: Option<Seq<char>>) -> Option<Seq<char>> {
    match tan {
        Some(t) => if t.len() > 0 {
            Some(t)
        } else {
            None
        },
        None => None,
    }
}

pub open spec fn plain_tan(tan: Option<Seq<char>>) -> bool {
    tan matches Some(t) ==> plain(t)
}

proof fn lemma_signature_wire(pin: Seq<char>, tan: Option<Seq<char>>)
    requires
        plain(pin),
        pin.len() > 0,
        plain_tan(tan),
    ensures
        group_wire(signature_group(pin, tan)) == signature_bytes(pin, tan),
        trimmed_group(signature_group(pin, tan)).len() > 0,
{
    let g = signature_group(pin, tan);
    lemma_plain_wire(pin);
    match tan {
        Some(t) => {
            lemma_plain_wire(t);
            assert(g.last() == Element::Text(t));
            lemma_full_group(g);
            assert(group_parts(g) =~= seq![encode_utf8(pin), encode_utf8(t)]);
            lemma_joined_two(encode_utf8(pin), encode_utf8(t), 0x3a);
        },
        None => {
            lemma_one_element_wire(text_element(pin));
        },
    }
}

/// What stands in front of the signature in a trailer.
spec fn trailer_front(number: int, reference: int) -> Seq<u8> {
    group_wire(header_group("HNSHA"@, number, 2)) + seq![0x2bu8] + encode_utf8(
        decimal(reference as nat),
    ) + seq![0x2bu8, 0x2bu8]
}

proof fn lemma_blank_wire()
    ensures
        group_wire(blank_group()) == Seq::<u8>::empty(),
{
    let g = blank_group();
    assert(g.drop_last() =~= Seq::<Element>::empty());
    assert(trimmed_group(g.drop_last()) =~= Seq::<Element>::empty());
    assert(group_parts(g) =~= Seq::<Seq<u8>>::empty());
    assert(group_wire(g) =~= Seq::<u8>::empty());
}

/// Four parts, of which the third is blank, joined and ended.
proof fn lemma_joined_blank(a: Seq<u8>, b: Seq<u8>, d: Seq<u8>)
    ensures
        joined(seq![a, b, Seq::<u8>::empty(), d], 0x2b).push(0x27) == a + seq![0x2bu8] + b + seq![
            0x2bu8,
            0x2bu8,
        ] + d + seq![0x27u8],
{
    let none = Seq::<u8>::empty();
    let e = Seq::<Seq<u8>>::empty();
    assert(seq![a, b, none, d] =~= e.push(a).push(b).push(none).push(d));
    lemma_joined_push(e, a, 0x2b);
    lemma_joined_push(e.push(a), b, 0x2b);
    lemma_joined_push(e.push(a).push(b), none, 0x2b);
    lemma_joined_push(e.push(a).push(b).push(none), d, 0x2b);
    assert(joined(seq![a, b, none, d], 0x2b).push(0x27) =~= a + seq![0x2bu8] + b + seq![
        0x2bu8,
        0x2bu8,
    ] + d + seq![0x27u8]);
}

/// The parts of a segment of four DEGs that ends with one that states something.
proof fn lemma_four_parts(a: Group, b: Group, c: Group, d: Group)
    requires
        trimmed_group(d).len() > 0,
    ensures
        segment_parts(seq![a, b, c, d]) == seq![
            group_wire(a),
            group_wire(b),
            group_wire(c),
            group_wire(d),
        ],
{
    let seg = seq![a, b, c, d];
    assert(seg.last() == d);
    assert(trimmed_segment(seg) == seg);
    assert(segment_parts(seg) =~= seq![
        group_wire(a),
        group_wire(b),
        group_wire(c),
        group_wire(d),
    ]);
}

proof fn lemma_trailer_parts(number: int, reference: int, pin: Seq<char>, tan: Option<Seq<char>>)
    requires
        plain(pin),
        pin.len() > 0,
        plain_tan(tan),
        0 <= reference,
    ensures
        segment_parts(hnsha_model(number, reference, pin, tan)) == seq![
            group_wire(header_group("HNSHA"@, number, 2)),
            encode_utf8(decimal(reference as nat)),
            Seq::<u8>::empty(),
            signature_bytes(pin, tan),
        ],
{
    lemma_num_wire(reference);
    lemma_signature_wire(pin, tan);
    lemma_blank_wire();
    lemma_four_parts(
        header_group("HNSHA"@, number, 2),
        num_group(reference),
        blank_group(),
        signature_group(pin, tan),
    );
}

/// A segment of four parts, of which the third is blank.
proof fn lemma_blank_third(seg: Seq<Group>, a: Seq<u8>, b: Seq<u8>, d: Seq<u8>)
    requires
        segment_parts(seg) == seq![a, b, Seq::<u8>::empty(), d],
    ensures
        segment_wire(seg) == a + seq![0x2bu8] + b + seq![0x2bu8, 0x2bu8] + d + seq![0x27u8],
{
    lemma_joined_blank(a, b, d);
}

proof fn lemma_trailer_wire(number: int, reference: int, pin: Seq<char>, tan: Option<Seq<char>>)
    requires
        plain(pin),
        pin.len() > 0,
        plain_tan(tan),
        0 <= number,
        0 <= reference,
    ensures
        segment_wire(hnsha_model(number, reference, pin, tan)) == trailer_front(number, reference)
            + signature_bytes(pin, tan) + seq![0x27u8],
{
    lemma_trailer_parts(number, reference, pin, tan);
    lemma_blank_third(
        hnsha_model(number, reference, pin, tan),
        group_wire(header_group("HNSHA"@, number, 2)),
        encode_utf8(decimal(reference as nat)),
        signature_bytes(pin, tan),
    );
}

// ---- Finding ----

/// Bytes that are no `+` and no `'` are passed over.
proof fn lemma_plus_behind(bytes: Seq<u8>, i: int, k: int, n: nat)
    requires
        0 <= i <= k <= bytes.len(),
        forall|j: int| i <= j < k ==> bytes[j] != 0x2b && #[trigger] bytes[j] != 0x27,
    ensures
        nth_plus(bytes, i, n) == nth_plus(bytes, k, n),
    decreases k - i,
{
    if i < k {
        assert(bytes[i] != 0x2b && bytes[i] != 0x27);
        lemma_plus_behind(bytes, i + 1, k, n);
    }
}

/// Plain texts hold no separator.
proof fn lemma_plain_encoded(s: Seq<char>)
    requires
        plain(s),
    ensures
        encode_utf8(s).len() == s.len(),
        forall|i: int| 0 <= i < s.len() ==> !is_special(#[trigger] encode_utf8(s)[i]),
{
    assert forall|i: int| 0 <= i < s.len() implies '\0' <= #[trigger] s[i] <= '\u{7f}' by {
        lemma_plain_ascii(s[i]);
    }
    lemma_ascii(s);
    assert forall|i: int| 0 <= i < s.len() implies !is_special(#[trigger] encode_utf8(s)[i]) by {
        assert(plain_char(s[i]));
        assert(encode_utf8(s)[i] == s[i] as u8);
    }
}

proof fn lemma_plain_ascii(c: char)
    requires
        plain_char(c),
    ensures
        '\0' <= c <= '\u{7f}',
{
}

proof fn lemma_front_bytes(number: int, reference: int)
    requires
        0 <= number,
        0 <= reference,
    ensures
        ({
            let h = group_wire(header_group("HNSHA"@, number, 2));
            &&& h.len() > 6
            &&& h.subrange(0, 6) == encode_utf8("HNSHA:"@)
            &&& forall|j: int| 0 <= j < h.len() ==> h[j] != 0x2b && #[trigger] h[j] != 0x27
        }),
{
    let h = group_wire(header_group("HNSHA"@, number, 2));
    reveal_strlit("HNSHA");
    reveal_strlit("HNSHA:");
    assert(plain("HNSHA"@));
    lemma_header_wire("HNSHA"@, number, 2);
    lemma_plain_encoded("HNSHA"@);
    lemma_ascii("HNSHA"@);
    lemma_ascii("HNSHA:"@);
    lemma_decimal_digits(number as nat);
    lemma_decimal_digits(2);
    lemma_digits_ascii(decimal(number as nat));
    lemma_digits_ascii(decimal(2));
    let a = encode_utf8("HNSHA"@);
    let b = encode_utf8(decimal(number as nat));
    let c = encode_utf8(decimal(2));
    assert(h == a + seq![0x3au8] + b + seq![0x3au8] + c);
    assert(h.subrange(0, 6) =~= encode_utf8("HNSHA:"@));
    assert forall|j: int| 0 <= j < h.len() implies h[j] != 0x2b && #[trigger] h[j] != 0x27 by {
        let k = a.len() as int;
        let m = k + 1 + b.len();
        if j < k {
            assert(h[j] == a[j]);
            assert(!is_special(a[j]));
        } else if j == k || j == m {
            assert(h[j] == 0x3a);
        } else if j < m {
            assert(h[j] == b[j - k - 1]);
        } else {
            assert(h[j] == c[j - m - 1]);
        }
    }
}

/// The signature is what stands between the third `+` and the `'`.
proof fn lemma_signature_found(
    front: Seq<u8>,
    number: int,
    reference: int,
    pin: Seq<char>,
    tan: Option<Seq<char>>,
)
    requires
        plain(pin),
        pin.len() > 0,
        plain_tan(tan),
        0 <= number,
        0 <= reference,
    ensures
        ({
            let bytes = front + segment_wire(hnsha_model(number, reference, pin, tan));
            let p = front.len() + trailer_front(number, reference).len() - 1;
            &&& nth_plus(bytes, front.len() as int, 3) == Some(p)
            &&& byte_from(bytes, quote(), p + 1) == Some(
                p + 1 + signature_bytes(pin, tan).len(),
            )
            &&& bytes.subrange(p + 1, p + 1 + signature_bytes(pin, tan).len()) == signature_bytes(
                pin,
                tan,
            )
        }),
{
    lemma_trailer_wire(number, reference, pin, tan);
    lemma_front_bytes(number, reference);
    let h = group_wire(header_group("HNSHA"@, number, 2));
    let d = encode_utf8(decimal(reference as nat));
    let sig = signature_bytes(pin, tan);
    lemma_decimal_digits(reference as nat);
    lemma_digits_ascii(decimal(reference as nat));
    let bytes = front + segment_wire(hnsha_model(number, reference, pin, tan));
    assert(bytes =~= front + h + seq![0x2bu8] + d + seq![0x2bu8, 0x2bu8] + sig + seq![0x27u8]);
    let f = front.len() as int;
    let p1 = f + h.len();
    let p2 = p1 + 1 + d.len();
    let p3 = p2 + 1;
    assert forall|j: int| f <= j < p1 implies bytes[j] != 0x2b && #[trigger] bytes[j] != 0x27 by {
        assert(bytes[j] == h[j - f]);
    }
    lemma_plus_behind(bytes, f, p1, 3);
    assert(bytes[p1] == 0x2b);
    assert forall|j: int| p1 + 1 <= j < p2 implies bytes[j] != 0x2b && #[trigger] bytes[j]
        != 0x27 by {
        assert(bytes[j] == d[j - p1 - 1]);
    }
    lemma_plus_behind(bytes, p1 + 1, p2, 2);
    assert(bytes[p2] == 0x2b);
    assert(bytes[p3] == 0x2b);
    assert(nth_plus(bytes, p3, 1) == Some(p3));
    assert(nth_plus(bytes, p2, 2) == nth_plus(bytes, p3, 1));
    assert(nth_plus(bytes, p1, 3) == nth_plus(bytes, p1 + 1, 2));
    let q = p3 + 1 + sig.len();
    assert(bytes[q] == 0x27);
    lemma_signature_plain(pin, tan);
    assert forall|j: int| p3 + 1 <= j < q implies !quote().contains(#[trigger] bytes[j]) by {
        assert(bytes[j] == sig[j - p3 - 1]);
    }
    lemma_byte_found(bytes, quote(), p3 + 1, q);
    assert(bytes.subrange(p3 + 1, q) =~= sig);
}

proof fn lemma_signature_plain(pin: Seq<char>, tan: Option<Seq<char>>)
    requires
        plain(pin),
        plain_tan(tan),
    ensures
        forall|j: int|
            0 <= j < signature_bytes(pin, tan).len() ==> #[trigger] signature_bytes(pin, tan)[j]
                != 0x27,
        split_pin_tan(signature_bytes(pin, tan)) == (Some(pin), stated_tan(tan)),
{
    let sig = signature_bytes(pin, tan);
    let a = encode_utf8(pin);
    lemma_plain_encoded(pin);
    encode_utf8_valid_utf8(pin);
    encode_utf8_decode_utf8(pin);
    match tan {
        Some(t) => {
            let c = encode_utf8(t);
            lemma_plain_encoded(t);
            encode_utf8_valid_utf8(t);
            encode_utf8_decode_utf8(t);
            let k = a.len() as int;
            assert forall|j: int| 0 <= j < sig.len() implies #[trigger] sig[j] != 0x27 by {
                if j < k {
                    assert(sig[j] == a[j]);
                    assert(!is_special(a[j]));
                } else if j > k {
                    assert(sig[j] == c[j - k - 1]);
                    assert(!is_special(c[j - k - 1]));
                }
            }
            assert forall|j: int| 0 <= j < k implies !colon().contains(#[trigger] sig[j]) by {
                assert(sig[j] == a[j]);
                assert(!is_special(a[j]));
            }
            assert(sig[k] == 0x3a);
            lemma_byte_found(sig, colon(), 0, k);
            assert(sig.subrange(0, k) =~= a);
            assert(sig.subrange(k + 1, sig.len() as int) =~= c);
        },
        None => {
            assert forall|j: int| 0 <= j < sig.len() implies #[trigger] sig[j] != 0x27 && sig[j]
                != 0x3a by {
                assert(!is_special(a[j]));
            }
            lemma_no_byte(sig, 0);
        },
    }
}

proof fn lemma_no_byte(bytes: Seq<u8>, i: int)
    requires
        0 <= i <= bytes.len(),
        forall|j: int| 0 <= j < bytes.len() ==> #[trigger] bytes[j] != 0x3a,
    ensures
        byte_from(bytes, colon(), i) is None,
    decreases bytes.len() - i,
{
    if i < bytes.len() {
        lemma_no_byte(bytes, i + 1);
    }
}

// ---- The law ----

/// What stands in front of the container of a message.
pub open spec fn before_container(s: Sender, seal: Seal, orders: Seq<Order>, p: Params) -> Seq<u8> {
    let segs = message_segments(s, seal, orders, p, message_size(s, seal, orders, p));
    segment_wire(segs[0]) + segment_wire(segs[1])
}

/// What stands in front of the signature trailer in the container.
pub open spec fn before_trailer(s: Sender, seal: Seal, orders: Seq<Order>, p: Params) -> Seq<u8> {
    segments_wire(signed_segments(s, seal, orders, p).drop_last())
}

/// The bank finds in a message the PIN and the TAN that the client has signed it
/// with, where both are ASCII without characters that have a meaning of their
/// own, unless something in front of the container or of the signature trailer
/// looks like the start of one.
pub proof fn law_signature_found(s: Sender, seal: Seal, orders: Seq<Order>, p: Params)
    requires
        message_failure(s, seal, orders, p) is None,
        0 <= seal.reference,
        plain(s.pin),
        s.pin.len() > 0,
        plain_tan(seal.tan),
        ({
            let front = before_container(s, seal, orders, p);
            let marker = encode_utf8("HNVSD:999:1+"@);
            find_from(front + marker, marker, 0) == Some(front.len() as int)
        }),
        ({
            let front = before_trailer(s, seal, orders, p);
            let marker = encode_utf8("HNSHA:"@);
            find_from(front + marker, marker, 0) == Some(front.len() as int)
        }),
        segments_wire(signed_segments(s, seal, orders, p)).len() <= usize::MAX,
    ensures
        pin_tan_in(message_wire(s, seal, orders, p)) == (Some(s.pin), stated_tan(seal.tan)),
{
    let signed = signed_segments(s, seal, orders, p);
    let inner = segments_wire(signed);
    let front = before_trailer(s, seal, orders, p);
    let number = 3 + orders.len() as int;
    let trailer = hnsha_model(number, seal.reference, s.pin, seal.tan);
    assert(signed.last() == trailer);
    assert(inner == front + segment_wire(trailer));
    lemma_container_of_message(s, seal, orders, p);
    lemma_signature_found(front, number, seal.reference, s.pin, seal.tan);
    lemma_signature_plain(s.pin, seal.tan);
    let marker = encode_utf8("HNSHA:"@);
    lemma_front_bytes(number, seal.reference);
    lemma_trailer_wire(number, seal.reference, s.pin, seal.tan);
    let wire = segment_wire(trailer);
    assert(wire.subrange(0, 6) =~= marker);
    reveal_strlit("HNSHA:");
    lemma_ascii("HNSHA:"@);
    let rest = wire.subrange(6, wire.len() as int);
    assert(wire =~= marker + rest);
    assert(inner =~= front + marker + rest);
    lemma_found_longer(front + marker, rest, marker, 0);
}

proof fn lemma_container_of_message(s: Sender, seal: Seal, orders: Seq<Order>, p: Params)
    requires
        ({
            let front = before_container(s, seal, orders, p);
            let marker = encode_utf8("HNVSD:999:1+"@);
            find_from(front + marker, marker, 0) == Some(front.len() as int)
        }),
        segments_wire(signed_segments(s, seal, orders, p)).len() <= usize::MAX,
    ensures
        container_in(message_wire(s, seal, orders, p)) == Some(
            segments_wire(signed_segments(s, seal, orders, p)),
        ),
{
    let inner = segments_wire(signed_segments(s, seal, orders, p));
    let segs = message_segments(s, seal, orders, p, message_size(s, seal, orders, p));
    let front = before_container(s, seal, orders, p);
    let tail = segment_wire(segs[3]);
    lemma_four(segs[0], segs[1], segs[2], segs[3]);
    assert(segs =~= seq![segs[0], segs[1], segs[2], segs[3]]);
    lemma_envelope_container(inner);
    assert(segs[2] == hnvsd_model(inner));
    assert(message_wire(s, seal, orders, p) =~= front + (segment_wire(segs[2]) + tail));
    lemma_container_read(front, inner, tail);
}

} // verus!
