//! What the mock bank finds in the messages of a client.

use vstd::prelude::*;
use vstd::utf8::*;

use crate::message::{message_failure, message_wire, Seal, Sender};
use crate::numbers::{decimal, law_decimal_read};
use crate::params::Params;
use crate::request::Order;

use crate::server::laws::{lemma_ascii, lemma_byte_found, lemma_found_longer};
use crate::server::reading::{plain, plain_char};
use crate::server::scan::{
    byte_from, colon, field_at, find_from, known_versions_in, mentions, number_version_in, plus,
    plus_from, quote, touchdown_in, type_marker,
};
use crate::server::signing::{before_container, before_trailer, law_signature_found, plain_tan};
use crate::server::state::{refused, BankState};
use crate::text::{all_digits, is_digit, is_space, trimmed, utf8_text};

verus! {

/// What is looked for is found where it first stands, and not found where it
/// stands nowhere.
pub proof fn law_found(hay: Seq<u8>, needle: Seq<u8>, i: int)
    requires
        0 <= i,
    ensures
        match find_from(hay, needle, i) {
            Some(k) => {
                &&& i <= k && k + needle.len() <= hay.len()
                &&& hay.subrange(k, k + needle.len()) == needle
                &&& forall|j: int|
                    i <= j < k ==> #[trigger] hay.subrange(j, j + needle.len()) != needle
            },
            None => forall|j: int|
                i <= j && j + needle.len() <= hay.len() ==> #[trigger] hay.subrange(
                    j,
                    j + needle.len(),
                ) != needle,
        },
    decreases hay.len() - i,
{
    if i + needle.len() <= hay.len() && i < hay.len() && hay.subrange(i, i + needle.len())
        != needle {
        law_found(hay, needle, i + 1);
    }
}

/// A segment type is mentioned where it stands with a colon behind it.
pub proof fn law_mentioned(message: Seq<u8>, seg_type: Seq<char>)
    ensures
        ({
            let needle = encode_utf8(seg_type) + seq![0x3au8];
            mentions(message, seg_type) <==> exists|j: int|
                0 <= j && j + needle.len() <= message.len() && #[trigger] message.subrange(
                    j,
                    j + needle.len(),
                ) == needle
        }),
{
    let needle = encode_utf8(seg_type) + seq![0x3au8];
    assert(type_marker(seg_type) =~= needle);
    law_found(message, needle, 0);
}

proof fn lemma_plain_text(s: Seq<char>)
    requires
        plain(s),
    ensures
        utf8_text(encode_utf8(s)) == Some(s),
        encode_utf8(s).len() == s.len(),
        forall|i: int|
            0 <= i < s.len() ==> {
                let b = #[trigger] encode_utf8(s)[i];
                b != 0x2b && b != 0x3a && b != 0x27 && b != 0x40
            },
{
    assert forall|i: int| 0 <= i < s.len() implies '\0' <= #[trigger] s[i] <= '\u{7f}' by {
        assert(plain_char(s[i]));
        lemma_plain_is_ascii(s[i]);
    }
    lemma_ascii(s);
    encode_utf8_valid_utf8(s);
    encode_utf8_decode_utf8(s);
    assert forall|i: int| 0 <= i < s.len() implies {
        let b = #[trigger] encode_utf8(s)[i];
        b != 0x2b && b != 0x3a && b != 0x27 && b != 0x40
    } by {
        assert(plain_char(s[i]));
        assert(encode_utf8(s)[i] == s[i] as u8);
    }
}

proof fn lemma_plain_is_ascii(c: char)
    requires
        plain_char(c),
    ensures
        '\0' <= c <= '\u{7f}',
{
}

/// The bank finds number and version of a segment that a client writes as
/// `TYPE:number:version`, where the type first stands there.
pub proof fn law_number_found(
    front: Seq<u8>,
    seg_type: Seq<char>,
    number: Seq<char>,
    version: Seq<char>,
    end: u8,
    rest: Seq<u8>,
)
    requires
        plain(number) && plain(version),
        end == 0x2b || end == 0x3a || end == 0x27,
        find_from(front + type_marker(seg_type), type_marker(seg_type), 0) == Some(
            front.len() as int,
        ),
    ensures
        number_version_in(
            front + type_marker(seg_type) + encode_utf8(number) + seq![0x3au8] + encode_utf8(
                version,
            ) + seq![end] + rest,
            seg_type,
        ) == Some((number, version)),
{
    let m = type_marker(seg_type);
    let n = encode_utf8(number);
    let v = encode_utf8(version);
    let c = seq![0x3au8];
    let message = front + m + n + c + v + seq![end] + rest;
    assert(find_from(message, m, 0) == Some(front.len() as int)) by {
        let tail = n + c + v + seq![end] + rest;
        assert(message =~= (front + m) + tail);
        lemma_found_longer(front + m, tail, m, 0);
    }
    lemma_plain_text(number);
    lemma_plain_text(version);
    lemma_next(message, front + m, n, 0x3a, v + seq![end] + rest, colon());
    lemma_next(message, front + m + n + c, v, end, rest, set![0x2bu8, 0x3au8, 0x27u8]);
}

/// The bank finds the versions of the parameters that a client states in HKVVB
/// behind number and version, where that first stands there.
pub proof fn law_known_versions_found(
    front: Seq<u8>,
    number: Seq<char>,
    version: Seq<char>,
    bpd: Seq<char>,
    upd: Seq<char>,
    end: u8,
    rest: Seq<u8>,
)
    requires
        plain(number) && plain(version) && plain(bpd) && plain(upd),
        end == 0x2b || end == 0x27,
        ({
            let m = encode_utf8("HKVVB:"@);
            find_from(front + m, m, 0) == Some(front.len() as int)
        }),
    ensures
        known_versions_in(
            front + encode_utf8("HKVVB:"@) + (encode_utf8(number) + seq![0x3au8] + encode_utf8(
                version,
            )) + seq![0x2bu8] + encode_utf8(bpd) + seq![0x2bu8] + encode_utf8(upd) + seq![end]
                + rest,
        ) == Some((bpd, upd)),
{
    let m = encode_utf8("HKVVB:"@);
    let h = encode_utf8(number) + seq![0x3au8] + encode_utf8(version);
    let b = encode_utf8(bpd);
    let u = encode_utf8(upd);
    let p = seq![0x2bu8];
    let message = front + m + h + p + b + p + u + seq![end] + rest;
    lemma_plain_text(bpd);
    lemma_plain_text(upd);
    assert(find_from(message, m, 0) == Some(front.len() as int)) by {
        let tail = h + p + b + p + u + seq![end] + rest;
        assert(message =~= (front + m) + tail);
        lemma_found_longer(front + m, tail, m, 0);
    }
    assert(forall|j: int| 0 <= j < h.len() ==> !plus().contains(#[trigger] h[j])) by {
        lemma_plain_header(number, version);
    }
    lemma_next(message, front + m, h, 0x2b, b + p + u + seq![end] + rest, plus());
    lemma_next(message, front + m + h + p, b, 0x2b, u + seq![end] + rest, plus());
    lemma_next(message, front + m + h + p + b + p, u, end, rest, set![0x2bu8, 0x27u8]);
}

proof fn lemma_plain_header(number: Seq<char>, version: Seq<char>)
    requires
        plain(number) && plain(version),
    ensures
        ({
            let h = encode_utf8(number) + seq![0x3au8] + encode_utf8(version);
            forall|j: int| 0 <= j < h.len() ==> !plus().contains(#[trigger] h[j])
        }),
{
    lemma_plain_text(number);
    lemma_plain_text(version);
    let n = encode_utf8(number);
    let v = encode_utf8(version);
    let h = n + seq![0x3au8] + v;
    assert forall|j: int| 0 <= j < h.len() implies !plus().contains(#[trigger] h[j]) by {
        if j < n.len() {
            assert(h[j] == n[j]);
        } else if j > n.len() {
            assert(h[j] == v[j - n.len() - 1]);
        }
    }
}

/// A part that ends with the first of some bytes.
proof fn lemma_next(
    message: Seq<u8>,
    front: Seq<u8>,
    x: Seq<u8>,
    end: u8,
    rest: Seq<u8>,
    wanted: Set<u8>,
)
    requires
        message =~= front + x + seq![end] + rest,
        wanted.contains(end),
        forall|j: int| 0 <= j < x.len() ==> !wanted.contains(#[trigger] x[j]),
    ensures
        byte_from(message, wanted, front.len() as int) == Some((front.len() + x.len()) as int),
        message.subrange(front.len() as int, (front.len() + x.len()) as int) == x,
{
    let i = front.len() as int;
    let k = i + x.len();
    assert(message[k] == end);
    assert forall|j: int| i <= j < k implies !wanted.contains(#[trigger] message[j]) by {
        assert(message[j] == x[j - i]);
    }
    lemma_byte_found(message, wanted, i, k);
    assert(message.subrange(i, k) =~= x);
}

// ---- Points ----

/// Fields with a `+` between them.
pub open spec fn fields(fs: Seq<Seq<char>>) -> Seq<char>
    decreases fs.len(),
{
    if fs.len() == 0 {
        Seq::empty()
    } else if fs.len() == 1 {
        fs[0]
    } else {
        fs[0] + seq!['+'] + fields(fs.skip(1))
    }
}

proof fn lemma_plus_at(s: Seq<char>, i: int, k: int)
    requires
        0 <= i <= k <= s.len(),
        forall|j: int| i <= j < k ==> #[trigger] s[j] != '+',
    ensures
        k < s.len() && s[k] == '+' ==> plus_from(s, i) == Some(k),
        k == s.len() ==> plus_from(s, i) is None,
    decreases k - i,
{
    if i < k {
        lemma_plus_at(s, i + 1, k);
    }
}

proof fn lemma_field(front: Seq<char>, fs: Seq<Seq<char>>, n: nat)
    requires
        n < fs.len(),
        forall|k: int, j: int|
            0 <= k < fs.len() && 0 <= j < fs[k].len() ==> #[trigger] fs[k][j] != '+',
    ensures
        field_at(front + fields(fs), front.len() as int, n) == Some(fs[n as int]),
    decreases n,
{
    let s = front + fields(fs);
    let i = front.len() as int;
    let k = i + fs[0].len();
    assert forall|j: int| i <= j < k implies #[trigger] s[j] != '+' by {
        assert(fields(fs)[j - i] == fs[0][j - i]);
    }
    lemma_plus_at(s, i, k);
    if fs.len() == 1 {
        assert(s.subrange(i, s.len() as int) =~= fs[0]);
    } else {
        assert(s[k] == '+');
        assert(s.subrange(i, k) =~= fs[0]);
        if n > 0 {
            let next = front + fs[0] + seq!['+'];
            let rest = fs.skip(1);
            assert forall|a: int, j: int|
                0 <= a < rest.len() && 0 <= j < rest[a].len() implies #[trigger] rest[a][j]
                != '+' by {
                assert(rest[a] == fs[a + 1]);
                assert(fs[a + 1][j] != '+');
            }
            lemma_field(next, rest, (n - 1) as nat);
            assert(s =~= next + fields(rest));
            assert(rest[n - 1] == fs[n as int]);
        }
    }
}

proof fn lemma_digits_trimmed(s: Seq<char>)
    requires
        all_digits(s),
    ensures
        trimmed(s) == s,
{
    if s.len() > 0 {
        assert(is_digit(s[0]) && is_digit(s[s.len() - 1]));
        assert(s.last() == s[s.len() - 1]);
        assert(!is_space(s[0]) && !is_space(s.last()));
    }
}

/// The bank finds the point that a client states in the seventh field of HKKAZ,
/// where that first stands there; a request of six fields states none.
pub proof fn law_point_found(front: Seq<u8>, fs: Seq<Seq<char>>, point: nat, rest: Seq<u8>)
    requires
        point <= u32::MAX,
        fs.len() == 6,
        forall|k: int, j: int|
            0 <= k < fs.len() && 0 <= j < fs[k].len() ==> #[trigger] fs[k][j] != '+',
        ({
            let seg = fields(fs.push(decimal(point)));
            let m = encode_utf8("HKKAZ:"@);
            &&& is_ascii_chars(seg) && !seg.contains('\'')
            &&& find_from(front + encode_utf8(seg), m, 0) == Some(front.len() as int)
        }),
    ensures
        touchdown_in(front + encode_utf8(fields(fs.push(decimal(point)))) + seq![0x27u8] + rest)
            == Some(point as int),
{
    let all = fs.push(decimal(point));
    let seg = fields(all);
    let m = encode_utf8("HKKAZ:"@);
    let w = encode_utf8(seg);
    let message = front + w + seq![0x27u8] + rest;
    law_decimal_read(point);
    assert(message =~= (front + w) + (seq![0x27u8] + rest));
    lemma_found_longer(front + w, seq![0x27u8] + rest, m, 0);
    assert forall|i: int| 0 <= i < seg.len() implies '\0' <= #[trigger] seg[i] <= '\u{7f}' by {}
    lemma_ascii(seg);
    encode_utf8_valid_utf8(seg);
    encode_utf8_decode_utf8(seg);
    let i = front.len() as int;
    let end = i + w.len();
    assert(message[end] == 0x27);
    assert forall|j: int| i <= j < end implies !quote().contains(#[trigger] message[j]) by {
        assert(message[j] == w[j - i]);
        assert(w[j - i] == seg[j - i] as u8);
        lemma_no_quote(seg[j - i]);
        assert(seg.contains(seg[j - i]));
    }
    lemma_byte_found(message, quote(), i, end);
    assert(message.subrange(i, end) =~= w);
    assert forall|k: int, j: int|
        0 <= k < all.len() && 0 <= j < all[k].len() implies #[trigger] all[k][j] != '+' by {
        if k < 6 {
            assert(all[k] == fs[k]);
            assert(fs[k][j] != '+');
        } else {
            assert(is_digit(decimal(point)[j]));
        }
    }
    lemma_field(Seq::<char>::empty(), all, 6);
    assert(Seq::<char>::empty() + fields(all) =~= seg);
    assert(all[6] == decimal(point));
    lemma_digits_trimmed(decimal(point));
    crate::server::laws::lemma_number_read(point, u32::MAX as int);
}

proof fn lemma_no_quote(c: char)
    requires
        '\0' <= c <= '\u{7f}',
        c != '\'',
    ensures
        c as u8 != 0x27,
{
}

// ---- PINs ----

/// The bank accepts a message of a client where the PIN that the client signs
/// with is a valid or a locked one, and refuses it otherwise, as far as it finds
/// the signature.
pub proof fn law_pin_judged(
    b: BankState,
    s: Sender,
    seal: Seal,
    orders: Seq<Order>,
    p: Params,
)
    requires
        message_failure(s, seal, orders, p) is None,
        0 <= seal.reference,
        plain(s.pin),
        s.pin.len() > 0,
        plain_tan(seal.tan),
        ({
            let front = before_container(s, seal, orders, p);
            let marker = encode_utf8("HNVSD:999:1+"@);
            find_from(front + marker, marker, 0) == Some(front.len() as int)
        }),
        ({
            let front = before_trailer(s, seal, orders, p);
            let marker = encode_utf8("HNSHA:"@);
            find_from(front + marker, marker, 0) == Some(front.len() as int)
        }),
        crate::serializer::segments_wire(
            crate::message::signed_segments(s, seal, orders, p),
        ).len() <= usize::MAX,
    ensures
        refused(b, message_wire(s, seal, orders, p)) <==> !b.fixtures.valid_pins.contains(s.pin)
            && !b.fixtures.temp_locked_pins.contains(s.pin),
{
    law_signature_found(s, seal, orders, p);
}

} // verus!
