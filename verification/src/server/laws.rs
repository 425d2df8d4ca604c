//! What holds of the mock bank's answers as a whole.

use vstd::prelude::*;
use vstd::string::*;
use vstd::utf8::*;

use crate::message::lemma_padded_digits;
use crate::numbers::{decimal, digit, digits_value, lemma_decimal_digits, padded, parsed_int, zeros};
use crate::server::codec::{hex_byte, hex_text};
use crate::server::scan::{
    at_sign, byte_from, container_in, container_span, dialog_id_in, find_from, plus,
};
use crate::server::state::{
    encryption_header, envelope, envelope_body, envelope_container, envelope_header,
    envelope_size, envelope_trailer, generated_id,
};
use crate::text::{all_digits, is_digit};

verus! {

// ---- Steps ----

pub proof fn lemma_ascii(s: Seq<char>)
    requires
        forall|i: int| 0 <= i < s.len() ==> '\0' <= #[trigger] s[i] <= '\u{7f}',
    ensures
        encode_utf8(s).len() == s.len(),
        forall|i: int| 0 <= i < s.len() ==> #[trigger] encode_utf8(s)[i] == s[i] as u8,
{
    is_ascii_chars_encode_utf8(s);
}

pub proof fn lemma_digits_ascii(s: Seq<char>)
    requires
        all_digits(s),
    ensures
        encode_utf8(s).len() == s.len(),
        forall|i: int| 0 <= i < s.len() ==> 0x30 <= #[trigger] encode_utf8(s)[i] <= 0x39,
{
    assert forall|i: int| 0 <= i < s.len() implies '\0' <= #[trigger] s[i] <= '\u{7f}' by {
        assert(is_digit(s[i]));
    }
    lemma_ascii(s);
    assert forall|i: int| 0 <= i < s.len() implies 0x30 <= #[trigger] encode_utf8(s)[i] <= 0x39 by {
        assert(is_digit(s[i]));
        assert(encode_utf8(s)[i] == s[i] as u8);
    }
}

/// A byte below 128 stands in a text's UTF-8 form only where its character
/// stands in the text.
pub proof fn lemma_byte_of_char(s: Seq<char>, k: int)
    requires
        0 <= k < encode_utf8(s).len(),
        encode_utf8(s)[k] < 0x80,
    ensures
        s.contains(encode_utf8(s)[k] as char),
{
    let bytes = encode_utf8(s);
    let b = bytes[k];
    encode_utf8_valid_utf8(s);
    encode_utf8_decode_utf8(s);
    is_char_boundary_iff_is_leading_byte(bytes, k);
    valid_utf8_split(bytes, k);
    decode_utf8_split(bytes, k);
    let front = decode_utf8(bytes.subrange(0, k));
    let tail = bytes.subrange(k, bytes.len() as int);
    assert(tail[0] == b);
    assert(decode_utf8(tail)[0] == decode_first_scalar(tail) as char);
    assert(decode_first_scalar(tail) == codepoint_width_1(b));
    assert(codepoint_width_1(b) == b as u32) by {
        assert(b < 0x80 ==> b & 0x7f == b) by (bit_vector);
    }
    assert(s == front + decode_utf8(tail));
    assert(s[front.len() as int] == b as char);
}

/// A byte is found where it first stands.
pub proof fn lemma_byte_found(hay: Seq<u8>, wanted: Set<u8>, i: int, k: int)
    requires
        0 <= i <= k < hay.len(),
        wanted.contains(hay[k]),
        forall|j: int| i <= j < k ==> !wanted.contains(#[trigger] hay[j]),
    ensures
        byte_from(hay, wanted, i) == Some(k),
    decreases k - i,
{
    if i < k {
        lemma_byte_found(hay, wanted, i + 1, k);
    }
}

/// What is found in some bytes is found there too when more follow.
pub proof fn lemma_found_longer(hay: Seq<u8>, more: Seq<u8>, needle: Seq<u8>, i: int)
    requires
        find_from(hay, needle, i) is Some,
    ensures
        find_from(hay + more, needle, i) == find_from(hay, needle, i),
    decreases hay.len() - i,
{
    let all = hay + more;
    assert(all.subrange(i, i + needle.len()) =~= hay.subrange(i, i + needle.len()));
    if hay.subrange(i, i + needle.len()) != needle {
        lemma_found_longer(hay, more, needle, i + 1);
    }
}

proof fn lemma_value_of_decimal(n: nat)
    ensures
        digits_value(decimal(n)) == n,
    decreases n,
{
    let d = decimal(n);
    if n < 10 {
        assert(d.drop_last() =~= Seq::<char>::empty());
        assert(digits_value(d.drop_last()) == 0);
        assert(d.last() == digit(n as int));
    } else {
        lemma_value_of_decimal(n / 10);
        assert(d.drop_last() =~= decimal(n / 10));
        assert(d.last() == digit((n % 10) as int));
    }
}

/// A number is read as it is written.
pub proof fn lemma_number_read(n: nat, limit: int)
    requires
        n <= limit,
    ensures
        parsed_int(decimal(n), 0, limit) == Some(n as int),
{
    lemma_decimal_digits(n);
    lemma_value_of_decimal(n);
    assert(is_digit(decimal(n)[0]));
}

// ---- Containers ----

/// What stands in front of the container of an answer.
pub open spec fn container_front(dialog_id: Seq<char>, message_number: int, inner: Seq<u8>) -> Seq<
    u8,
> {
    envelope_header(
        envelope_size(dialog_id, message_number, inner),
        dialog_id,
        message_number,
    ) + encryption_header()
}

/// A byte that is found in some bytes is found there too when more follow.
proof fn lemma_byte_longer(hay: Seq<u8>, more: Seq<u8>, wanted: Set<u8>, i: int)
    requires
        0 <= i,
        byte_from(hay, wanted, i) is Some,
    ensures
        byte_from(hay + more, wanted, i) == byte_from(hay, wanted, i),
        i <= byte_from(hay, wanted, i)->0 < hay.len(),
    decreases hay.len() - i,
{
    let all = hay + more;
    assert(all[i] == hay[i]);
    if !wanted.contains(hay[i]) {
        lemma_byte_longer(hay, more, wanted, i + 1);
    }
}

/// A container that is whole in some bytes is the same when more follow.
proof fn lemma_span_longer(hay: Seq<u8>, more: Seq<u8>)
    ensures
        container_span(hay) matches Some((i, j)) ==> 0 <= i <= j <= hay.len() && container_span(
            hay + more,
        ) == Some((i, j)),
{
    if let Some((i, j)) = container_span(hay) {
        let all = hay + more;
        let marker = encode_utf8("HNVSD:999:1+"@);
        lemma_found_longer(hay, more, marker, 0);
        lemma_found_bounds(hay, marker, 0);
        let start = find_from(hay, marker, 0)->0 + marker.len();
        assert(all[start] == hay[start]);
        lemma_byte_longer(hay, more, at_sign(), start + 1);
        let end = byte_from(hay, at_sign(), start + 1)->0;
        assert(all.subrange(start + 1, end) =~= hay.subrange(start + 1, end));
    }
}

proof fn lemma_found_bounds(hay: Seq<u8>, needle: Seq<u8>, i: int)
    requires
        0 <= i,
    ensures
        find_from(hay, needle, i) matches Some(k) ==> i <= k <= hay.len() - needle.len(),
    decreases hay.len() - i,
{
    if i + needle.len() <= hay.len() && i < hay.len() && hay.subrange(i, i + needle.len())
        != needle {
        lemma_found_bounds(hay, needle, i + 1);
    }
}

/// The container of a message is found in what is left of the message exactly
/// where that holds it to its end: cut off before, a message gives nothing.
pub proof fn law_container_cut(message: Seq<u8>, n: int)
    requires
        container_span(message) is Some,
        0 <= n <= message.len(),
    ensures
        container_span(message) matches Some((i, j)) && container_in(message.take(n)) == if n < j {
            None
        } else {
            container_in(message)
        },
{
    let cut = message.take(n);
    let (i, j) = container_span(message)->0;
    assert(cut + message.skip(n) =~= message);
    lemma_span_longer(cut, message.skip(n));
    if n >= j {
        lemma_span_kept(message, n);
        lemma_span_longer(message, Seq::empty());
        assert(message + Seq::<u8>::empty() =~= message);
        assert(cut.subrange(i, j) =~= message.subrange(i, j));
    }
}

/// What is found in some bytes is found in those that hold it whole.
proof fn lemma_found_cut(hay: Seq<u8>, needle: Seq<u8>, i: int, n: int)
    requires
        0 <= i,
        0 <= n <= hay.len(),
        find_from(hay, needle, i) matches Some(k) && k + needle.len() <= n,
    ensures
        find_from(hay.take(n), needle, i) == find_from(hay, needle, i),
    decreases hay.len() - i,
{
    lemma_found_bounds(hay, needle, i);
    let cut = hay.take(n);
    assert(cut.subrange(i, i + needle.len()) =~= hay.subrange(i, i + needle.len()));
    if hay.subrange(i, i + needle.len()) != needle {
        lemma_found_cut(hay, needle, i + 1, n);
    }
}

proof fn lemma_byte_cut(hay: Seq<u8>, wanted: Set<u8>, i: int, n: int)
    requires
        0 <= i,
        0 <= n <= hay.len(),
        byte_from(hay, wanted, i) matches Some(k) && k < n,
    ensures
        byte_from(hay.take(n), wanted, i) == byte_from(hay, wanted, i),
        i <= byte_from(hay, wanted, i)->0,
    decreases hay.len() - i,
{
    if wanted.contains(hay[i]) {
        assert(hay.take(n)[i] == hay[i]);
    } else {
        lemma_byte_cut(hay, wanted, i + 1, n);
        assert(hay.take(n)[i] == hay[i]);
    }
}

proof fn lemma_span_kept(message: Seq<u8>, n: int)
    requires
        container_span(message) matches Some((i, j)) && j <= n,
        0 <= n <= message.len(),
    ensures
        container_span(message.take(n)) == container_span(message),
{
    let cut = message.take(n);
    let marker = encode_utf8("HNVSD:999:1+"@);
    lemma_found_bounds(message, marker, 0);
    let start = find_from(message, marker, 0)->0 + marker.len();
    let end = byte_from(message, at_sign(), start + 1)->0;
    lemma_byte_cut(message, at_sign(), start + 1, n);
    lemma_found_cut(message, marker, 0, n);
    assert(cut[start] == message[start]);
    assert(cut.subrange(start + 1, end) =~= message.subrange(start + 1, end));
}

/// The inner segments of an answer are found in its container, unless the dialog
/// identification itself looks like the start of one. An answer that is cut off
/// before their end gives nothing.
pub proof fn law_container_found(dialog_id: Seq<char>, message_number: int, inner: Seq<u8>)
    requires
        inner.len() <= usize::MAX,
        ({
            let front = container_front(dialog_id, message_number, inner);
            let marker = encode_utf8("HNVSD:999:1+"@);
            find_from(front + marker, marker, 0) == Some(front.len() as int)
        }),
    ensures
        container_in(envelope(dialog_id, message_number, inner)) == Some(inner),
        forall|n: int|
            0 <= n < container_front(dialog_id, message_number, inner).len() + envelope_container(
                inner,
            ).len() - 1 ==> container_in(
                #[trigger] envelope(dialog_id, message_number, inner).take(n),
            ) is None,
{
    let header = envelope_header(
        envelope_size(dialog_id, message_number, inner),
        dialog_id,
        message_number,
    );
    let trailer = envelope_trailer(message_number);
    let front = container_front(dialog_id, message_number, inner);
    assert(envelope(dialog_id, message_number, inner) =~= front + (envelope_container(inner)
        + trailer));
    lemma_container_read(front, inner, trailer);
    let all = envelope(dialog_id, message_number, inner);
    assert forall|n: int|
        0 <= n < front.len() + envelope_container(inner).len() - 1 implies container_in(
        #[trigger] all.take(n),
    ) is None by {
        law_container_cut(all, n);
    }
}

pub proof fn lemma_container_read(front: Seq<u8>, inner: Seq<u8>, rest: Seq<u8>)
    requires
        inner.len() <= usize::MAX,
        ({
            let marker = encode_utf8("HNVSD:999:1+"@);
            find_from(front + marker, marker, 0) == Some(front.len() as int)
        }),
    ensures
        container_in(front + (envelope_container(inner) + rest)) == Some(inner),
        container_span(front + (envelope_container(inner) + rest)) matches Some((i, j)) && j
            == front.len() + envelope_container(inner).len() - 1,
{
    let message = front + (envelope_container(inner) + rest);
    let marker = encode_utf8("HNVSD:999:1+"@);
    let at = encode_utf8("@"@);
    let digits = encode_utf8(decimal(inner.len()));
    let tail = at + digits + at + inner + encode_utf8("'"@) + rest;
    reveal_strlit("@");
    lemma_ascii("@"@);
    assert(at =~= seq![0x40u8]);
    assert(message =~= front + marker + tail);
    lemma_found_longer(front + marker, tail, marker, 0);
    let start = (front.len() + marker.len()) as int;
    assert(message[start] == tail[0]);
    lemma_decimal_digits(inner.len());
    lemma_digits_ascii(decimal(inner.len()));
    let end = start + 1 + digits.len();
    assert(message[end] == tail[1 + digits.len() as int]);
    assert forall|j: int| start + 1 <= j < end implies !at_sign().contains(#[trigger] message[j]) by {
        assert(message[j] == tail[j - start]);
        assert(tail[j - start] == digits[j - start - 1]);
    }
    lemma_byte_found(message, at_sign(), start + 1, end);
    assert(message.subrange(start + 1, end) =~= digits);
    encode_utf8_valid_utf8(decimal(inner.len()));
    encode_utf8_decode_utf8(decimal(inner.len()));
    lemma_number_read(inner.len(), usize::MAX as int);
    assert(message.subrange(end + 1, end + 1 + inner.len()) =~= inner);
    reveal_strlit("'");
    lemma_ascii("'"@);
    assert(encode_utf8("'"@).len() == 1);
}

/// Bytes without a `D` hold no part of the container's marker, so that it is
/// found behind them.
proof fn lemma_marker_behind(front: Seq<u8>, i: int)
    requires
        0 <= i <= front.len(),
        forall|k: int| 0 <= k < front.len() ==> #[trigger] front[k] != 0x44,
    ensures
        ({
            let marker = encode_utf8("HNVSD:999:1+"@);
            find_from(front + marker, marker, i) == Some(front.len() as int)
        }),
    decreases front.len() - i,
{
    let marker = encode_utf8("HNVSD:999:1+"@);
    reveal_strlit("HNVSD:999:1+");
    lemma_ascii("HNVSD:999:1+"@);
    let hay = front + marker;
    let w = hay.subrange(i, i + marker.len());
    if i == front.len() {
        assert(w =~= marker);
    } else {
        assert(marker[4] == 0x44);
        assert(w[4] == hay[i + 4]);
        if i + 4 < front.len() {
            assert(hay[i + 4] == front[i + 4]);
        } else {
            let k = i + 4 - front.len();
            assert(0 <= k < 4);
            assert(hay[i + 4] == marker[k]);
            assert(marker[0] == 0x48 && marker[1] == 0x4e && marker[2] == 0x56 && marker[3]
                == 0x53);
        }
        assert(w != marker);
        lemma_marker_behind(front, i + 1);
    }
}

// ---- Generated identifications ----

/// Characters that have a meaning of their own in messages.
pub open spec fn is_separator(c: char) -> bool {
    c == '+' || c == ':' || c == '\'' || c == '@' || c == '?'
}

/// Lower-case hexadecimal digits, decimal digits and `;`.
pub open spec fn plain_id(s: Seq<char>) -> bool {
    forall|i: int|
        0 <= i < s.len() ==> is_digit(#[trigger] s[i]) || 'a' <= s[i] <= 'f' || s[i] == ';'
}

proof fn lemma_hex_text(bytes: Seq<u8>)
    ensures
        plain_id(hex_text(bytes)),
    decreases bytes.len(),
{
    if bytes.len() > 0 {
        let before = hex_text(bytes.drop_last());
        let b = bytes.last();
        lemma_hex_text(bytes.drop_last());
        assert forall|i: int| 0 <= i < hex_text(bytes).len() implies is_digit(
            #[trigger] hex_text(bytes)[i],
        ) || 'a' <= hex_text(bytes)[i] <= 'f' || hex_text(bytes)[i] == ';' by {
            if i < before.len() {
                assert(hex_text(bytes)[i] == before[i]);
            } else {
                assert(hex_text(bytes)[i] == hex_byte(b)[i - before.len()]);
            }
        }
    }
}

/// The identifications that the bank makes from a hexadecimal prefix hold no
/// character that has a meaning of its own in messages.
pub proof fn law_generated_id_plain(bytes: Seq<u8>, n: int)
    requires
        0 <= n,
    ensures
        plain_id(generated_id(hex_text(bytes), n)),
        forall|i: int|
            0 <= i < generated_id(hex_text(bytes), n).len() ==> !is_separator(
                #[trigger] generated_id(hex_text(bytes), n)[i],
            ),
{
    let prefix = hex_text(bytes);
    let id = generated_id(prefix, n);
    let num = padded(n as nat, 5);
    lemma_hex_text(bytes);
    lemma_padded_digits(n as nat, 5);
    reveal_strlit(";");
    assert forall|i: int| 0 <= i < id.len() implies is_digit(#[trigger] id[i]) || 'a' <= id[i]
        <= 'f' || id[i] == ';' by {
        if i < prefix.len() {
            assert(id[i] == prefix[i]);
        } else if i == prefix.len() {
            assert(id[i] == ";"@[0]);
        } else {
            assert(id[i] == num[i - prefix.len() - 1]);
        }
    }
}

proof fn lemma_zeros_value(k: nat, d: Seq<char>)
    ensures
        digits_value(zeros(k) + d) == digits_value(d),
    decreases d.len(), k,
{
    let s = zeros(k) + d;
    if d.len() > 0 {
        assert(s.drop_last() =~= zeros(k) + d.drop_last());
        lemma_zeros_value(k, d.drop_last());
    } else if k > 0 {
        assert(s.drop_last() =~= zeros((k - 1) as nat) + d);
        lemma_zeros_value((k - 1) as nat, d);
        assert(s.last() == '0');
    } else {
        assert(s =~= d);
    }
}

proof fn lemma_padded_value(n: nat, width: nat)
    ensures
        digits_value(padded(n, width)) == n,
{
    lemma_value_of_decimal(n);
    if decimal(n).len() < width {
        lemma_zeros_value((width - decimal(n).len()) as nat, decimal(n));
    }
}

/// The identifications that the bank makes from one prefix are all different.
pub proof fn law_ids_distinct(prefix: Seq<char>, m: int, n: int)
    requires
        0 <= m,
        0 <= n,
        generated_id(prefix, m) == generated_id(prefix, n),
    ensures
        m == n,
{
    let front = prefix + ";"@;
    let k = front.len() as int;
    let a = padded(m as nat, 5);
    let b = padded(n as nat, 5);
    assert(generated_id(prefix, m).skip(k) =~= a);
    assert(generated_id(prefix, n).skip(k) =~= b);
    lemma_padded_value(m as nat, 5);
    lemma_padded_value(n as nat, 5);
}

/// For a dialog identification that the bank makes from a hexadecimal prefix the
/// inner segments of an answer are always found.
pub proof fn law_generated_container_found(
    bytes: Seq<u8>,
    n: int,
    message_number: int,
    inner: Seq<u8>,
)
    requires
        0 <= n,
        0 <= message_number,
        inner.len() <= usize::MAX,
    ensures
        container_in(envelope(generated_id(hex_text(bytes), n), message_number, inner)) == Some(
            inner,
        ),
{
    let id = generated_id(hex_text(bytes), n);
    law_generated_id_plain(bytes, n);
    let front = container_front(id, message_number, inner);
    lemma_front_plain(id, message_number, envelope_size(id, message_number, inner));
    lemma_marker_behind(front, 0);
    law_container_found(id, message_number, inner);
}

proof fn lemma_no_d(s: Seq<char>)
    requires
        !s.contains('D'),
    ensures
        forall|k: int| 0 <= k < encode_utf8(s).len() ==> #[trigger] encode_utf8(s)[k] != 0x44,
{
    assert forall|k: int| 0 <= k < encode_utf8(s).len() implies #[trigger] encode_utf8(s)[k]
        != 0x44 by {
        if encode_utf8(s)[k] == 0x44 {
            lemma_byte_of_char(s, k);
            assert(0x44u8 as char == 'D');
        }
    }
}

proof fn lemma_front_plain(id: Seq<char>, message_number: int, size: int)
    requires
        plain_id(id),
        0 <= message_number,
        0 <= size,
    ensures
        ({
            let front = envelope_header(size, id, message_number) + encryption_header();
            forall|k: int| 0 <= k < front.len() ==> #[trigger] front[k] != 0x44
        }),
{
    reveal_strlit("HNHBK:1:3+");
    reveal_strlit("+300+");
    reveal_strlit("+");
    reveal_strlit("'");
    assert(!"HNHBK:1:3+"@.contains('D'));
    assert(!"+300+"@.contains('D'));
    assert(!"+"@.contains('D'));
    assert(!"'"@.contains('D'));
    lemma_no_d("HNHBK:1:3+"@);
    lemma_no_d("+300+"@);
    lemma_no_d("+"@);
    lemma_no_d("'"@);
    lemma_padded_digits(size as nat, 12);
    lemma_digits_ascii(padded(size as nat, 12));
    lemma_decimal_digits(message_number as nat);
    lemma_digits_ascii(decimal(message_number as nat));
    assert(!id.contains('D')) by {
        assert forall|i: int| 0 <= i < id.len() implies id[i] != 'D' by {
            assert(is_digit(id[i]) || 'a' <= id[i] <= 'f' || id[i] == ';');
        }
    }
    lemma_no_d(id);
    lemma_header_plain();
}

proof fn lemma_header_plain()
    ensures
        forall|k: int|
            0 <= k < encryption_header().len() ==> #[trigger] encryption_header()[k] != 0x44,
{
    let lit =
        "HNVSK:998:3+PIN:1+998+1+2::0+1+2:2:13:@8@\x00\x00\x00\x00\x00\x00\x00\x00:5:1+280:12345678:0:S:0:0+0'"@;
    reveal_strlit(
        "HNVSK:998:3+PIN:1+998+1+2::0+1+2:2:13:@8@\x00\x00\x00\x00\x00\x00\x00\x00:5:1+280:12345678:0:S:0:0+0'",
    );
    assert(!lit.contains('D'));
    lemma_no_d(lit);
}

// ---- Dialog identifications ----

/// The dialog identification is found in a header.
pub proof fn lemma_header_id(
    size: int,
    dialog_id: Seq<char>,
    message_number: int,
    rest: Seq<u8>,
)
    requires
        0 <= size,
        !dialog_id.contains('+'),
        valid_utf8(envelope_header(size, dialog_id, message_number) + rest),
    ensures
        dialog_id_in(envelope_header(size, dialog_id, message_number) + rest) == Some(dialog_id),
{
    let message = envelope_header(size, dialog_id, message_number) + rest;
    let marker = encode_utf8("HNHBK:1:3+"@);
    let digits = encode_utf8(padded(size as nat, 12));
    let version = encode_utf8("+300+"@);
    let id = encode_utf8(dialog_id);
    let sep = encode_utf8("+"@);
    let behind = encode_utf8(decimal(message_number as nat)) + encode_utf8("'"@) + rest;
    assert(message =~= marker + digits + version + id + sep + behind);
    reveal_strlit("HNHBK:1:3+");
    reveal_strlit("+300+");
    reveal_strlit("+");
    lemma_ascii("HNHBK:1:3+"@);
    lemma_ascii("+300+"@);
    lemma_ascii("+"@);
    lemma_padded_digits(size as nat, 12);
    lemma_digits_ascii(padded(size as nat, 12));
    assert(message.subrange(0, marker.len() as int) =~= marker);
    assert(find_from(message, marker, 0) == Some(0int));
    let p1 = (marker.len() + digits.len()) as int;
    assert(message[p1] == version[0]);
    assert forall|j: int| marker.len() <= j < p1 implies !plus().contains(#[trigger] message[j]) by {
        assert(message[j] == digits[j - marker.len()]);
    }
    lemma_byte_found(message, plus(), marker.len() as int, p1);
    let p2 = p1 + 4;
    assert(message[p2] == version[4]);
    assert(message[p1 + 1] == version[1]);
    assert(message[p1 + 2] == version[2]);
    assert(message[p1 + 3] == version[3]);
    lemma_byte_found(message, plus(), p1 + 1, p2);
    let p3 = p2 + 1 + id.len();
    assert(message[p3] == sep[0]);
    assert forall|j: int| p2 + 1 <= j < p3 implies !plus().contains(#[trigger] message[j]) by {
        let k = j - p2 - 1;
        assert(message[j] == id[k]);
        if id[k] == 0x2b {
            lemma_byte_of_char(dialog_id, k);
            assert(0x2bu8 as char == '+');
        }
    }
    lemma_byte_found(message, plus(), p2 + 1, p3);
    assert(message.subrange(p2 + 1, p3) =~= id);
    encode_utf8_decode_utf8(dialog_id);
}

/// The dialog identification of an answer is found in its header, where it holds
/// no `+` and the inner segments are UTF-8.
pub proof fn law_dialog_id_found(dialog_id: Seq<char>, message_number: int, inner: Seq<u8>)
    requires
        !dialog_id.contains('+'),
        valid_utf8(inner),
    ensures
        dialog_id_in(envelope(dialog_id, message_number, inner)) == Some(dialog_id),
{
    lemma_envelope_valid(dialog_id, message_number, inner);
    lemma_header_id(
        envelope_size(dialog_id, message_number, inner),
        dialog_id,
        message_number,
        envelope_body(message_number, inner),
    );
}

proof fn lemma_envelope_valid(dialog_id: Seq<char>, message_number: int, inner: Seq<u8>)
    requires
        valid_utf8(inner),
    ensures
        valid_utf8(envelope(dialog_id, message_number, inner)),
{
    let size = envelope_size(dialog_id, message_number, inner);
    lemma_seven_valid(
        "HNHBK:1:3+"@,
        padded(size as nat, 12),
        "+300+"@,
        dialog_id,
        "+"@,
        decimal(message_number as nat),
        "'"@,
    );
    encode_utf8_valid_utf8(
        "HNVSK:998:3+PIN:1+998+1+2::0+1+2:2:13:@8@\x00\x00\x00\x00\x00\x00\x00\x00:5:1+280:12345678:0:S:0:0+0'"@,
    );
    lemma_container_valid(inner);
    lemma_trailer_valid(message_number);
    valid_utf8_concat(encryption_header(), envelope_container(inner));
    valid_utf8_concat(
        encryption_header() + envelope_container(inner),
        envelope_trailer(message_number),
    );
    valid_utf8_concat(
        envelope_header(size, dialog_id, message_number),
        envelope_body(message_number, inner),
    );
}

proof fn lemma_text_behind(before: Seq<u8>, s: Seq<char>)
    requires
        valid_utf8(before),
    ensures
        valid_utf8(before + encode_utf8(s)),
{
    encode_utf8_valid_utf8(s);
    valid_utf8_concat(before, encode_utf8(s));
}

proof fn lemma_seven_valid(
    a: Seq<char>,
    b: Seq<char>,
    c: Seq<char>,
    d: Seq<char>,
    e: Seq<char>,
    f: Seq<char>,
    g: Seq<char>,
)
    ensures
        valid_utf8(
            encode_utf8(a) + encode_utf8(b) + encode_utf8(c) + encode_utf8(d) + encode_utf8(e)
                + encode_utf8(f) + encode_utf8(g),
        ),
{
    encode_utf8_valid_utf8(a);
    let ab = encode_utf8(a) + encode_utf8(b);
    lemma_text_behind(encode_utf8(a), b);
    lemma_text_behind(ab, c);
    lemma_text_behind(ab + encode_utf8(c), d);
    lemma_text_behind(ab + encode_utf8(c) + encode_utf8(d), e);
    lemma_text_behind(ab + encode_utf8(c) + encode_utf8(d) + encode_utf8(e), f);
    lemma_text_behind(ab + encode_utf8(c) + encode_utf8(d) + encode_utf8(e) + encode_utf8(f), g);
}

proof fn lemma_container_valid(inner: Seq<u8>)
    requires
        valid_utf8(inner),
    ensures
        valid_utf8(envelope_container(inner)),
{
    let marker = encode_utf8("HNVSD:999:1+"@);
    let at = encode_utf8("@"@);
    let digits = encode_utf8(decimal(inner.len()));
    encode_utf8_valid_utf8("HNVSD:999:1+"@);
    lemma_text_behind(marker, "@"@);
    lemma_text_behind(marker + at, decimal(inner.len()));
    lemma_text_behind(marker + at + digits, "@"@);
    valid_utf8_concat(marker + at + digits + at, inner);
    lemma_text_behind(marker + at + digits + at + inner, "'"@);
}

proof fn lemma_trailer_valid(message_number: int)
    ensures
        valid_utf8(envelope_trailer(message_number)),
{
    let marker = encode_utf8("HNHBS:5:1+"@);
    encode_utf8_valid_utf8("HNHBS:5:1+"@);
    lemma_text_behind(marker, decimal(message_number as nat));
    lemma_text_behind(marker + encode_utf8(decimal(message_number as nat)), "'"@);
}

// ---- Sizes ----

/// The size that the header of an answer states is the length of the answer,
/// as long as it fits in the twelve digits of its field.
pub proof fn law_envelope_size(dialog_id: Seq<char>, message_number: int, inner: Seq<u8>)
    requires
        decimal(envelope_size(dialog_id, message_number, inner) as nat).len() <= 12,
    ensures
        envelope(dialog_id, message_number, inner).len() == envelope_size(
            dialog_id,
            message_number,
            inner,
        ),
{
    let size = envelope_size(dialog_id, message_number, inner);
    lemma_padded_digits(size as nat, 12);
    lemma_padded_digits(0, 12);
    lemma_digits_ascii(padded(size as nat, 12));
    lemma_digits_ascii(padded(0, 12));
}

} // verus!
