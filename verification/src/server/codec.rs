//! How messages travel: Base64 in the body of an HTTP request, and hexadecimal
//! in logs.

use base64::Engine;
use vstd::prelude::*;
use vstd::utf8::*;

use crate::element::opt_bytes_view;
use crate::text::push_char;

verus! {

// ---- Base64 ----

/// What the base64 crate decodes with its standard alphabet and padding.
pub uninterp spec fn base64_decoded(text: Seq<u8>) -> Option<Seq<u8>>;

/// What the base64 crate encodes with its standard alphabet and padding.
pub uninterp spec fn base64_encoded(bytes: Seq<u8>) -> Seq<char>;

/// Decodes Base64.
///
/// Trusted: `decode` of `base64::engine::general_purpose::STANDARD` depends on
/// the text alone; texts that are no Base64 give nothing.
#[verifier::external_body]
fn decode_base64(text: &[u8]) -> (res: Option<Vec<u8>>)
    ensures
        opt_bytes_view(res) == base64_decoded(text@),
{
    base64::engine::general_purpose::STANDARD.decode(text).ok()
}

/// Encodes as Base64.
///
/// Trusted: `encode` of `base64::engine::general_purpose::STANDARD` depends on
/// the bytes alone, and `decode` of the same engine gives them back.
#[verifier::external_body]
fn encode_base64(bytes: &[u8]) -> (res: String)
    ensures
        res@ == base64_encoded(bytes@),
        base64_decoded(encode_utf8(res@)) == Some(bytes@),
{
    base64::engine::general_purpose::STANDARD.encode(bytes)
}

/// The message in the body of a request; none where it is no Base64.
pub fn decode_body(body: &[u8]) -> (res: Option<Vec<u8>>)
    ensures
        opt_bytes_view(res) == base64_decoded(body@),
{
    decode_base64(body)
}

/// The body that carries a message. `decode_body` gives the message back.
pub fn encode_body(message: &[u8]) -> (body: String)
    ensures
        body@ == base64_encoded(message@),
        base64_decoded(encode_utf8(body@)) == Some(message@),
{
    encode_base64(message)
}

// ---- Hexadecimal ----

/// The hexadecimal digit of value `d`, in lower case.
pub open spec fn hex_digit(d: int) -> char {
    if d < 10 {
        ('0' as u32 + d) as char
    } else {
        ('a' as u32 + (d - 10)) as char
    }
}

/// The two digits of a byte.
pub open spec fn hex_byte(b: u8) -> Seq<char> {
    seq![hex_digit(b as int / 16), hex_digit(b as int % 16)]
}

/// The digits of some bytes, one behind the other.
pub open spec fn hex_text(bytes: Seq<u8>) -> Seq<char>
    decreases bytes.len(),
{
    if bytes.len() == 0 {
        Seq::empty()
    } else {
        hex_text(bytes.drop_last()) + hex_byte(bytes.last())
    }
}

/// The digits of some bytes with blanks between the bytes.
pub open spec fn spaced_hex(bytes: Seq<u8>) -> Seq<char>
    decreases bytes.len(),
{
    if bytes.len() == 0 {
        Seq::empty()
    } else if bytes.len() == 1 {
        hex_byte(bytes[0])
    } else {
        spaced_hex(bytes.drop_last()).push(' ') + hex_byte(bytes.last())
    }
}

fn to_hex_digit(d: u8) -> (c: char)
    requires
        d < 16,
    ensures
        c == hex_digit(d as int),
{
    if d < 10 {
        ('0' as u8 + d) as char
    } else {
        ('a' as u8 + (d - 10)) as char
    }
}

fn push_hex(s: &mut String, b: u8)
    ensures
        final(s)@ == old(s)@ + hex_byte(b),
{
    let ghost before = s@;
    push_char(s, to_hex_digit(b / 16));
    push_char(s, to_hex_digit(b % 16));
    assert(s@ =~= before + hex_byte(b));
}

/// The prefix that some bytes make: hexadecimal digits, which have no meaning of
/// their own in messages.
pub fn hex_prefix(bytes: &[u8]) -> (s: String)
    ensures
        s@ == hex_text(bytes@),
{
    let mut s = String::new();
    let mut i: usize = 0;
    assert(s@ =~= hex_text(bytes@.take(0)));
    while i < bytes.len()
        invariant
            i <= bytes@.len(),
            s@ == hex_text(bytes@.take(i as int)),
        decreases bytes@.len() - i,
    {
        proof {
            assert(bytes@.take(i + 1).drop_last() =~= bytes@.take(i as int));
            assert(bytes@.take(i + 1).last() == bytes@[i as int]);
        }
        push_hex(&mut s, bytes[i]);
        i += 1;
    }
    assert(bytes@.take(i as int) =~= bytes@);
    s
}

/// The number of bytes that a dump shows.
pub const DUMP_LIMIT: usize = 128;

/// The first bytes of a message for the log.
pub open spec fn dump_text(data: Seq<u8>) -> Seq<char> {
    if data.len() <= DUMP_LIMIT {
        spaced_hex(data)
    } else {
        spaced_hex(data.take(DUMP_LIMIT as int))
    }
}

/// The first bytes of a message for the log.
pub fn hex_dump(data: &[u8]) -> (s: String)
    ensures
        s@ == dump_text(data@),
{
    let n: usize = if data.len() <= DUMP_LIMIT { data.len() } else { DUMP_LIMIT };
    let mut s = String::new();
    let mut i: usize = 0;
    assert(s@ =~= spaced_hex(data@.take(0)));
    while i < n
        invariant
            i <= n <= data@.len(),
            s@ == spaced_hex(data@.take(i as int)),
        decreases n - i,
    {
        proof {
            assert(data@.take(i + 1).drop_last() =~= data@.take(i as int));
            assert(data@.take(i + 1).last() == data@[i as int]);
        }
        if i > 0 {
            push_char(&mut s, ' ');
        } else {
            assert(s@ + hex_byte(data@[0]) =~= hex_byte(data@[0]));
        }
        push_hex(&mut s, data[i]);
        i += 1;
    }
    assert(n == data@.len() ==> data@.take(n as int) =~= data@);
    s
}

// ---- Laws ----

/// The value of a hexadecimal digit in lower case.
pub open spec fn digit_value(c: char) -> int {
    if '0' <= c <= '9' {
        c as int - '0' as int
    } else if 'a' <= c <= 'f' {
        c as int - 'a' as int + 10
    } else {
        -1
    }
}

/// A byte is written with two digits from 0 to 9 and a to f, the upper half first.
pub proof fn law_hex_byte(b: u8)
    ensures
        hex_byte(b).len() == 2,
        forall|i: int| 0 <= i < 2 ==> digit_value(#[trigger] hex_byte(b)[i]) >= 0,
        16 * digit_value(hex_byte(b)[0]) + digit_value(hex_byte(b)[1]) == b,
{
}

/// Bytes are written one behind the other, in a dump with blanks between them.
pub proof fn law_hex_joined(a: Seq<u8>, b: Seq<u8>, byte: u8)
    ensures
        hex_text(a + b) == hex_text(a) + hex_text(b),
        hex_text(seq![byte]) == hex_byte(byte),
        spaced_hex(seq![byte]) == hex_byte(byte),
        a.len() > 0 && b.len() > 0 ==> spaced_hex(a + b) == spaced_hex(a) + seq![' '] + spaced_hex(
            b,
        ),
    decreases b.len(),
{
    assert(seq![byte].drop_last() =~= Seq::<u8>::empty());
    assert(hex_text(seq![byte].drop_last()) =~= Seq::<char>::empty());
    assert(hex_text(seq![byte]) =~= hex_byte(byte));
    if b.len() == 0 {
        assert(a + b =~= a);
        assert(hex_text(a) + hex_text(b) =~= hex_text(a));
    } else {
        law_hex_joined(a, b.drop_last(), byte);
        assert((a + b).drop_last() =~= a + b.drop_last());
        assert((a + b).last() == b.last());
        assert(hex_text(a + b) =~= hex_text(a) + hex_text(b));
        if a.len() > 0 {
            if b.len() == 1 {
                assert((a + b).drop_last() =~= a);
                assert(b[0] == b.last());
            }
            assert(spaced_hex(a + b) =~= spaced_hex(a) + seq![' '] + spaced_hex(b));
        }
    }
}

/// A dump shows the first 128 bytes.
pub proof fn law_dump(data: Seq<u8>, more: Seq<u8>)
    ensures
        data.len() <= 128 ==> dump_text(data) == spaced_hex(data),
        data.len() == 128 ==> dump_text(data + more) == dump_text(data),
{
    if data.len() == 128 {
        assert((data + more).take(128) =~= data);
        if more.len() == 0 {
            assert(data + more =~= data);
        }
    }
}

} // verus!
