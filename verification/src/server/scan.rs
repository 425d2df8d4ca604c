//! Finding things in raw messages.
//!
//! The mock bank does not parse requests. It looks for the few things that it
//! answers to.

use vstd::prelude::*;
use vstd::string::*;
use vstd::utf8::*;

use crate::numbers::{parse_u32, parse_usize, parsed_int};
use crate::text::{
    chars_of, copy_bytes, opt_view, string_of, trim_chars, trimmed, utf8_slice_string, utf8_text,
};

verus! {

// ---- Model ----

/// Where `needle` first stands at or behind `i`.
pub open spec fn find_from(hay: Seq<u8>, needle: Seq<u8>, i: int) -> Option<int>
    decreases hay.len() - i,
{
    if i < 0 || i + needle.len() > hay.len() {
        None
    } else if hay.subrange(i, i + needle.len()) == needle {
        Some(i)
    } else if i == hay.len() {
        None
    } else {
        find_from(hay, needle, i + 1)
    }
}

/// Where one of the wanted bytes first stands at or behind `i`.
pub open spec fn byte_from(hay: Seq<u8>, wanted: Set<u8>, i: int) -> Option<int>
    decreases hay.len() - i,
{
    if i < 0 || i >= hay.len() {
        None
    } else if wanted.contains(hay[i]) {
        Some(i)
    } else {
        byte_from(hay, wanted, i + 1)
    }
}

pub open spec fn plus() -> Set<u8> {
    set![0x2bu8]
}

pub open spec fn colon() -> Set<u8> {
    set![0x3au8]
}

pub open spec fn at_sign() -> Set<u8> {
    set![0x40u8]
}

pub open spec fn quote() -> Set<u8> {
    set![0x27u8]
}

// ---- Finding ----

/// Where `needle` first stands at or behind `start`.
pub fn find(hay: &[u8], needle: &[u8], start: usize) -> (res: Option<usize>)
    requires
        needle@.len() > 0,
    ensures
        match res {
            Some(i) => find_from(hay@, needle@, start as int) == Some(i as int) && start <= i && i
                + needle@.len() <= hay@.len() <= usize::MAX,
            None => find_from(hay@, needle@, start as int) is None,
        },
{
    let total: usize = hay.len();
    let mut i: usize = start;
    while i < total && needle.len() <= total - i
        invariant
            total == hay@.len(),
            start <= i,
            needle@.len() > 0,
            find_from(hay@, needle@, i as int) == find_from(hay@, needle@, start as int),
        decreases hay@.len() - i,
    {
        let mut j: usize = 0;
        while j < needle.len() && hay[i + j] == needle[j]
            invariant
                total == hay@.len(),
                i + needle@.len() <= hay@.len(),
                j <= needle@.len(),
                forall|k: int| 0 <= k < j ==> hay@[i + k] == needle@[k],
            decreases needle@.len() - j,
        {
            j += 1;
        }
        if j == needle.len() {
            assert(hay@.subrange(i as int, i + needle@.len()) =~= needle@);
            return Some(i);
        }
        proof {
            let w = hay@.subrange(i as int, i + needle@.len());
            assert(w[j as int] == hay@[i + j]);
            assert(w != needle@);
        }
        i += 1;
    }
    None
}

/// Where one of up to three bytes first stands at or behind `start`.
fn find_byte(hay: &[u8], a: u8, b: u8, c: u8, start: usize) -> (res: Option<usize>)
    ensures
        match res {
            Some(i) => byte_from(hay@, set![a, b, c], start as int) == Some(i as int) && start <= i
                < hay@.len() <= usize::MAX,
            None => byte_from(hay@, set![a, b, c], start as int) is None,
        },
{
    let mut i: usize = start;
    while i < hay.len()
        invariant
            start <= i,
            byte_from(hay@, set![a, b, c], i as int) == byte_from(
                hay@,
                set![a, b, c],
                start as int,
            ),
        decreases hay@.len() - i,
    {
        if hay[i] == a || hay[i] == b || hay[i] == c {
            return Some(i);
        }
        i += 1;
    }
    None
}

fn find_one(hay: &[u8], b: u8, start: usize) -> (res: Option<usize>)
    ensures
        match res {
            Some(i) => byte_from(hay@, set![b], start as int) == Some(i as int) && start <= i
                < hay@.len() <= usize::MAX,
            None => byte_from(hay@, set![b], start as int) is None,
        },
{
    assert(set![b, b, b] =~= set![b]);
    find_byte(hay, b, b, b, start)
}

/// A part of some bytes.
fn part(hay: &[u8], from: usize, to: usize) -> (r: &[u8])
    requires
        from <= to <= hay@.len(),
    ensures
        r@ == hay@.subrange(from as int, to as int),
{
    vstd::slice::slice_subrange(hay, from, to)
}

fn text_part(hay: &[u8], from: usize, to: usize) -> (res: Option<String>)
    requires
        from <= to <= hay@.len(),
    ensures
        opt_view(res) == utf8_text(hay@.subrange(from as int, to as int)),
{
    utf8_slice_string(part(hay, from, to))
}

// ---- Dialog identification ----

/// The dialog identification in the header `HNHBK:1:3+size+300+id+number'` of a
/// message; none where the message is no UTF-8 or has no such header.
pub open spec fn dialog_id_in(message: Seq<u8>) -> Option<Seq<char>> {
    if !valid_utf8(message) {
        None
    } else {
        let marker = encode_utf8("HNHBK:1:3+"@);
        match find_from(message, marker, 0) {
            Some(start) => match byte_from(message, plus(), start + marker.len()) {
                Some(p1) => match byte_from(message, plus(), p1 + 1) {
                    Some(p2) => match byte_from(message, plus(), p2 + 1) {
                        Some(p3) => Some(decode_utf8(message.subrange(p2 + 1, p3))),
                        None => None,
                    },
                    None => None,
                },
                None => None,
            },
            None => None,
        }
    }
}

/// A part of a text between two ASCII characters is a text.
proof fn lemma_ascii_cut(bytes: Seq<u8>, i: int, j: int)
    requires
        valid_utf8(bytes),
        0 <= i < j < bytes.len(),
        bytes[i] < 0x80,
        bytes[j] < 0x80,
    ensures
        valid_utf8(bytes.subrange(i + 1, j)),
{
    is_char_boundary_iff_is_leading_byte(bytes, j);
    valid_utf8_split(bytes, j);
    let front = bytes.subrange(0, j);
    assert(front[i] == bytes[i]);
    is_char_boundary_iff_is_leading_byte(front, i);
    valid_utf8_split(front, i);
    let tail = front.subrange(i, j);
    assert(tail[0] == bytes[i]);
    assert(valid_utf8(pop_first_scalar(tail)));
    assert(pop_first_scalar(tail) =~= bytes.subrange(i + 1, j));
}

proof fn lemma_byte_from(hay: Seq<u8>, wanted: Set<u8>, i: int)
    ensures
        byte_from(hay, wanted, i) matches Some(j) ==> i <= j < hay.len() && wanted.contains(hay[j]),
    decreases hay.len() - i,
{
    if 0 <= i < hay.len() && !wanted.contains(hay[i]) {
        lemma_byte_from(hay, wanted, i + 1);
    }
}

/// The dialog identification in the header of a message.
pub fn extract_dialog_id(message: &[u8]) -> (res: Option<String>)
    ensures
        opt_view(res) == dialog_id_in(message@),
{
    if utf8_slice_string(message).is_none() {
        return None;
    }
    let marker = "HNHBK:1:3+".as_bytes();
    proof {
        reveal_strlit("HNHBK:1:3+");
        is_ascii_chars_encode_utf8("HNHBK:1:3+"@);
    }
    let start: usize = match find(message, marker, 0) {
        Some(i) => i,
        None => {
            return None;
        },
    };
    let p1: usize = match find_one(message, 0x2b, start + marker.len()) {
        Some(i) => i,
        None => {
            return None;
        },
    };
    let p2: usize = match find_one(message, 0x2b, p1 + 1) {
        Some(i) => i,
        None => {
            return None;
        },
    };
    let p3: usize = match find_one(message, 0x2b, p2 + 1) {
        Some(i) => i,
        None => {
            return None;
        },
    };
    proof {
        lemma_byte_from(message@, plus(), p1 + 1);
        lemma_byte_from(message@, plus(), p2 + 1);
        lemma_ascii_cut(message@, p2 as int, p3 as int);
    }
    text_part(message, p2 + 1, p3)
}

// ---- Container ----

/// Where the bytes in the container `HNVSD:999:1+@length@bytes` of a message
/// start and end; none where the container is missing, its length is no number
/// or more than is there.
pub open spec fn container_span(message: Seq<u8>) -> Option<(int, int)> {
    let marker = encode_utf8("HNVSD:999:1+"@);
    match find_from(message, marker, 0) {
        Some(pos) => {
            let start = pos + marker.len();
            if start >= message.len() || message[start] != 0x40 {
                None
            } else {
                match byte_from(message, at_sign(), start + 1) {
                    Some(end) => match utf8_text(message.subrange(start + 1, end)) {
                        Some(digits) => match parsed_int(digits, 0, usize::MAX as int) {
                            Some(n) => if end + 1 + n <= message.len() {
                                Some((end + 1, end + 1 + n))
                            } else {
                                None
                            },
                            None => None,
                        },
                        None => None,
                    },
                    None => None,
                }
            }
        },
        None => None,
    }
}

/// The bytes that the container of a message holds.
pub open spec fn container_in(message: Seq<u8>) -> Option<Seq<u8>> {
    match container_span(message) {
        Some((i, j)) => Some(message.subrange(i, j)),
        None => None,
    }
}

/// The bytes that the container of a message holds.
pub fn extract_hnvsd(message: &[u8]) -> (res: Option<Vec<u8>>)
    ensures
        match res {
            Some(b) => container_in(message@) == Some(b@),
            None => container_in(message@) is None,
        },
{
    let marker = "HNVSD:999:1+".as_bytes();
    proof {
        reveal_strlit("HNVSD:999:1+");
        is_ascii_chars_encode_utf8("HNVSD:999:1+"@);
    }
    let start: usize = match find(message, marker, 0) {
        Some(i) => i + marker.len(),
        None => {
            return None;
        },
    };
    if start >= message.len() || message[start] != 0x40 {
        return None;
    }
    let end: usize = match find_one(message, 0x40, start + 1) {
        Some(i) => i,
        None => {
            return None;
        },
    };
    let digits = match text_part(message, start + 1, end) {
        Some(s) => s,
        None => {
            return None;
        },
    };
    let n: usize = match parse_usize(digits.as_str()) {
        Some(n) => n,
        None => {
            return None;
        },
    };
    if n > message.len() - end - 1 {
        return None;
    }
    Some(copy_bytes(part(message, end + 1, end + 1 + n)))
}

// ---- PIN and TAN ----

/// Where the `n`th `+` of a segment stands that starts at `i`; none where the
/// segment ends before.
pub open spec fn nth_plus(bytes: Seq<u8>, i: int, n: nat) -> Option<int>
    decreases bytes.len() - i,
{
    if i < 0 || i >= bytes.len() || bytes[i] == 0x27 {
        None
    } else if bytes[i] == 0x2b {
        if n <= 1 {
            Some(i)
        } else {
            nth_plus(bytes, i + 1, (n - 1) as nat)
        }
    } else {
        nth_plus(bytes, i + 1, n)
    }
}

/// PIN and TAN of a field `PIN[:TAN]`. An empty TAN counts as none.
pub open spec fn split_pin_tan(field: Seq<u8>) -> (Option<Seq<char>>, Option<Seq<char>>) {
    match byte_from(field, colon(), 0) {
        Some(c) => (
            utf8_text(field.subrange(0, c)),
            if c + 1 < field.len() {
                utf8_text(field.subrange(c + 1, field.len() as int))
            } else {
                None
            },
        ),
        None => (utf8_text(field), None),
    }
}

/// Where the segment of the signature trailer is looked for: in the container,
/// where the message has one.
pub open spec fn signed_bytes(message: Seq<u8>) -> Seq<u8> {
    match container_in(message) {
        Some(inner) => inner,
        None => message,
    }
}

/// PIN and TAN of a message: the field behind the third `+` of the signature
/// trailer `HNSHA:number:version+reference+result+PIN[:TAN]'`.
pub open spec fn pin_tan_in(message: Seq<u8>) -> (Option<Seq<char>>, Option<Seq<char>>) {
    let bytes = signed_bytes(message);
    match find_from(bytes, encode_utf8("HNSHA:"@), 0) {
        Some(pos) => match nth_plus(bytes, pos, 3) {
            Some(p) => {
                let end = match byte_from(bytes, quote(), p + 1) {
                    Some(q) => q,
                    None => bytes.len() as int,
                };
                split_pin_tan(bytes.subrange(p + 1, end))
            },
            None => (None, None),
        },
        None => (None, None),
    }
}

fn find_nth_plus(bytes: &[u8], start: usize, n: u8) -> (res: Option<usize>)
    requires
        n >= 1,
    ensures
        match res {
            Some(i) => nth_plus(bytes@, start as int, n as nat) == Some(i as int) && start <= i
                < bytes@.len() <= usize::MAX,
            None => nth_plus(bytes@, start as int, n as nat) is None,
        },
{
    let mut i: usize = start;
    let mut left: u8 = n;
    while i < bytes.len()
        invariant
            start <= i,
            1 <= left <= n,
            nth_plus(bytes@, i as int, left as nat) == nth_plus(bytes@, start as int, n as nat),
        decreases bytes@.len() - i,
    {
        if bytes[i] == 0x27 {
            return None;
        }
        if bytes[i] == 0x2b {
            if left == 1 {
                return Some(i);
            }
            left -= 1;
        }
        i += 1;
    }
    None
}

fn read_pin_tan(field: &[u8]) -> (res: (Option<String>, Option<String>))
    ensures
        (opt_view(res.0), opt_view(res.1)) == split_pin_tan(field@),
{
    match find_one(field, 0x3a, 0) {
        Some(c) => {
            let tan = if c + 1 < field.len() {
                text_part(field, c + 1, field.len())
            } else {
                None
            };
            (text_part(field, 0, c), tan)
        },
        None => (utf8_slice_string(field), None),
    }
}

/// PIN and TAN of a message.
pub fn extract_pin_tan(message: &[u8]) -> (res: (Option<String>, Option<String>))
    ensures
        (opt_view(res.0), opt_view(res.1)) == pin_tan_in(message@),
{
    let bytes: Vec<u8> = match extract_hnvsd(message) {
        Some(inner) => inner,
        None => copy_bytes(message),
    };
    assert(bytes@ == signed_bytes(message@));
    proof {
        reveal_strlit("HNSHA:");
        is_ascii_chars_encode_utf8("HNSHA:"@);
    }
    let pos: usize = match find(bytes.as_slice(), "HNSHA:".as_bytes(), 0) {
        Some(i) => i,
        None => {
            return (None, None);
        },
    };
    let p: usize = match find_nth_plus(bytes.as_slice(), pos, 3) {
        Some(i) => i,
        None => {
            return (None, None);
        },
    };
    let end: usize = match find_one(bytes.as_slice(), 0x27, p + 1) {
        Some(q) => q,
        None => bytes.len(),
    };
    read_pin_tan(part(bytes.as_slice(), p + 1, end))
}

// ---- Segments ----

/// A segment type with the `:` behind it.
pub open spec fn type_marker(seg_type: Seq<char>) -> Seq<u8> {
    encode_utf8(seg_type).push(0x3a)
}

/// Whether a segment type stands anywhere in a message.
pub open spec fn mentions(message: Seq<u8>, seg_type: Seq<char>) -> bool {
    find_from(message, type_marker(seg_type), 0) is Some
}

fn marker_of(seg_type: &str) -> (m: Vec<u8>)
    ensures
        m@ == type_marker(seg_type@),
{
    let mut m: Vec<u8> = copy_bytes(seg_type.as_bytes());
    m.push(0x3a);
    m
}

/// Whether a segment type stands anywhere in a message.
pub fn has_segment(message: &[u8], seg_type: &str) -> (b: bool)
    ensures
        b == mentions(message@, seg_type@),
{
    let marker = marker_of(seg_type);
    find(message, marker.as_slice(), 0).is_some()
}

/// Number and version of the first segment of a type, `TYPE:number:version`.
pub open spec fn number_version_in(message: Seq<u8>, seg_type: Seq<char>) -> Option<
    (Seq<char>, Seq<char>),
> {
    let marker = type_marker(seg_type);
    match find_from(message, marker, 0) {
        Some(pos) => {
            let start = pos + marker.len();
            match byte_from(message, colon(), start) {
                Some(c) => match byte_from(message, set![0x2bu8, 0x3au8, 0x27u8], c + 1) {
                    Some(end) => match (
                        utf8_text(message.subrange(start, c)),
                        utf8_text(message.subrange(c + 1, end)),
                    ) {
                        (Some(number), Some(version)) => Some((number, version)),
                        _ => None,
                    },
                    None => None,
                },
                None => None,
            }
        },
        None => None,
    }
}

/// Number and version of the first segment of a type.
pub fn extract_seg_num_ver(message: &[u8], seg_type: &str) -> (res: Option<(String, String)>)
    ensures
        match res {
            Some(r) => number_version_in(message@, seg_type@) == Some((r.0@, r.1@)),
            None => number_version_in(message@, seg_type@) is None,
        },
{
    let marker = marker_of(seg_type);
    let start: usize = match find(message, marker.as_slice(), 0) {
        Some(i) => i + marker.len(),
        None => {
            return None;
        },
    };
    let c: usize = match find_one(message, 0x3a, start) {
        Some(i) => i,
        None => {
            return None;
        },
    };
    let end: usize = match find_byte(message, 0x2b, 0x3a, 0x27, c + 1) {
        Some(i) => i,
        None => {
            return None;
        },
    };
    match (text_part(message, start, c), text_part(message, c + 1, end)) {
        (Some(number), Some(version)) => Some((number, version)),
        _ => None,
    }
}

/// The versions of bank and user parameters that the first HKVVB segment states,
/// `HKVVB:number:version+bank+user`.
pub open spec fn known_versions_in(message: Seq<u8>) -> Option<(Seq<char>, Seq<char>)> {
    let marker = encode_utf8("HKVVB:"@);
    match find_from(message, marker, 0) {
        Some(pos) => match byte_from(message, plus(), pos + marker.len()) {
            Some(p1) => match byte_from(message, plus(), p1 + 1) {
                Some(p2) => match byte_from(message, set![0x2bu8, 0x27u8], p2 + 1) {
                    Some(p3) => match (
                        utf8_text(message.subrange(p1 + 1, p2)),
                        utf8_text(message.subrange(p2 + 1, p3)),
                    ) {
                        (Some(bpd), Some(upd)) => Some((bpd, upd)),
                        _ => None,
                    },
                    None => None,
                },
                None => None,
            },
            None => None,
        },
        None => None,
    }
}

/// The versions of bank and user parameters that a HKVVB segment states.
pub fn extract_hkvvb_versions(message: &[u8]) -> (res: Option<(String, String)>)
    ensures
        match res {
            Some(r) => known_versions_in(message@) == Some((r.0@, r.1@)),
            None => known_versions_in(message@) is None,
        },
{
    let marker = "HKVVB:".as_bytes();
    proof {
        reveal_strlit("HKVVB:");
        is_ascii_chars_encode_utf8("HKVVB:"@);
    }
    let start: usize = match find(message, marker, 0) {
        Some(i) => i + marker.len(),
        None => {
            return None;
        },
    };
    let p1: usize = match find_one(message, 0x2b, start) {
        Some(i) => i,
        None => {
            return None;
        },
    };
    let p2: usize = match find_one(message, 0x2b, p1 + 1) {
        Some(i) => i,
        None => {
            return None;
        },
    };
    assert(set![0x2bu8, 0x27u8, 0x27u8] =~= set![0x2bu8, 0x27u8]);
    let p3: usize = match find_byte(message, 0x2b, 0x27, 0x27, p2 + 1) {
        Some(i) => i,
        None => {
            return None;
        },
    };
    match (text_part(message, p1 + 1, p2), text_part(message, p2 + 1, p3)) {
        (Some(bpd), Some(upd)) => Some((bpd, upd)),
        _ => None,
    }
}

// ---- Touchdown point ----

/// The index of the first `+` at or behind `i`.
pub open spec fn plus_from(s: Seq<char>, i: int) -> Option<int>
    decreases s.len() - i,
{
    if i < 0 || i >= s.len() {
        None
    } else if s[i] == '+' {
        Some(i)
    } else {
        plus_from(s, i + 1)
    }
}

/// The `n`th of the fields between `+`, which are counted from 0 at `i`.
pub open spec fn field_at(s: Seq<char>, i: int, n: nat) -> Option<Seq<char>>
    decreases n,
{
    match plus_from(s, i) {
        Some(p) => if n == 0 {
            Some(s.subrange(i, p))
        } else {
            field_at(s, p + 1, (n - 1) as nat)
        },
        None => if n == 0 {
            Some(s.subrange(i, s.len() as int))
        } else {
            None
        },
    }
}

/// The number in field 6 of the first HKKAZ segment, behind header, account, `N`,
/// two dates and the number of entries.
pub open spec fn touchdown_in(message: Seq<u8>) -> Option<int> {
    match find_from(message, encode_utf8("HKKAZ:"@), 0) {
        Some(pos) => match byte_from(message, quote(), pos) {
            Some(end) => match utf8_text(message.subrange(pos, end)) {
                Some(seg) => match field_at(seg, 0, 6) {
                    Some(field) => if trimmed(field).len() > 0 {
                        parsed_int(trimmed(field), 0, u32::MAX as int)
                    } else {
                        None
                    },
                    None => None,
                },
                None => None,
            },
            None => None,
        },
        None => None,
    }
}

fn find_field(cs: &Vec<char>, n: usize) -> (res: Option<Vec<char>>)
    ensures
        match res {
            Some(f) => field_at(cs@, 0, n as nat) == Some(f@),
            None => field_at(cs@, 0, n as nat) is None,
        },
{
    let mut start: usize = 0;
    let mut left: usize = n;
    loop
        invariant
            start <= cs@.len(),
            field_at(cs@, start as int, left as nat) == field_at(cs@, 0, n as nat),
        decreases left,
    {
        let mut i: usize = start;
        while i < cs.len() && cs[i] != '+'
            invariant
                start <= i <= cs@.len(),
                plus_from(cs@, i as int) == plus_from(cs@, start as int),
            decreases cs@.len() - i,
        {
            i += 1;
        }
        if left == 0 {
            let mut f: Vec<char> = Vec::new();
            let mut k: usize = start;
            while k < i
                invariant
                    start <= k <= i <= cs@.len(),
                    f@ =~= cs@.subrange(start as int, k as int),
                decreases i - k,
            {
                f.push(cs[k]);
                k += 1;
            }
            return Some(f);
        }
        if i == cs.len() {
            return None;
        }
        start = i + 1;
        left -= 1;
    }
}

/// The touchdown point that a HKKAZ segment states, as a number.
pub fn extract_hkkaz_touchdown(message: &[u8]) -> (res: Option<u32>)
    ensures
        match res {
            Some(v) => touchdown_in(message@) == Some(v as int),
            None => touchdown_in(message@) is None,
        },
{
    proof {
        reveal_strlit("HKKAZ:");
        is_ascii_chars_encode_utf8("HKKAZ:"@);
    }
    let pos: usize = match find(message, "HKKAZ:".as_bytes(), 0) {
        Some(i) => i,
        None => {
            return None;
        },
    };
    let end: usize = match find_one(message, 0x27, pos) {
        Some(i) => i,
        None => {
            return None;
        },
    };
    let seg = match text_part(message, pos, end) {
        Some(s) => s,
        None => {
            return None;
        },
    };
    let cs: Vec<char> = chars_of(seg.as_str());
    match find_field(&cs, 6) {
        Some(field) => {
            let value = trim_chars(&field);
            if value.len() == 0 {
                return None;
            }
            parse_u32(string_of(&value).as_str())
        },
        None => None,
    }
}

} // verus!
