//! Reading segments from bytes.

use vstd::prelude::*;

use crate::element::{group_views, views, DataElement, Element, Group, RawSegment, DEG};
use crate::error::{Failure, FinTSError, Result};
use crate::serializer::is_delimiter;
use crate::text::{copy_bytes, push_char};

verus! {

// ---- Model ----

pub open spec fn is_digit_byte(b: u8) -> bool {
    0x30 <= b <= 0x39
}

/// The text that starts at `i` and the index of the delimiter that ends it. A
/// character behind `?` stands for itself.
pub open spec fn text_from(bytes: Seq<u8>, i: int) -> Option<(Seq<char>, int)>
    decreases bytes.len() - i,
{
    if i < 0 || i >= bytes.len() {
        None
    } else if is_delimiter(bytes[i]) {
        Some((Seq::empty(), i))
    } else {
        let at = if bytes[i] == 0x3f { i + 1 } else { i };
        if at >= bytes.len() {
            None
        } else {
            match text_from(bytes, at + 1) {
                Some((rest, end)) => Some((seq![bytes[at] as char] + rest, end)),
                None => None,
            }
        }
    }
}

/// The index of the first byte at or behind `i` that is no digit.
pub open spec fn digits_end(bytes: Seq<u8>, i: int) -> int
    decreases bytes.len() - i,
{
    if 0 <= i < bytes.len() && is_digit_byte(bytes[i]) {
        digits_end(bytes, i + 1)
    } else {
        i
    }
}

/// The number that digits denote.
pub open spec fn bytes_value(s: Seq<u8>) -> nat
    decreases s.len(),
{
    if s.len() == 0 {
        0
    } else {
        bytes_value(s.drop_last()) * 10 + (s.last() - 0x30) as nat
    }
}

/// The bytes announced at `i` by `@length@`, and the index behind them.
pub open spec fn binary_from(bytes: Seq<u8>, i: int) -> Option<(Seq<u8>, int)> {
    let end = digits_end(bytes, i + 1);
    let len = bytes_value(bytes.subrange(i + 1, end));
    if end > i + 1 && end < bytes.len() && bytes[end] == 0x40 && end + 1 + len <= bytes.len() {
        Some((bytes.subrange(end + 1, end + 1 + len), end + 1 + len))
    } else {
        None
    }
}

/// The element that starts at `i` and the index of the delimiter that ends it.
pub open spec fn element_from(bytes: Seq<u8>, i: int) -> Option<(Element, int)> {
    if 0 <= i < bytes.len() && bytes[i] == 0x40 {
        match binary_from(bytes, i) {
            Some((payload, end)) => if end < bytes.len() && is_delimiter(bytes[end]) {
                Some((Element::Binary(payload), end))
            } else {
                None
            },
            None => None,
        }
    } else {
        match text_from(bytes, i) {
            Some((s, end)) => Some(
                (
                    if s.len() == 0 {
                        Element::Empty
                    } else {
                        Element::Text(s)
                    },
                    end,
                ),
            ),
            None => None,
        }
    }
}

/// The DEG that starts at `i` and the index of the `+` or `'` that ends it.
pub open spec fn group_from(bytes: Seq<u8>, i: int) -> Option<(Group, int)>
    decreases bytes.len() - i,
{
    proof {
        lemma_element_from(bytes, i);
    }
    match element_from(bytes, i) {
        Some((e, end)) => if bytes[end] == 0x3a {
            match group_from(bytes, end + 1) {
                Some((rest, last)) => Some((seq![e] + rest, last)),
                None => None,
            }
        } else {
            Some((seq![e], end))
        },
        None => None,
    }
}

/// The segment that starts at `i` and the index behind its `'`.
pub open spec fn segment_from(bytes: Seq<u8>, i: int) -> Option<(Seq<Group>, int)>
    decreases bytes.len() - i,
{
    proof {
        lemma_group_from(bytes, i);
    }
    match group_from(bytes, i) {
        Some((g, end)) => if bytes[end] == 0x2b {
            match segment_from(bytes, end + 1) {
                Some((rest, last)) => Some((seq![g] + rest, last)),
                None => None,
            }
        } else {
            Some((seq![g], end + 1))
        },
        None => None,
    }
}

/// The segments from `i` to the end.
pub open spec fn segments_from(bytes: Seq<u8>, i: int) -> Option<Seq<Seq<Group>>>
    decreases bytes.len() - i,
{
    proof {
        lemma_segment_from(bytes, i);
    }
    if i == bytes.len() {
        Some(Seq::empty())
    } else {
        match segment_from(bytes, i) {
            Some((seg, end)) => match segments_from(bytes, end) {
                Some(rest) => Some(seq![seg] + rest),
                None => None,
            },
            None => None,
        }
    }
}

/// The segments that a message holds; `None` where it is malformed.
pub open spec fn parsed_message(bytes: Seq<u8>) -> Option<Seq<Seq<Group>>> {
    segments_from(bytes, 0)
}

/// The error on a malformed message.
pub open spec fn malformed() -> Failure {
    Failure::Parse("malformed message"@)
}

// ---- Where the parts end ----

pub proof fn lemma_text_from(bytes: Seq<u8>, i: int)
    ensures
        text_from(bytes, i) matches Some((s, end)) ==> 0 <= i <= end < bytes.len() && is_delimiter(
            bytes[end],
        ),
    decreases bytes.len() - i,
{
    if 0 <= i < bytes.len() && !is_delimiter(bytes[i]) {
        let at = if bytes[i] == 0x3f { i + 1 } else { i };
        if at < bytes.len() {
            lemma_text_from(bytes, at + 1);
        }
    }
}

pub proof fn lemma_digits_end(bytes: Seq<u8>, i: int)
    requires
        0 <= i <= bytes.len(),
    ensures
        i <= digits_end(bytes, i) <= bytes.len(),
        digits_end(bytes, i) < bytes.len() ==> !is_digit_byte(bytes[digits_end(bytes, i)]),
        forall|j: int| i <= j < digits_end(bytes, i) ==> is_digit_byte(#[trigger] bytes[j]),
    decreases bytes.len() - i,
{
    if i < bytes.len() && is_digit_byte(bytes[i]) {
        lemma_digits_end(bytes, i + 1);
    }
}

pub proof fn lemma_element_from(bytes: Seq<u8>, i: int)
    ensures
        element_from(bytes, i) matches Some((e, end)) ==> 0 <= i <= end < bytes.len()
            && is_delimiter(bytes[end]),
{
    lemma_text_from(bytes, i);
    if 0 <= i < bytes.len() {
        lemma_digits_end(bytes, i + 1);
    }
}

pub proof fn lemma_group_from(bytes: Seq<u8>, i: int)
    ensures
        group_from(bytes, i) matches Some((g, end)) ==> 0 <= i <= end < bytes.len() && (bytes[end]
            == 0x2b || bytes[end] == 0x27),
    decreases bytes.len() - i,
{
    lemma_element_from(bytes, i);
    match element_from(bytes, i) {
        Some((e, end)) => {
            if bytes[end] == 0x3a {
                lemma_group_from(bytes, end + 1);
            }
        },
        None => {},
    }
}

pub proof fn lemma_segment_from(bytes: Seq<u8>, i: int)
    ensures
        segment_from(bytes, i) matches Some((seg, end)) ==> 0 <= i < end <= bytes.len(),
    decreases bytes.len() - i,
{
    lemma_group_from(bytes, i);
    match group_from(bytes, i) {
        Some((g, end)) => {
            if bytes[end] == 0x2b {
                lemma_segment_from(bytes, end + 1);
            }
        },
        None => {},
    }
}

// ---- Reading ----

/// Reads the text at `start`.
fn read_text(bytes: &[u8], start: usize) -> (res: Option<(String, usize)>)
    requires
        start <= bytes@.len(),
    ensures
        match res {
            Some(r) => text_from(bytes@, start as int) == Some((r.0@, r.1 as int)),
            None => text_from(bytes@, start as int) is None,
        },
{
    let mut s = String::new();
    let mut i: usize = start;
    assert(match text_from(bytes@, i as int) {
        Some((rest, end)) => s@ + rest =~= rest,
        None => true,
    });
    while i < bytes.len()
        invariant
            start <= i <= bytes@.len(),
            text_from(bytes@, start as int) == (match text_from(bytes@, i as int) {
                Some((rest, end)) => Some((s@ + rest, end)),
                None => None,
            }),
        decreases bytes@.len() - i,
    {
        let b: u8 = bytes[i];
        if b == 0x2b || b == 0x3a || b == 0x27 {
            assert(s@ + Seq::<char>::empty() =~= s@);
            return Some((s, i));
        }
        let at: usize = if b == 0x3f { i + 1 } else { i };
        if at >= bytes.len() {
            return None;
        }
        let c: char = bytes[at] as char;
        let ghost before = s@;
        push_char(&mut s, c);
        proof {
            match text_from(bytes@, at + 1) {
                Some((rest, end)) => {
                    assert(before + (seq![c] + rest) =~= s@ + rest);
                },
                None => {},
            }
        }
        i = at + 1;
    }
    None
}

proof fn lemma_bytes_value_push(s: Seq<u8>, b: u8)
    requires
        is_digit_byte(b),
    ensures
        bytes_value(s.push(b)) == bytes_value(s) * 10 + (b - 0x30),
{
    assert(s.push(b).drop_last() =~= s);
}

/// Reads the digits at `start`: their end, and what they denote unless that is
/// larger than the number of bytes.
fn read_digits(bytes: &[u8], start: usize) -> (res: (usize, Option<usize>))
    requires
        start <= bytes@.len(),
    ensures
        res.0 == digits_end(bytes@, start as int),
        start <= res.0 <= bytes@.len(),
        match res.1 {
            Some(v) => v == bytes_value(bytes@.subrange(start as int, res.0 as int)),
            None => bytes_value(bytes@.subrange(start as int, res.0 as int)) > bytes@.len(),
        },
{
    let limit: usize = bytes.len();
    let mut i: usize = start;
    let mut v: usize = 0;
    let mut large: bool = false;
    assert(bytes@.subrange(start as int, start as int) =~= Seq::<u8>::empty());
    while i < bytes.len() && 0x30 <= bytes[i] && bytes[i] <= 0x39
        invariant
            limit == bytes@.len(),
            start <= i <= bytes@.len(),
            digits_end(bytes@, i as int) == digits_end(bytes@, start as int),
            v <= limit,
            !large ==> v == bytes_value(bytes@.subrange(start as int, i as int)),
            large ==> bytes_value(bytes@.subrange(start as int, i as int)) > limit,
        decreases bytes@.len() - i,
    {
        proof {
            lemma_bytes_value_push(bytes@.subrange(start as int, i as int), bytes[i as int]);
            assert(bytes@.subrange(start as int, i + 1) =~= bytes@.subrange(
                start as int,
                i as int,
            ).push(bytes[i as int]));
        }
        if !large {
            let next: u128 = v as u128 * 10 + (bytes[i] - 0x30) as u128;
            if next > limit as u128 {
                large = true;
            } else {
                v = next as usize;
            }
        }
        i += 1;
    }
    if large {
        (i, None)
    } else {
        (i, Some(v))
    }
}

/// Reads the bytes announced at `start`, where an `@` stands.
fn read_announced(bytes: &[u8], start: usize) -> (res: Option<(Vec<u8>, usize)>)
    requires
        start < bytes@.len(),
    ensures
        match res {
            Some(r) => binary_from(bytes@, start as int) == Some((r.0@, r.1 as int)),
            None => binary_from(bytes@, start as int) is None,
        },
{
    let total: usize = bytes.len();
    assert(start < total);
    let (end, value) = read_digits(bytes, start + 1);
    let len: usize = match value {
        Some(v) => v,
        None => {
            return None;
        },
    };
    if end == start + 1 || end >= bytes.len() || bytes[end] != 0x40 {
        return None;
    }
    if len > bytes.len() - end - 1 {
        return None;
    }
    let payload = vstd::slice::slice_subrange(bytes, end + 1, end + 1 + len);
    Some((copy_bytes(payload), end + 1 + len))
}

/// Reads the element at `start`.
fn read_element(bytes: &[u8], start: usize) -> (res: Option<(DataElement, usize)>)
    requires
        start <= bytes@.len(),
    ensures
        match res {
            Some(r) => element_from(bytes@, start as int) == Some((r.0@, r.1 as int)),
            None => element_from(bytes@, start as int) is None,
        },
{
    if start < bytes.len() && bytes[start] == 0x40 {
        match read_announced(bytes, start) {
            Some((payload, end)) => {
                if end < bytes.len() && (bytes[end] == 0x2b || bytes[end] == 0x3a || bytes[end]
                    == 0x27) {
                    Some((DataElement::Binary(payload), end))
                } else {
                    None
                }
            },
            None => None,
        }
    } else {
        match read_text(bytes, start) {
            Some((s, end)) => {
                if s.as_str().is_empty() {
                    Some((DataElement::Empty, end))
                } else {
                    Some((DataElement::Text(s), end))
                }
            },
            None => None,
        }
    }
}

/// Reads the DEG at `start`.
fn read_group(bytes: &[u8], start: usize) -> (res: Option<(DEG, usize)>)
    requires
        start <= bytes@.len(),
    ensures
        match res {
            Some(r) => group_from(bytes@, start as int) == Some((r.0@, r.1 as int)),
            None => group_from(bytes@, start as int) is None,
        },
{
    broadcast use group_views;

    let mut elements: Vec<DataElement> = Vec::new();
    let mut i: usize = start;
    assert(match group_from(bytes@, start as int) {
        Some((rest, end)) => views(elements@) + rest =~= rest,
        None => true,
    });
    loop
        invariant
            start <= i <= bytes@.len(),
            group_from(bytes@, start as int) == (match group_from(bytes@, i as int) {
                Some((rest, end)) => Some((views(elements@) + rest, end)),
                None => None,
            }),
        decreases bytes@.len() - i,
    {
        broadcast use group_views;

        proof {
            lemma_element_from(bytes@, i as int);
        }
        let (e, end) = match read_element(bytes, i) {
            Some(r) => r,
            None => {
                return None;
            },
        };
        let ghost before = views(elements@);
        let ghost ev = e@;
        elements.push(e);
        if bytes[end] != 0x3a {
            assert(before + seq![ev] =~= views(elements@));
            return Some((DEG(elements), end));
        }
        proof {
            match group_from(bytes@, end + 1) {
                Some((rest, last)) => {
                    assert(before + (seq![ev] + rest) =~= views(elements@) + rest);
                },
                None => {},
            }
        }
        i = end + 1;
    }
}

/// Reads the segment at `start`.
fn read_segment(bytes: &[u8], start: usize) -> (res: Option<(RawSegment, usize)>)
    requires
        start <= bytes@.len(),
    ensures
        match res {
            Some(r) => segment_from(bytes@, start as int) == Some((r.0@, r.1 as int)),
            None => segment_from(bytes@, start as int) is None,
        },
{
    broadcast use group_views;

    let mut degs: Vec<DEG> = Vec::new();
    let mut i: usize = start;
    assert(match segment_from(bytes@, start as int) {
        Some((rest, end)) => views(degs@) + rest =~= rest,
        None => true,
    });
    loop
        invariant
            start <= i <= bytes@.len(),
            segment_from(bytes@, start as int) == (match segment_from(bytes@, i as int) {
                Some((rest, end)) => Some((views(degs@) + rest, end)),
                None => None,
            }),
        decreases bytes@.len() - i,
    {
        broadcast use group_views;

        proof {
            lemma_group_from(bytes@, i as int);
        }
        let (d, end) = match read_group(bytes, i) {
            Some(r) => r,
            None => {
                return None;
            },
        };
        let ghost before = views(degs@);
        let ghost dv = d@;
        degs.push(d);
        if bytes[end] != 0x2b {
            assert(before + seq![dv] =~= views(degs@));
            return Some((RawSegment { degs }, end + 1));
        }
        proof {
            match segment_from(bytes@, end + 1) {
                Some((rest, last)) => {
                    assert(before + (seq![dv] + rest) =~= views(degs@) + rest);
                },
                None => {},
            }
        }
        i = end + 1;
    }
}

/// Reads the segments of a message.
pub fn parse_message(bytes: &[u8]) -> (res: Result<Vec<RawSegment>>)
    ensures
        match res {
            Ok(segs) => parsed_message(bytes@) == Some(views(segs@)),
            Err(e) => parsed_message(bytes@) is None && e@ == malformed(),
        },
{
    broadcast use group_views;

    let mut segs: Vec<RawSegment> = Vec::new();
    let mut i: usize = 0;
    assert(match parsed_message(bytes@) {
        Some(rest) => views(segs@) + rest =~= rest,
        None => true,
    });
    while i < bytes.len()
        invariant
            i <= bytes@.len(),
            parsed_message(bytes@) == (match segments_from(bytes@, i as int) {
                Some(rest) => Some(views(segs@) + rest),
                None => None,
            }),
        decreases bytes@.len() - i,
    {
        broadcast use group_views;

        proof {
            lemma_segment_from(bytes@, i as int);
        }
        let (seg, end) = match read_segment(bytes, i) {
            Some(r) => r,
            None => {
                return Err(FinTSError::Parse("malformed message".to_string()));
            },
        };
        let ghost before = views(segs@);
        let ghost sv = seg@;
        segs.push(seg);
        proof {
            match segments_from(bytes@, end as int) {
                Some(rest) => {
                    assert(before + (seq![sv] + rest) =~= views(segs@) + rest);
                },
                None => {},
            }
        }
        i = end;
    }
    assert(views(segs@) + Seq::<Seq<Group>>::empty() =~= views(segs@));
    Ok(segs)
}

/// Reads the segments inside an encrypted data container, which are written as
/// those of a message are.
pub fn parse_inner_segments(bytes: &[u8]) -> (res: Result<Vec<RawSegment>>)
    ensures
        match res {
            Ok(segs) => parsed_message(bytes@) == Some(views(segs@)),
            Err(e) => parsed_message(bytes@) is None && e@ == malformed(),
        },
{
    parse_message(bytes)
}

} // verus!
