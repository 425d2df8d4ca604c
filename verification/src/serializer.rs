//! Writing segments as bytes.
//!
//! Elements of a DEG are separated by `:`, DEGs by `+`, and `'` ends a segment.
//! Texts are written in ISO 8859-1, with `?` in front of characters that have a
//! meaning of their own. Binary elements are written `@length@bytes`. Elements
//! and DEGs at the end that state nothing are left out.

use vstd::prelude::*;

use crate::element::{views, DataElement, Element, Group, DEG};
use crate::error::{Failure, FinTSError, Result};
use crate::numbers::{decimal, decimal_string, lemma_decimal_digits};
use crate::text::{chars_of, push_bytes};

verus! {

// ---- Model ----

/// Characters that end a data element: `+`, `:` and `'`.
pub open spec fn is_delimiter(b: u8) -> bool {
    b == 0x2b || b == 0x3a || b == 0x27
}

/// Characters that are written behind a `?`: the delimiters, `?` and `@`.
pub open spec fn is_special(b: u8) -> bool {
    is_delimiter(b) || b == 0x3f || b == 0x40
}

/// Texts that ISO 8859-1 can write.
pub open spec fn latin1(s: Seq<char>) -> bool {
    forall|i: int| 0 <= i < s.len() ==> (#[trigger] s[i]) as u32 <= 0xff
}

/// One character as it is written.
pub open spec fn char_wire(c: char) -> Seq<u8> {
    if is_special(c as u8) {
        seq![0x3fu8, c as u8]
    } else {
        seq![c as u8]
    }
}

/// A text as it is written.
pub open spec fn text_wire(s: Seq<char>) -> Seq<u8>
    decreases s.len(),
{
    if s.len() == 0 {
        Seq::empty()
    } else {
        char_wire(s[0]) + text_wire(s.skip(1))
    }
}

/// ASCII characters as bytes.
pub open spec fn ascii_bytes(s: Seq<char>) -> Seq<u8> {
    s.map_values(|c: char| c as u8)
}

/// Bytes as they are written: their number between `@`, then the bytes.
pub open spec fn binary_wire(b: Seq<u8>) -> Seq<u8> {
    seq![0x40u8] + ascii_bytes(decimal(b.len())) + seq![0x40u8] + b
}

/// Elements that can be written.
pub open spec fn encodable(e: Element) -> bool {
    e matches Element::Text(s) ==> latin1(s)
}

pub open spec fn group_encodable(g: Group) -> bool {
    forall|i: int| 0 <= i < g.len() ==> encodable(#[trigger] g[i])
}

pub open spec fn segment_encodable(seg: Seq<Group>) -> bool {
    forall|i: int| 0 <= i < seg.len() ==> group_encodable(#[trigger] seg[i])
}

pub open spec fn element_wire(e: Element) -> Seq<u8> {
    match e {
        Element::Empty => Seq::empty(),
        Element::Text(s) => text_wire(s),
        Element::Binary(b) => binary_wire(b),
    }
}

/// Parts with a separator between them.
pub open spec fn joined(parts: Seq<Seq<u8>>, sep: u8) -> Seq<u8>
    decreases parts.len(),
{
    if parts.len() == 0 {
        Seq::empty()
    } else if parts.len() == 1 {
        parts[0]
    } else {
        parts[0] + seq![sep] + joined(parts.skip(1), sep)
    }
}

/// A DEG without the `Empty` elements at its end.
pub open spec fn trimmed_group(g: Group) -> Group
    decreases g.len(),
{
    if g.len() > 0 && g.last() is Empty {
        trimmed_group(g.drop_last())
    } else {
        g
    }
}

/// A segment without the DEGs at its end that state nothing.
pub open spec fn trimmed_segment(seg: Seq<Group>) -> Seq<Group>
    decreases seg.len(),
{
    if seg.len() > 0 && trimmed_group(seg.last()).len() == 0 {
        trimmed_segment(seg.drop_last())
    } else {
        seg
    }
}

pub open spec fn group_parts(g: Group) -> Seq<Seq<u8>> {
    trimmed_group(g).map_values(|e: Element| element_wire(e))
}

/// A DEG as it is written.
pub open spec fn group_wire(g: Group) -> Seq<u8> {
    joined(group_parts(g), 0x3a)
}

pub open spec fn segment_parts(seg: Seq<Group>) -> Seq<Seq<u8>> {
    trimmed_segment(seg).map_values(|g: Group| group_wire(g))
}

/// A segment as it is written.
pub open spec fn segment_wire(seg: Seq<Group>) -> Seq<u8> {
    joined(segment_parts(seg), 0x2b).push(0x27)
}

/// Segments as they are written one behind the other.
pub open spec fn segments_wire(segs: Seq<Seq<Group>>) -> Seq<u8>
    decreases segs.len(),
{
    if segs.len() == 0 {
        Seq::empty()
    } else {
        segments_wire(segs.drop_last()) + segment_wire(segs.last())
    }
}

/// The error on a text that cannot be written.
pub open spec fn unencodable() -> Failure {
    Failure::Encoding("text holds characters outside ISO 8859-1"@)
}

// ---- Lemmas ----

pub proof fn lemma_text_wire_push(s: Seq<char>, c: char)
    ensures
        text_wire(s.push(c)) == text_wire(s) + char_wire(c),
    decreases s.len(),
{
    let t = s.push(c);
    if s.len() == 0 {
        assert(t.skip(1) =~= Seq::<char>::empty());
        assert(text_wire(t.skip(1)) =~= Seq::<u8>::empty());
        assert(text_wire(t) =~= text_wire(s) + char_wire(c));
    } else {
        assert(t.skip(1) =~= s.skip(1).push(c));
        lemma_text_wire_push(s.skip(1), c);
        assert(text_wire(t) =~= text_wire(s) + char_wire(c));
    }
}

pub proof fn lemma_joined_push(parts: Seq<Seq<u8>>, x: Seq<u8>, sep: u8)
    ensures
        joined(parts.push(x), sep) == if parts.len() == 0 {
            x
        } else {
            joined(parts, sep) + seq![sep] + x
        },
    decreases parts.len(),
{
    let t = parts.push(x);
    if parts.len() == 0 {
    } else if parts.len() == 1 {
        assert(t.skip(1) =~= seq![x]);
        assert(joined(seq![x], sep) == x);
        assert(joined(t, sep) =~= joined(parts, sep) + seq![sep] + x);
    } else {
        assert(t.skip(1) =~= parts.skip(1).push(x));
        lemma_joined_push(parts.skip(1), x, sep);
        assert(joined(t, sep) =~= joined(parts, sep) + seq![sep] + x);
    }
}

/// What is left of a DEG is a prefix of it.
pub proof fn lemma_trimmed_group(g: Group)
    ensures
        trimmed_group(g).len() <= g.len(),
        trimmed_group(g) == g.take(trimmed_group(g).len() as int),
    decreases g.len(),
{
    if g.len() > 0 && g.last() is Empty {
        lemma_trimmed_group(g.drop_last());
        let n = trimmed_group(g).len() as int;
        assert(g.drop_last().take(n) =~= g.take(n));
    } else {
        assert(g.take(g.len() as int) =~= g);
    }
}

/// What is left of a segment is a prefix of it.
pub proof fn lemma_trimmed_segment(seg: Seq<Group>)
    ensures
        trimmed_segment(seg).len() <= seg.len(),
        trimmed_segment(seg) == seg.take(trimmed_segment(seg).len() as int),
    decreases seg.len(),
{
    if seg.len() > 0 && trimmed_group(seg.last()).len() == 0 {
        lemma_trimmed_segment(seg.drop_last());
        let n = trimmed_segment(seg).len() as int;
        assert(seg.drop_last().take(n) =~= seg.take(n));
    } else {
        assert(seg.take(seg.len() as int) =~= seg);
    }
}

/// What is left out can be written.
proof fn lemma_group_rest_encodable(g: Group)
    ensures
        group_encodable(trimmed_group(g)) ==> group_encodable(g),
    decreases g.len(),
{
    if g.len() > 0 && g.last() is Empty {
        lemma_group_rest_encodable(g.drop_last());
        if group_encodable(trimmed_group(g)) {
            assert forall|i: int| 0 <= i < g.len() implies encodable(#[trigger] g[i]) by {
                if i < g.len() - 1 {
                    assert(encodable(g.drop_last()[i]));
                }
            }
        }
    }
}

proof fn lemma_segment_rest_encodable(seg: Seq<Group>)
    ensures
        segment_encodable(trimmed_segment(seg)) ==> segment_encodable(seg),
    decreases seg.len(),
{
    if seg.len() > 0 && trimmed_group(seg.last()).len() == 0 {
        lemma_segment_rest_encodable(seg.drop_last());
        lemma_group_rest_encodable(seg.last());
        if segment_encodable(trimmed_segment(seg)) {
            assert forall|i: int| 0 <= i < seg.len() implies group_encodable(
                #[trigger] seg[i],
            ) by {
                if i < seg.len() - 1 {
                    assert(group_encodable(seg.drop_last()[i]));
                }
            }
        }
    }
}

// ---- Writing ----

fn encoding_error() -> (e: FinTSError)
    ensures
        e@ == unencodable(),
{
    FinTSError::Encoding("text holds characters outside ISO 8859-1".to_string())
}

/// Appends a text as it is written; false where it cannot be.
fn write_text(out: &mut Vec<u8>, s: &str) -> (ok: bool)
    ensures
        ok == latin1(s@),
        ok ==> final(out)@ == old(out)@ + text_wire(s@),
{
    let cs: Vec<char> = chars_of(s);
    let mut i: usize = 0;
    let ghost before = out@;
    assert(text_wire(s@.take(0)) =~= Seq::<u8>::empty());
    while i < cs.len()
        invariant
            i <= cs@.len(),
            cs@ == s@,
            out@ =~= before + text_wire(s@.take(i as int)),
            forall|j: int| 0 <= j < i ==> (#[trigger] s@[j]) as u32 <= 0xff,
        decreases cs@.len() - i,
    {
        let c: char = cs[i];
        if c as u32 > 0xff {
            assert(s@[i as int] as u32 > 0xff);
            return false;
        }
        let b: u8 = c as u8;
        if b == 0x2b || b == 0x3a || b == 0x27 || b == 0x3f || b == 0x40 {
            out.push(0x3f);
        }
        out.push(b);
        proof {
            lemma_text_wire_push(s@.take(i as int), c);
            assert(s@.take(i + 1) =~= s@.take(i as int).push(c));
        }
        i += 1;
    }
    assert(s@.take(i as int) =~= s@);
    true
}

/// Appends the decimal digits of a number.
pub(crate) fn write_number(out: &mut Vec<u8>, n: usize)
    ensures
        final(out)@ == old(out)@ + ascii_bytes(decimal(n as nat)),
{
    let ghost before = out@;
    let cs: Vec<char> = chars_of(decimal_string(n as u128).as_str());
    proof {
        lemma_decimal_digits(n as nat);
    }
    let mut i: usize = 0;
    while i < cs.len()
        invariant
            i <= cs@.len(),
            cs@ == decimal(n as nat),
            out@ =~= before + ascii_bytes(cs@).take(i as int),
            crate::text::all_digits(cs@),
        decreases cs@.len() - i,
    {
        assert(crate::text::is_digit(cs@[i as int]));
        out.push(cs[i] as u8);
        i += 1;
    }
    assert(ascii_bytes(cs@).take(i as int) =~= ascii_bytes(cs@));
}

/// Appends an element as it is written; false where it cannot be.
fn write_element(out: &mut Vec<u8>, e: &DataElement) -> (ok: bool)
    ensures
        ok == encodable(e@),
        ok ==> final(out)@ == old(out)@ + element_wire(e@),
{
    let ghost before = out@;
    match e {
        DataElement::Empty => {
            assert(out@ =~= before + element_wire(e@));
            true
        },
        DataElement::Text(s) => write_text(out, s.as_str()),
        DataElement::Binary(b) => {
            out.push(0x40);
            write_number(out, b.len());
            out.push(0x40);
            push_bytes(out, b.as_slice());
            assert(out@ =~= before + element_wire(e@));
            true
        },
    }
}

/// The number of elements of a DEG that are written.
fn written_elements(d: &DEG) -> (n: usize)
    ensures
        n == trimmed_group(d@).len(),
        n <= d@.len(),
        trimmed_group(d@) == d@.take(n as int),
{
    let mut n: usize = d.len();
    assert(d@.take(n as int) =~= d@);
    while n > 0
        invariant
            n <= d@.len(),
            trimmed_group(d@.take(n as int)) == trimmed_group(d@),
        ensures
            n <= d@.len(),
            trimmed_group(d@) == d@.take(n as int),
        decreases n,
    {
        assert(d@.take(n as int).last() == d@[n - 1]);
        match d.get(n - 1) {
            DataElement::Empty => {
                assert(d@.take(n as int).drop_last() =~= d@.take(n - 1));
                n -= 1;
            },
            _ => {
                break;
            },
        }
    }
    n
}

/// Writes a DEG.
pub fn serialize_deg(d: &DEG) -> (res: Result<Vec<u8>>)
    ensures
        match res {
            Ok(bytes) => group_encodable(d@) && bytes@ == group_wire(d@),
            Err(e) => !group_encodable(d@) && e@ == unencodable(),
        },
{
    let n: usize = written_elements(d);
    let mut out: Vec<u8> = Vec::new();
    let mut i: usize = 0;
    assert(group_parts(d@).take(0) =~= Seq::<Seq<u8>>::empty());
    while i < n
        invariant
            i <= n <= d@.len(),
            trimmed_group(d@) == d@.take(n as int),
            group_parts(d@).len() == n,
            out@ == joined(group_parts(d@).take(i as int), 0x3a),
            forall|j: int| 0 <= j < i ==> encodable(#[trigger] d@[j]),
        decreases n - i,
    {
        let ghost before = out@;
        let ghost parts = group_parts(d@).take(i as int);
        if i > 0 {
            out.push(0x3a);
        }
        let ghost mid = out@;
        if !write_element(&mut out, &d.0[i]) {
            assert(!encodable(d@[i as int]));
            return Err(encoding_error());
        }
        proof {
            let x = element_wire(d@[i as int]);
            assert(group_parts(d@)[i as int] == x);
            lemma_joined_push(parts, x, 0x3a);
            assert(group_parts(d@).take(i + 1) =~= parts.push(x));
            assert(out@ =~= mid + x);
            if i == 0 {
                assert(out@ =~= x);
            } else {
                assert(out@ =~= before + seq![0x3au8] + x);
            }
        }
        i += 1;
    }
    proof {
        assert(group_parts(d@).take(n as int) =~= group_parts(d@));
        assert(group_encodable(trimmed_group(d@)));
        lemma_group_rest_encodable(d@);
    }
    Ok(out)
}

/// The number of DEGs of a segment that are written.
fn written_degs(degs: &Vec<DEG>) -> (n: usize)
    ensures
        n <= degs@.len(),
        trimmed_segment(views(degs@)) == views(degs@).take(n as int),
{
    let ghost seg = views(degs@);
    let mut n: usize = degs.len();
    assert(seg.take(n as int) =~= seg);
    while n > 0
        invariant
            n <= degs@.len(),
            seg == views(degs@),
            trimmed_segment(seg.take(n as int)) == trimmed_segment(seg),
        ensures
            n <= degs@.len(),
            trimmed_segment(seg) == seg.take(n as int),
        decreases n,
    {
        assert(seg.take(n as int).last() == degs@[n - 1]@);
        if written_elements(&degs[n - 1]) > 0 {
            break;
        }
        assert(seg.take(n as int).drop_last() =~= seg.take(n - 1));
        n -= 1;
    }
    n
}

/// Writes a segment.
pub fn serialize_segment(degs: &Vec<DEG>) -> (res: Result<Vec<u8>>)
    ensures
        match res {
            Ok(bytes) => segment_encodable(views(degs@)) && bytes@ == segment_wire(views(degs@)),
            Err(e) => !segment_encodable(views(degs@)) && e@ == unencodable(),
        },
{
    let ghost seg = views(degs@);
    let n: usize = written_degs(degs);
    let mut out: Vec<u8> = Vec::new();
    let mut i: usize = 0;
    assert(segment_parts(seg).take(0) =~= Seq::<Seq<u8>>::empty());
    while i < n
        invariant
            i <= n <= degs@.len(),
            seg == views(degs@),
            trimmed_segment(seg) == seg.take(n as int),
            segment_parts(seg).len() == n,
            out@ == joined(segment_parts(seg).take(i as int), 0x2b),
            forall|j: int| 0 <= j < i ==> group_encodable(#[trigger] seg[j]),
        decreases n - i,
    {
        let ghost before = out@;
        let ghost parts = segment_parts(seg).take(i as int);
        assert(seg[i as int] == degs@[i as int]@);
        if i > 0 {
            out.push(0x2b);
        }
        let bytes: Vec<u8> = match serialize_deg(&degs[i]) {
            Ok(b) => b,
            Err(e) => {
                return Err(e);
            },
        };
        push_bytes(&mut out, bytes.as_slice());
        proof {
            let x = group_wire(seg[i as int]);
            assert(segment_parts(seg)[i as int] == x);
            lemma_joined_push(parts, x, 0x2b);
            assert(segment_parts(seg).take(i + 1) =~= parts.push(x));
            if i == 0 {
                assert(out@ =~= x);
            } else {
                assert(out@ =~= before + seq![0x2bu8] + x);
            }
        }
        i += 1;
    }
    proof {
        assert(segment_parts(seg).take(n as int) =~= segment_parts(seg));
        assert(segment_encodable(trimmed_segment(seg)));
        lemma_segment_rest_encodable(seg);
    }
    out.push(0x27);
    Ok(out)
}

} // verus!
