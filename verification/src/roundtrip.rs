//! Reading gives back what was written.

use vstd::prelude::*;

use crate::element::{Element, Group};
use crate::numbers::{decimal, digit, lemma_decimal_digits};
use crate::parser::{
    binary_from, bytes_value, digits_end, element_from, group_from, is_digit_byte, parsed_message,
    segment_from, segments_from, text_from,
};
use crate::serializer::{
    ascii_bytes, binary_wire, char_wire, element_wire, encodable, group_encodable, group_parts,
    group_wire, is_delimiter, is_special, joined, latin1, lemma_trimmed_group,
    lemma_trimmed_segment, segment_encodable, segment_wire, segments_wire, text_wire, trimmed_group,
    trimmed_segment,
};
use crate::text::is_digit;

verus! {

// ---- What is read back ----

/// An element as it is read back: a text without characters states nothing.
pub open spec fn read_back_element(e: Element) -> Element {
    if e matches Element::Text(s) && s.len() == 0 {
        Element::Empty
    } else {
        e
    }
}

/// A DEG as it is read back: without the `Empty` elements at its end, but with
/// one element at least.
pub open spec fn read_back_group(g: Group) -> Group {
    let t = trimmed_group(g);
    if t.len() == 0 {
        seq![Element::Empty]
    } else {
        t.map_values(|e: Element| read_back_element(e))
    }
}

/// A segment as it is read back: without the DEGs at its end that state nothing,
/// but with one DEG at least.
pub open spec fn read_back_segment(seg: Seq<Group>) -> Seq<Group> {
    let t = trimmed_segment(seg);
    if t.len() == 0 {
        seq![seq![Element::Empty]]
    } else {
        t.map_values(|g: Group| read_back_group(g))
    }
}

/// Segments as they are read back.
pub open spec fn read_back(segs: Seq<Seq<Group>>) -> Seq<Seq<Group>> {
    segs.map_values(|seg: Seq<Group>| read_back_segment(seg))
}

// ---- Steps ----

/// `w` stands in `bytes` at `i`.
spec fn stands_at(bytes: Seq<u8>, i: int, w: Seq<u8>) -> bool {
    0 <= i && i + w.len() <= bytes.len() && bytes.subrange(i, i + w.len()) == w
}

proof fn lemma_stands_split(bytes: Seq<u8>, i: int, a: Seq<u8>, b: Seq<u8>)
    requires
        stands_at(bytes, i, a + b),
    ensures
        stands_at(bytes, i, a),
        stands_at(bytes, i + a.len(), b),
{
    let w = a + b;
    assert(bytes.subrange(i, i + a.len()) =~= a) by {
        assert forall|k: int| 0 <= k < a.len() implies bytes[i + k] == a[k] by {
            assert(bytes.subrange(i, i + w.len())[k] == w[k]);
        }
    }
    assert(bytes.subrange(i + a.len(), i + a.len() + b.len()) =~= b) by {
        assert forall|k: int| 0 <= k < b.len() implies bytes[i + a.len() + k] == b[k] by {
            assert(bytes.subrange(i, i + w.len())[a.len() + k] == w[a.len() + k]);
        }
    }
}

proof fn lemma_stands_byte(bytes: Seq<u8>, i: int, w: Seq<u8>, k: int)
    requires
        stands_at(bytes, i, w),
        0 <= k < w.len(),
    ensures
        bytes[i + k] == w[k],
{
    assert(bytes.subrange(i, i + w.len())[k] == w[k]);
}

pub proof fn lemma_latin1_char(c: char)
    requires
        c as u32 <= 0xff,
    ensures
        (c as u8) as char == c,
{
}

proof fn lemma_text_back(bytes: Seq<u8>, i: int, s: Seq<char>)
    requires
        latin1(s),
        stands_at(bytes, i, text_wire(s)),
        i + text_wire(s).len() < bytes.len(),
        is_delimiter(bytes[i + text_wire(s).len()]),
    ensures
        text_from(bytes, i) == Some((s, i + text_wire(s).len())),
    decreases s.len(),
{
    if s.len() == 0 {
        assert(s =~= Seq::<char>::empty());
    } else {
        let c = s[0];
        let first = char_wire(c);
        let rest = text_wire(s.skip(1));
        assert(c as u32 <= 0xff);
        lemma_stands_split(bytes, i, first, rest);
        lemma_stands_byte(bytes, i, first, 0);
        if is_special(c as u8) {
            lemma_stands_byte(bytes, i, first, 1);
        }
        assert(latin1(s.skip(1)));
        assert(i + first.len() + rest.len() == i + text_wire(s).len());
        lemma_text_back(bytes, i + first.len(), s.skip(1));
        lemma_latin1_char(c);
        assert(seq![c] + s.skip(1) =~= s);
    }
}

/// Digits are read as the number they write.
proof fn lemma_value_of_decimal(n: nat)
    ensures
        bytes_value(ascii_bytes(decimal(n))) == n,
    decreases n,
{
    let d = decimal(n);
    let b = ascii_bytes(d);
    if n < 10 {
        assert(b.drop_last() =~= Seq::<u8>::empty());
        assert(b.last() == digit(n as int) as u8);
        assert(b.last() == 0x30 + n);
        assert(bytes_value(b.drop_last()) == 0);
    } else {
        lemma_value_of_decimal(n / 10);
        assert(d.drop_last() =~= decimal(n / 10));
        assert(b.drop_last() =~= ascii_bytes(decimal(n / 10)));
        assert(b.last() == digit((n % 10) as int) as u8);
    }
}

proof fn lemma_digits_stop(bytes: Seq<u8>, i: int, end: int)
    requires
        0 <= i <= end < bytes.len(),
        forall|j: int| i <= j < end ==> is_digit_byte(#[trigger] bytes[j]),
        !is_digit_byte(bytes[end]),
    ensures
        digits_end(bytes, i) == end,
    decreases end - i,
{
    if i < end {
        lemma_digits_stop(bytes, i + 1, end);
    }
}

proof fn lemma_binary_back(bytes: Seq<u8>, i: int, b: Seq<u8>)
    requires
        stands_at(bytes, i, binary_wire(b)),
    ensures
        binary_from(bytes, i) == Some((b, i + binary_wire(b).len())),
        bytes[i] == 0x40,
{
    let d = ascii_bytes(decimal(b.len()));
    let at = seq![0x40u8];
    assert(binary_wire(b) =~= at + (d + (at + b)));
    lemma_stands_split(bytes, i, at, d + (at + b));
    lemma_stands_byte(bytes, i, at, 0);
    lemma_stands_split(bytes, i + 1, d, at + b);
    let end = i + 1 + d.len();
    lemma_stands_split(bytes, end, at, b);
    lemma_stands_byte(bytes, end, at, 0);
    lemma_decimal_digits(b.len());
    assert forall|j: int| i + 1 <= j < end implies is_digit_byte(#[trigger] bytes[j]) by {
        lemma_stands_byte(bytes, i + 1, d, j - i - 1);
        assert(is_digit(decimal(b.len())[j - i - 1]));
    }
    lemma_digits_stop(bytes, i + 1, end);
    assert(bytes.subrange(i + 1, end) =~= d);
    lemma_value_of_decimal(b.len());
    assert(bytes.subrange(end + 1, end + 1 + b.len()) =~= b);
}

proof fn lemma_element_back(bytes: Seq<u8>, i: int, e: Element)
    requires
        encodable(e),
        stands_at(bytes, i, element_wire(e)),
        i + element_wire(e).len() < bytes.len(),
        is_delimiter(bytes[i + element_wire(e).len()]),
    ensures
        element_from(bytes, i) == Some((read_back_element(e), i + element_wire(e).len())),
{
    match e {
        Element::Empty => {
            assert(text_wire(Seq::<char>::empty()) =~= Seq::<u8>::empty());
            lemma_text_back(bytes, i, Seq::empty());
        },
        Element::Text(s) => {
            lemma_text_back(bytes, i, s);
            if s.len() > 0 {
                let first = char_wire(s[0]);
                lemma_stands_split(bytes, i, first, text_wire(s.skip(1)));
                lemma_stands_byte(bytes, i, first, 0);
            }
        },
        Element::Binary(b) => {
            lemma_binary_back(bytes, i, b);
        },
    }
}

/// Elements with `:` between them are read one by one.
proof fn lemma_elements_back(bytes: Seq<u8>, i: int, g: Group)
    requires
        g.len() > 0,
        group_encodable(g),
        ({
            let w = joined(g.map_values(|e: Element| element_wire(e)), 0x3a);
            &&& stands_at(bytes, i, w)
            &&& i + w.len() < bytes.len()
            &&& bytes[i + w.len()] == 0x2b || bytes[i + w.len()] == 0x27
        }),
    ensures
        group_from(bytes, i) == Some(
            (
                g.map_values(|e: Element| read_back_element(e)),
                i + joined(g.map_values(|e: Element| element_wire(e)), 0x3a).len(),
            ),
        ),
    decreases g.len(),
{
    let parts = g.map_values(|e: Element| element_wire(e));
    let w = joined(parts, 0x3a);
    let first = element_wire(g[0]);
    let back = g.map_values(|e: Element| read_back_element(e));
    assert(encodable(g[0]));
    assert(parts[0] == first);
    if g.len() == 1 {
        assert(w == first);
        lemma_element_back(bytes, i, g[0]);
        assert(back =~= seq![read_back_element(g[0])]);
    } else {
        let tail = g.skip(1);
        let rest_parts = tail.map_values(|e: Element| element_wire(e));
        assert(parts.skip(1) =~= rest_parts);
        let rest = joined(rest_parts, 0x3a);
        assert(w =~= first + (seq![0x3au8] + rest));
        lemma_stands_split(bytes, i, first, seq![0x3au8] + rest);
        lemma_stands_split(bytes, i + first.len(), seq![0x3au8], rest);
        lemma_stands_byte(bytes, i + first.len(), seq![0x3au8], 0);
        lemma_element_back(bytes, i, g[0]);
        assert forall|k: int| 0 <= k < tail.len() implies encodable(#[trigger] tail[k]) by {
            assert(encodable(g[k + 1]));
        }
        assert(i + first.len() + 1 + rest.len() == i + w.len());
        lemma_elements_back(bytes, i + first.len() + 1, tail);
        assert(back =~= seq![read_back_element(g[0])] + tail.map_values(
            |e: Element| read_back_element(e),
        ));
    }
}

proof fn lemma_group_back(bytes: Seq<u8>, i: int, g: Group)
    requires
        group_encodable(g),
        stands_at(bytes, i, group_wire(g)),
        i + group_wire(g).len() < bytes.len(),
        bytes[i + group_wire(g).len()] == 0x2b || bytes[i + group_wire(g).len()] == 0x27,
    ensures
        group_from(bytes, i) == Some((read_back_group(g), i + group_wire(g).len())),
{
    let t = trimmed_group(g);
    lemma_trimmed_group(g);
    if t.len() == 0 {
        assert(group_parts(g).len() == 0);
        lemma_element_back(bytes, i, Element::Empty);
    } else {
        assert forall|k: int| 0 <= k < t.len() implies encodable(#[trigger] t[k]) by {
            assert(encodable(g[k]));
        }
        lemma_elements_back(bytes, i, t);
    }
}

/// DEGs with `+` between them and `'` behind are read one by one.
proof fn lemma_groups_back(bytes: Seq<u8>, i: int, seg: Seq<Group>)
    requires
        seg.len() > 0,
        segment_encodable(seg),
        stands_at(bytes, i, joined(seg.map_values(|g: Group| group_wire(g)), 0x2b).push(0x27)),
    ensures
        segment_from(bytes, i) == Some(
            (
                seg.map_values(|g: Group| read_back_group(g)),
                i + joined(seg.map_values(|g: Group| group_wire(g)), 0x2b).len() + 1,
            ),
        ),
    decreases seg.len(),
{
    let parts = seg.map_values(|g: Group| group_wire(g));
    let w = joined(parts, 0x2b);
    let first = group_wire(seg[0]);
    let back = seg.map_values(|g: Group| read_back_group(g));
    assert(group_encodable(seg[0]));
    assert(parts[0] == first);
    if seg.len() == 1 {
        assert(w == first);
        assert(w.push(0x27) =~= first + seq![0x27u8]);
        lemma_stands_split(bytes, i, first, seq![0x27u8]);
        lemma_stands_byte(bytes, i + first.len(), seq![0x27u8], 0);
        lemma_group_back(bytes, i, seg[0]);
        assert(back =~= seq![read_back_group(seg[0])]);
    } else {
        let tail = seg.skip(1);
        let rest_parts = tail.map_values(|g: Group| group_wire(g));
        assert(parts.skip(1) =~= rest_parts);
        let rest = joined(rest_parts, 0x2b);
        assert(w.push(0x27) =~= first + (seq![0x2bu8] + rest.push(0x27)));
        lemma_stands_split(bytes, i, first, seq![0x2bu8] + rest.push(0x27));
        lemma_stands_split(bytes, i + first.len(), seq![0x2bu8], rest.push(0x27));
        lemma_stands_byte(bytes, i + first.len(), seq![0x2bu8], 0);
        lemma_group_back(bytes, i, seg[0]);
        assert forall|k: int| 0 <= k < tail.len() implies group_encodable(#[trigger] tail[k]) by {
            assert(group_encodable(seg[k + 1]));
        }
        lemma_groups_back(bytes, i + first.len() + 1, tail);
        assert(back =~= seq![read_back_group(seg[0])] + tail.map_values(
            |g: Group| read_back_group(g),
        ));
    }
}

proof fn lemma_segment_back(bytes: Seq<u8>, i: int, seg: Seq<Group>)
    requires
        segment_encodable(seg),
        stands_at(bytes, i, segment_wire(seg)),
    ensures
        segment_from(bytes, i) == Some((read_back_segment(seg), i + segment_wire(seg).len())),
{
    let t = trimmed_segment(seg);
    lemma_trimmed_segment(seg);
    if t.len() == 0 {
        let g = Seq::<Element>::empty();
        assert(segment_wire(seg) =~= seq![0x27u8]);
        assert(group_parts(g).len() == 0);
        assert(group_wire(g) =~= Seq::<u8>::empty());
        lemma_stands_byte(bytes, i, seq![0x27u8], 0);
        assert(bytes.subrange(i, i) =~= group_wire(g));
        lemma_group_back(bytes, i, g);
    } else {
        assert forall|k: int| 0 <= k < t.len() implies group_encodable(#[trigger] t[k]) by {
            assert(group_encodable(seg[k]));
        }
        lemma_groups_back(bytes, i, t);
    }
}

/// Segments written from the front.
proof fn lemma_segments_wire_front(segs: Seq<Seq<Group>>)
    requires
        segs.len() > 0,
    ensures
        segments_wire(segs) == segment_wire(segs[0]) + segments_wire(segs.skip(1)),
    decreases segs.len(),
{
    if segs.len() == 1 {
        assert(segs.drop_last() =~= Seq::<Seq<Group>>::empty());
        assert(segs.skip(1) =~= Seq::<Seq<Group>>::empty());
        assert(segments_wire(segs.drop_last()) =~= Seq::<u8>::empty());
        assert(segments_wire(segs) =~= segment_wire(segs[0]) + segments_wire(segs.skip(1)));
    } else {
        lemma_segments_wire_front(segs.drop_last());
        assert(segs.drop_last().skip(1) =~= segs.skip(1).drop_last());
        assert(segs.skip(1).last() == segs.last());
        assert(segments_wire(segs) =~= segment_wire(segs[0]) + segments_wire(segs.skip(1)));
    }
}

proof fn lemma_segments_back(bytes: Seq<u8>, i: int, segs: Seq<Seq<Group>>)
    requires
        forall|k: int| 0 <= k < segs.len() ==> segment_encodable(#[trigger] segs[k]),
        stands_at(bytes, i, segments_wire(segs)),
        i + segments_wire(segs).len() == bytes.len(),
    ensures
        segments_from(bytes, i) == Some(read_back(segs)),
    decreases segs.len(),
{
    if segs.len() == 0 {
        assert(read_back(segs) =~= Seq::<Seq<Group>>::empty());
    } else {
        lemma_segments_wire_front(segs);
        let first = segment_wire(segs[0]);
        let tail = segs.skip(1);
        lemma_stands_split(bytes, i, first, segments_wire(tail));
        assert(segment_encodable(segs[0]));
        lemma_segment_back(bytes, i, segs[0]);
        assert forall|k: int| 0 <= k < tail.len() implies segment_encodable(
            #[trigger] tail[k],
        ) by {
            assert(segment_encodable(segs[k + 1]));
        }
        lemma_segments_back(bytes, i + first.len(), tail);
        assert(read_back(segs) =~= seq![read_back_segment(segs[0])] + read_back(tail));
    }
}

// ---- The law ----

/// Segments that were written one behind the other are read back as they were,
/// but for what writing leaves out.
pub proof fn law_read_back(segs: Seq<Seq<Group>>)
    requires
        forall|k: int| 0 <= k < segs.len() ==> segment_encodable(#[trigger] segs[k]),
    ensures
        parsed_message(segments_wire(segs)) == Some(read_back(segs)),
{
    let bytes = segments_wire(segs);
    assert(bytes.subrange(0, bytes.len() as int) =~= bytes);
    lemma_segments_back(bytes, 0, segs);
}

/// Texts that are no plain `Empty` in disguise, and a segment type in front.
pub open spec fn lossless_segment(seg: Seq<Group>) -> bool {
    &&& seg.len() > 0 && trimmed_group(seg.last()).len() > 0
    &&& forall|i: int, j: int|
        0 <= i < seg.len() && 0 <= j < seg[i].len() ==> (#[trigger] seg[i][j] matches Element::Text(
            s,
        ) ==> s.len() > 0)
    &&& forall|i: int|
        0 <= i < seg.len() ==> {
            let g = #[trigger] seg[i];
            g.len() > 0 && (g.len() == 1 || !(g.last() is Empty))
        }
}

/// A segment that leaves nothing out is read back unchanged.
pub proof fn law_lossless(seg: Seq<Group>)
    requires
        segment_encodable(seg),
        lossless_segment(seg),
    ensures
        parsed_message(segment_wire(seg)) == Some(seq![seg]),
{
    let segs = seq![seg];
    assert(segs.drop_last() =~= Seq::<Seq<Group>>::empty());
    assert(segments_wire(segs.drop_last()) =~= Seq::<u8>::empty());
    assert(segments_wire(segs) =~= segment_wire(seg));
    law_read_back(segs);
    assert(trimmed_segment(seg) == seg);
    assert forall|i: int| 0 <= i < seg.len() implies read_back_group(#[trigger] seg[i]) == seg[i] by {
        let g = seg[i];
        if g.len() == 1 && g.last() is Empty {
            assert(trimmed_group(g.drop_last()).len() == 0);
            assert(g =~= seq![Element::Empty]);
        } else {
            assert(trimmed_group(g) == g);
            assert forall|j: int| 0 <= j < g.len() implies read_back_element(#[trigger] g[j])
                == g[j] by {
                assert(seg[i][j] == g[j]);
            }
            assert(read_back_group(g) =~= g);
        }
    }
    assert(read_back_segment(seg) =~= seg);
    assert(read_back(segs) =~= segs);
}

} // verus!
