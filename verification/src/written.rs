//! What stands in the bytes of a message, and what reading makes of any bytes.

use vstd::prelude::*;

use crate::element::{Element, Group};
use crate::parser::{
    bytes_value, digits_end, element_from, group_from, is_digit_byte, lemma_digits_end,
    lemma_element_from, lemma_group_from, lemma_segment_from, parsed_message, segment_from,
    segments_from, text_from,
};
use crate::roundtrip::lemma_latin1_char;
use crate::serializer::{
    char_wire, element_wire, group_parts, group_wire, is_delimiter, joined, latin1,
    lemma_joined_push, segment_parts, segment_wire, segments_wire, text_wire, trimmed_group,
    trimmed_segment,
};

verus! {

// ---- Texts ----

/// `+`, `:`, `'`, `?` and `@` are written behind a `?`, every other character of
/// ISO 8859-1 as its one byte.
pub proof fn law_char_written(c: char)
    requires
        c as u32 <= 0xff,
    ensures
        c == '+' || c == ':' || c == '\'' || c == '?' || c == '@' ==> char_wire(c) == seq![
            0x3fu8,
            c as u8,
        ],
        c != '+' && c != ':' && c != '\'' && c != '?' && c != '@' ==> char_wire(c) == seq![c as u8],
        (c as u8) as u32 == c as u32,
{
}

/// Joined texts are written one behind the other.
pub proof fn law_text_written(a: Seq<char>, b: Seq<char>, c: char)
    ensures
        text_wire(a + b) == text_wire(a) + text_wire(b),
        text_wire(seq![c]) == char_wire(c),
        text_wire(Seq::<char>::empty()).len() == 0,
    decreases a.len(),
{
    if a.len() == 0 {
        assert(a + b =~= b);
        assert(text_wire(a) + text_wire(b) =~= text_wire(b));
    } else {
        law_text_written(a.skip(1), b, c);
        assert((a + b).skip(1) =~= a.skip(1) + b);
        assert((a + b)[0] == a[0]);
        assert(text_wire(a + b) =~= text_wire(a) + text_wire(b));
    }
    assert(seq![c].skip(1) =~= Seq::<char>::empty());
    assert(text_wire(seq![c].skip(1)) =~= Seq::<u8>::empty());
    assert(char_wire(c) + text_wire(seq![c].skip(1)) =~= char_wire(c));
}

/// A text with a `?` in front of each of its characters.
pub open spec fn marked(s: Seq<char>) -> Seq<u8>
    decreases s.len(),
{
    if s.len() == 0 {
        Seq::empty()
    } else {
        seq![0x3fu8, s[0] as u8] + marked(s.skip(1))
    }
}

/// A `?` may stand in front of any character, whether it needs one or not.
pub proof fn law_marked_read(front: Seq<u8>, s: Seq<char>, end: u8, rest: Seq<u8>)
    requires
        latin1(s),
        end == 0x2b || end == 0x3a || end == 0x27,
    ensures
        marked(s).len() == 2 * s.len(),
        text_from(front + marked(s) + seq![end] + rest, front.len() as int) == Some(
            (s, (front.len() + 2 * s.len()) as int),
        ),
    decreases s.len(),
{
    let bytes = front + marked(s) + seq![end] + rest;
    let i = front.len() as int;
    if s.len() == 0 {
        assert(bytes[i] == end);
        assert(s =~= Seq::<char>::empty());
    } else {
        let more = front + seq![0x3fu8, s[0] as u8];
        law_marked_read(more, s.skip(1), end, rest);
        assert(bytes =~= more + marked(s.skip(1)) + seq![end] + rest);
        assert(bytes[i] == 0x3f && bytes[i + 1] == s[0] as u8);
        lemma_latin1_char(s[0]);
        assert(seq![s[0]] + s.skip(1) =~= s);
    }
}

// ---- DEGs and segments ----

/// `n` separators.
spec fn separators(n: nat, sep: u8) -> Seq<u8> {
    Seq::new(n, |i: int| sep)
}

proof fn lemma_gaps(parts: Seq<Seq<u8>>, n: nat, sep: u8)
    requires
        parts.len() > 0,
    ensures
        joined(parts + Seq::new(n, |i: int| Seq::<u8>::empty()), sep) == joined(parts, sep)
            + separators(n, sep),
    decreases n,
{
    let gaps = Seq::new(n, |i: int| Seq::<u8>::empty());
    if n == 0 {
        assert(parts + gaps =~= parts);
        assert(joined(parts, sep) + separators(n, sep) =~= joined(parts, sep));
    } else {
        let m = (n - 1) as nat;
        let fewer = Seq::new(m, |i: int| Seq::<u8>::empty());
        lemma_gaps(parts, m, sep);
        lemma_joined_push(parts + fewer, Seq::empty(), sep);
        assert(parts + gaps =~= (parts + fewer).push(Seq::empty()));
        assert(joined(parts + gaps, sep) =~= joined(parts, sep) + separators(n, sep));
    }
}

proof fn lemma_full_parts(g: Group)
    requires
        g.len() > 0 ==> !(g.last() is Empty),
    ensures
        trimmed_group(g) == g,
{
}

/// An element that states something is written behind what stands in front of it
/// and a colon; each element between them that is left out leaves its colon.
pub proof fn law_element_written(g: Group, n: nat, e: Element)
    requires
        g.len() > 0,
        !(g.last() is Empty),
        !(e is Empty),
    ensures
        group_wire(g + Seq::new(n, |i: int| Element::Empty) + seq![e]) == group_wire(g) + Seq::new(
            (n + 1) as nat,
            |i: int| 0x3au8,
        ) + element_wire(e),
        group_wire(seq![e]) == element_wire(e),
{
    let gaps = Seq::new(n, |i: int| Element::Empty);
    let all = g + gaps + seq![e];
    lemma_full_parts(g);
    lemma_full_parts(all);
    lemma_full_parts(seq![e]);
    let nothing = Seq::new(n, |i: int| Seq::<u8>::empty());
    assert(group_parts(all) =~= (group_parts(g) + nothing).push(element_wire(e)));
    lemma_gaps(group_parts(g), n, 0x3a);
    lemma_joined_push(group_parts(g) + nothing, element_wire(e), 0x3a);
    assert(group_wire(all) =~= group_wire(g) + Seq::new((n + 1) as nat, |i: int| 0x3au8)
        + element_wire(e));
    assert(group_parts(seq![e]) =~= seq![element_wire(e)]);
}

/// What states nothing at the end of a DEG is not written.
pub proof fn law_empty_unwritten(g: Group)
    ensures
        group_wire(g.push(Element::Empty)) == group_wire(g),
        group_wire(Seq::<Element>::empty()).len() == 0,
{
    assert(g.push(Element::Empty).drop_last() =~= g);
    assert(group_parts(Seq::<Element>::empty()) =~= Seq::<Seq<u8>>::empty());
}

/// A DEG that states something is written behind what stands in front of it and a
/// plus; each DEG between them that states nothing leaves its plus. A quote ends
/// the segment.
pub proof fn law_group_written(seg: Seq<Group>, n: nat, g: Group)
    requires
        seg.len() > 0,
        trimmed_group(seg.last()).len() > 0,
        trimmed_group(g).len() > 0,
    ensures
        segment_wire(seg + Seq::new(n, |i: int| Seq::<Element>::empty()) + seq![g])
            == segment_wire(seg).drop_last() + Seq::new((n + 1) as nat, |i: int| 0x2bu8)
            + group_wire(g) + seq![0x27u8],
        segment_wire(seq![g]) == group_wire(g) + seq![0x27u8],
{
    let gaps = Seq::new(n, |i: int| Seq::<Element>::empty());
    let all = seg + gaps + seq![g];
    assert(trimmed_segment(all) == all);
    assert(trimmed_segment(seg) == seg);
    assert(trimmed_segment(seq![g]) == seq![g]);
    let nothing = Seq::new(n, |i: int| Seq::<u8>::empty());
    law_empty_unwritten(g);
    assert(group_wire(Seq::<Element>::empty()) =~= Seq::<u8>::empty());
    assert(segment_parts(all) =~= (segment_parts(seg) + nothing).push(group_wire(g)));
    lemma_gaps(segment_parts(seg), n, 0x2b);
    lemma_joined_push(segment_parts(seg) + nothing, group_wire(g), 0x2b);
    assert(segment_wire(seg).drop_last() =~= joined(segment_parts(seg), 0x2b));
    assert(segment_wire(all) =~= segment_wire(seg).drop_last() + Seq::new(
        (n + 1) as nat,
        |i: int| 0x2bu8,
    ) + group_wire(g) + seq![0x27u8]);
    assert(segment_parts(seq![g]) =~= seq![group_wire(g)]);
    assert(segment_wire(seq![g]) =~= group_wire(g) + seq![0x27u8]);
}

/// What states nothing at the end of a segment is not written.
pub proof fn law_group_unwritten(seg: Seq<Group>, g: Group)
    requires
        forall|j: int| 0 <= j < g.len() ==> #[trigger] g[j] is Empty,
    ensures
        segment_wire(seg.push(g)) == segment_wire(seg),
    decreases g.len(),
{
    lemma_all_empty(g);
    assert(seg.push(g).drop_last() =~= seg);
}

proof fn lemma_all_empty(g: Group)
    requires
        forall|j: int| 0 <= j < g.len() ==> #[trigger] g[j] is Empty,
    ensures
        trimmed_group(g).len() == 0,
    decreases g.len(),
{
    if g.len() > 0 {
        assert(g[g.len() - 1] is Empty);
        lemma_all_empty(g.drop_last());
    }
}

/// Segments are written one behind the other.
pub proof fn law_segments_written(a: Seq<Seq<Group>>, b: Seq<Seq<Group>>, seg: Seq<Group>)
    ensures
        segments_wire(a + b) == segments_wire(a) + segments_wire(b),
        segments_wire(seq![seg]) == segment_wire(seg),
    decreases b.len(),
{
    if b.len() == 0 {
        assert(a + b =~= a);
        assert(segments_wire(a) + segments_wire(b) =~= segments_wire(a));
    } else {
        law_segments_written(a, b.drop_last(), seg);
        assert((a + b).drop_last() =~= a + b.drop_last());
        assert((a + b).last() == b.last());
        assert(segments_wire(a + b) =~= segments_wire(a) + segments_wire(b));
    }
    assert(seq![seg].drop_last() =~= Seq::<Seq<Group>>::empty());
    assert(segments_wire(seq![seg].drop_last()) =~= Seq::<u8>::empty());
    assert(segments_wire(seq![seg]) =~= segment_wire(seg));
}

// ---- Any bytes ----

proof fn lemma_text_local(bytes: Seq<u8>, more: Seq<u8>, i: int)
    requires
        text_from(bytes, i) is Some,
    ensures
        text_from(bytes + more, i) == text_from(bytes, i),
    decreases bytes.len() - i,
{
    let all = bytes + more;
    assert(all[i] == bytes[i]);
    if !is_delimiter(bytes[i]) {
        let at = if bytes[i] == 0x3f { i + 1 } else { i };
        assert(all[at] == bytes[at]);
        lemma_text_local(bytes, more, at + 1);
    }
}

proof fn lemma_digits_local(bytes: Seq<u8>, more: Seq<u8>, i: int)
    requires
        0 <= i,
        digits_end(bytes, i) < bytes.len(),
    ensures
        digits_end(bytes + more, i) == digits_end(bytes, i),
    decreases bytes.len() - i,
{
    let all = bytes + more;
    if i < bytes.len() {
        assert(all[i] == bytes[i]);
        if is_digit_byte(bytes[i]) {
            lemma_digits_local(bytes, more, i + 1);
        }
    }
}

proof fn lemma_element_local(bytes: Seq<u8>, more: Seq<u8>, i: int)
    requires
        element_from(bytes, i) is Some,
    ensures
        element_from(bytes + more, i) == element_from(bytes, i),
{
    let all = bytes + more;
    lemma_element_from(bytes, i);
    assert(all[i] == bytes[i]);
    if bytes[i] == 0x40 {
        lemma_digits_end(bytes, i + 1);
        lemma_digits_local(bytes, more, i + 1);
        let end = digits_end(bytes, i + 1);
        assert(all.subrange(i + 1, end) =~= bytes.subrange(i + 1, end));
        let len = bytes_value(bytes.subrange(i + 1, end));
        assert(all[end] == bytes[end]);
        assert(all.subrange(end + 1, end + 1 + len) =~= bytes.subrange(end + 1, end + 1 + len));
        assert(all[end + 1 + len] == bytes[end + 1 + len]);
    } else {
        lemma_text_local(bytes, more, i);
    }
}

proof fn lemma_group_local(bytes: Seq<u8>, more: Seq<u8>, i: int)
    requires
        group_from(bytes, i) is Some,
    ensures
        group_from(bytes + more, i) == group_from(bytes, i),
    decreases bytes.len() - i,
{
    lemma_element_from(bytes, i);
    lemma_element_local(bytes, more, i);
    let (_, end) = element_from(bytes, i)->0;
    assert((bytes + more)[end] == bytes[end]);
    if bytes[end] == 0x3a {
        lemma_group_local(bytes, more, end + 1);
    }
}

proof fn lemma_segment_local(bytes: Seq<u8>, more: Seq<u8>, i: int)
    requires
        segment_from(bytes, i) is Some,
    ensures
        segment_from(bytes + more, i) == segment_from(bytes, i),
    decreases bytes.len() - i,
{
    lemma_group_from(bytes, i);
    lemma_group_local(bytes, more, i);
    let (_, end) = group_from(bytes, i)->0;
    assert((bytes + more)[end] == bytes[end]);
    if bytes[end] == 0x2b {
        lemma_segment_local(bytes, more, end + 1);
    }
}

proof fn lemma_segments_local(bytes: Seq<u8>, more: Seq<u8>, i: int)
    requires
        0 <= i <= bytes.len(),
        segments_from(bytes, i) is Some,
        segments_from(bytes + more, bytes.len() as int) is Some,
    ensures
        segments_from(bytes + more, i) == Some(
            segments_from(bytes, i)->0 + segments_from(bytes + more, bytes.len() as int)->0,
        ),
    decreases bytes.len() - i,
{
    let all = bytes + more;
    let behind = segments_from(all, bytes.len() as int)->0;
    if i == bytes.len() {
        assert(Seq::<Seq<Group>>::empty() + behind =~= behind);
    } else {
        lemma_segment_from(bytes, i);
        lemma_segment_local(bytes, more, i);
        let (seg, end) = segment_from(bytes, i)->0;
        lemma_segments_local(bytes, more, end);
        let rest = segments_from(bytes, end)->0;
        assert(seq![seg] + (rest + behind) =~= (seq![seg] + rest) + behind);
    }
}

proof fn lemma_text_moved(front: Seq<u8>, bytes: Seq<u8>, i: int)
    requires
        0 <= i,
    ensures
        text_from(front + bytes, front.len() + i) == match text_from(bytes, i) {
            Some((s, end)) => Some((s, front.len() + end)),
            None => None,
        },
    decreases bytes.len() - i,
{
    let all = front + bytes;
    if i < bytes.len() {
        assert(all[front.len() + i] == bytes[i]);
        if !is_delimiter(bytes[i]) {
            let at = if bytes[i] == 0x3f { i + 1 } else { i };
            if at < bytes.len() {
                assert(all[front.len() + at] == bytes[at]);
                lemma_text_moved(front, bytes, at + 1);
            }
        }
    }
}

proof fn lemma_digits_moved(front: Seq<u8>, bytes: Seq<u8>, i: int)
    requires
        0 <= i,
    ensures
        digits_end(front + bytes, front.len() + i) == front.len() + digits_end(bytes, i),
    decreases bytes.len() - i,
{
    if i < bytes.len() {
        assert((front + bytes)[front.len() + i] == bytes[i]);
        if is_digit_byte(bytes[i]) {
            lemma_digits_moved(front, bytes, i + 1);
        }
    }
}

/// `at` moved by `n`.
spec fn moved<T>(at: Option<(T, int)>, n: int) -> Option<(T, int)> {
    match at {
        Some((x, end)) => Some((x, n + end)),
        None => None,
    }
}

proof fn lemma_element_moved(front: Seq<u8>, bytes: Seq<u8>, i: int)
    requires
        0 <= i,
    ensures
        element_from(front + bytes, front.len() + i) == moved(
            element_from(bytes, i),
            front.len() as int,
        ),
{
    let all = front + bytes;
    let n = front.len() as int;
    lemma_text_moved(front, bytes, i);
    if i < bytes.len() {
        assert(all[n + i] == bytes[i]);
        if bytes[i] == 0x40 {
            lemma_digits_moved(front, bytes, i + 1);
            lemma_digits_end(bytes, i + 1);
            let end = digits_end(bytes, i + 1);
            assert(all.subrange(n + i + 1, n + end) =~= bytes.subrange(i + 1, end));
            let len = bytes_value(bytes.subrange(i + 1, end));
            if end < bytes.len() && end + 1 + len <= bytes.len() {
                assert(all[n + end] == bytes[end]);
                assert(all.subrange(n + end + 1, n + end + 1 + len) =~= bytes.subrange(
                    end + 1,
                    end + 1 + len,
                ));
                if end + 1 + len < bytes.len() {
                    assert(all[n + end + 1 + len] == bytes[end + 1 + len]);
                }
            } else if end < bytes.len() {
                assert(all[n + end] == bytes[end]);
            }
        }
    }
}

proof fn lemma_group_moved(front: Seq<u8>, bytes: Seq<u8>, i: int)
    requires
        0 <= i,
    ensures
        group_from(front + bytes, front.len() + i) == moved(
            group_from(bytes, i),
            front.len() as int,
        ),
    decreases bytes.len() - i,
{
    lemma_element_from(bytes, i);
    lemma_element_moved(front, bytes, i);
    if let Some((_, end)) = element_from(bytes, i) {
        assert((front + bytes)[front.len() + end] == bytes[end]);
        if bytes[end] == 0x3a {
            lemma_group_moved(front, bytes, end + 1);
        }
    }
}

proof fn lemma_segment_moved(front: Seq<u8>, bytes: Seq<u8>, i: int)
    requires
        0 <= i,
    ensures
        segment_from(front + bytes, front.len() + i) == moved(
            segment_from(bytes, i),
            front.len() as int,
        ),
    decreases bytes.len() - i,
{
    lemma_group_from(bytes, i);
    lemma_group_moved(front, bytes, i);
    if let Some((_, end)) = group_from(bytes, i) {
        assert((front + bytes)[front.len() + end] == bytes[end]);
        if bytes[end] == 0x2b {
            lemma_segment_moved(front, bytes, end + 1);
        }
    }
}

proof fn lemma_segments_moved(front: Seq<u8>, bytes: Seq<u8>, i: int)
    requires
        0 <= i <= bytes.len(),
    ensures
        segments_from(front + bytes, front.len() + i) == segments_from(bytes, i),
    decreases bytes.len() - i,
{
    if i < bytes.len() {
        lemma_segment_from(bytes, i);
        lemma_segment_moved(front, bytes, i);
        if let Some((_, end)) = segment_from(bytes, i) {
            lemma_segments_moved(front, bytes, end);
        }
    }
}

/// Messages that are read one by one are read one behind the other.
pub proof fn law_joined_read(a: Seq<u8>, b: Seq<u8>)
    requires
        parsed_message(a) is Some,
    ensures
        parsed_message(b) is Some ==> parsed_message(a + b) == Some(
            parsed_message(a)->0 + parsed_message(b)->0,
        ),
        parsed_message(Seq::<u8>::empty()) == Some(Seq::<Seq<Group>>::empty()),
{
    lemma_segments_moved(a, b, 0);
    if parsed_message(b) is Some {
        lemma_segments_local(a, b, 0);
    }
}

proof fn lemma_segment_ends(bytes: Seq<u8>, i: int)
    ensures
        segment_from(bytes, i) matches Some((seg, end)) ==> 0 <= i < end <= bytes.len() && bytes[end
            - 1] == 0x27 && seg.len() > 0,
    decreases bytes.len() - i,
{
    lemma_group_from(bytes, i);
    if let Some((_, end)) = group_from(bytes, i) {
        if bytes[end] == 0x2b {
            lemma_segment_ends(bytes, end + 1);
        }
    }
}

proof fn lemma_segments_end(bytes: Seq<u8>, i: int)
    requires
        0 <= i < bytes.len(),
        segments_from(bytes, i) is Some,
    ensures
        bytes.last() == 0x27,
        segments_from(bytes, i)->0.len() > 0,
    decreases bytes.len() - i,
{
    lemma_segment_ends(bytes, i);
    let (_, end) = segment_from(bytes, i)->0;
    if end < bytes.len() {
        lemma_segments_end(bytes, end);
    }
}

/// A message that ends without the quote of its last segment is not read, and one
/// that is read holds a segment.
pub proof fn law_unended_unread(bytes: Seq<u8>)
    requires
        bytes.len() > 0,
    ensures
        bytes.last() != 0x27 ==> parsed_message(bytes) is None,
        parsed_message(bytes) matches Some(segs) ==> segs.len() > 0,
{
    if parsed_message(bytes) is Some {
        lemma_segments_end(bytes, 0);
    }
}

} // verus!
