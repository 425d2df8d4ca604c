//! Decimal notation of whole numbers.

use vstd::prelude::*;

use crate::text::{all_digits, chars_of, digit_char, is_digit, push_char};

verus! {

// ---- Writing ----

/// The decimal digit of value `d`.
pub open spec fn digit(d: int) -> char {
    ('0' as u32 + d) as char
}

/// The decimal notation of `n`, without leading zeros.
pub open spec fn decimal(n: nat) -> Seq<char>
    decreases n,
{
    if n < 10 {
        seq![digit(n as int)]
    } else {
        decimal(n / 10).push(digit((n % 10) as int))
    }
}

pub open spec fn zeros(n: nat) -> Seq<char> {
    Seq::new(n, |i: int| '0')
}

/// The decimal notation of `n`, filled with leading zeros up to `width` characters.
pub open spec fn padded(n: nat, width: nat) -> Seq<char> {
    let d = decimal(n);
    if d.len() < width {
        zeros((width - d.len()) as nat) + d
    } else {
        d
    }
}

fn digit_of(d: u8) -> (c: char)
    requires
        d < 10,
    ensures
        c == digit(d as int),
{
    ('0' as u8 + d) as char
}

/// Writes a number in decimal notation.
pub fn decimal_string(n: u128) -> (s: String)
    ensures
        s@ == decimal(n as nat),
    decreases n,
{
    if n < 10 {
        let mut s = String::new();
        push_char(&mut s, digit_of(n as u8));
        assert(s@ =~= seq![digit(n as int)]);
        s
    } else {
        let mut s = decimal_string(n / 10);
        push_char(&mut s, digit_of((n % 10) as u8));
        s
    }
}

pub proof fn lemma_decimal_digits(n: nat)
    ensures
        decimal(n).len() >= 1,
        all_digits(decimal(n)),
    decreases n,
{
    if n >= 10 {
        lemma_decimal_digits(n / 10);
    }
}

/// Writes a number in decimal notation of at least `width` characters.
pub fn padded_string(n: u128, width: usize) -> (s: String)
    ensures
        s@ == padded(n as nat, width as nat),
{
    let d = decimal_string(n);
    let len: usize = chars_of(d.as_str()).len();
    if len >= width {
        return d;
    }
    let mut s = String::new();
    let mut i: usize = 0;
    while i < width - len
        invariant
            len < width,
            i <= width - len,
            s@ =~= zeros(i as nat),
        decreases width - len - i,
    {
        push_char(&mut s, '0');
        i += 1;
    }
    s.append(d.as_str());
    s
}

// ---- Reading ----

/// The number that a sequence of decimal digits denotes.
pub open spec fn digits_value(s: Seq<char>) -> nat
    decreases s.len(),
{
    if s.len() == 0 {
        0
    } else {
        digits_value(s.drop_last()) * 10 + (s.last() as u32 - '0' as u32) as nat
    }
}

/// The whole number between `lo` and `hi` that `s` denotes: digits behind an
/// optional sign. A minus sign is read only where negative numbers are.
pub open spec fn parsed_int(s: Seq<char>, lo: int, hi: int) -> Option<int> {
    let signed = s.len() > 0 && (s[0] == '+' || (s[0] == '-' && lo < 0));
    let body = if signed { s.skip(1) } else { s };
    if body.len() == 0 || !all_digits(body) {
        None
    } else {
        let v = if signed && s[0] == '-' { -digits_value(body) } else { digits_value(body) as int };
        if lo <= v <= hi {
            Some(v)
        } else {
            None
        }
    }
}

proof fn lemma_digits_value_step(s: Seq<char>, i: int)
    requires
        0 <= i < s.len(),
        is_digit(s[i]),
    ensures
        digits_value(s.take(i + 1)) == digits_value(s.take(i)) * 10 + (s[i] as u32 - '0' as u32),
{
    assert(s.take(i + 1).drop_last() =~= s.take(i));
}

/// Reads a whole number between `lo` and `hi`.
pub fn parse_int(s: &str, lo: i128, hi: i128) -> (res: Option<i128>)
    requires
        -0x1_0000_0000_0000_0000 <= lo <= hi <= 0x1_0000_0000_0000_0000,
    ensures
        match res {
            Some(v) => parsed_int(s@, lo as int, hi as int) == Some(v as int),
            None => parsed_int(s@, lo as int, hi as int) is None,
        },
{
    let cs: Vec<char> = chars_of(s);
    let signed: bool = cs.len() > 0 && (cs[0] == '+' || (cs[0] == '-' && lo < 0));
    let negative: bool = signed && cs[0] == '-';
    let start: usize = if signed { 1 } else { 0 };
    let ghost body = if signed { s@.skip(1) } else { s@ };
    assert(body =~= s@.skip(start as int));
    if cs.len() == start {
        return None;
    }
    let mut i: usize = start;
    let mut value: i128 = 0;
    let mut large: bool = false;
    assert(body.take(0) =~= Seq::<char>::empty());
    while i < cs.len()
        invariant
            start <= i <= cs@.len(),
            cs@ == s@,
            body == s@.skip(start as int),
            signed == (s@.len() > 0 && (s@[0] == '+' || (s@[0] == '-' && lo < 0))),
            body == (if signed { s@.skip(1) } else { s@ }),
            forall|j: int| 0 <= j < i - start ==> is_digit(body[j]),
            0 <= value <= 0x1_0000_0000_0000_0000,
            !large ==> value == digits_value(body.take(i - start)),
            large ==> digits_value(body.take(i - start)) > 0x1_0000_0000_0000_0000,
        decreases cs@.len() - i,
    {
        let c: char = cs[i];
        assert(body[i - start] == c);
        if !digit_char(c) {
            return None;
        }
        proof {
            lemma_digits_value_step(body, i - start);
            assert(body.take(i - start + 1) == body.take(i + 1 - start));
        }
        if !large {
            let next: i128 = value * 10 + (c as u8 - '0' as u8) as i128;
            if next > 0x1_0000_0000_0000_0000 {
                large = true;
            } else {
                value = next;
            }
        }
        i += 1;
    }
    assert(body.take(i - start) =~= body);
    assert(all_digits(body));
    if large {
        return None;
    }
    let v: i128 = if negative { -value } else { value };
    if lo <= v && v <= hi {
        Some(v)
    } else {
        None
    }
}

pub fn parse_u16(s: &str) -> (res: Option<u16>)
    ensures
        match res {
            Some(v) => parsed_int(s@, 0, u16::MAX as int) == Some(v as int),
            None => parsed_int(s@, 0, u16::MAX as int) is None,
        },
{
    match parse_int(s, 0, 0xffff) {
        Some(v) => Some(v as u16),
        None => None,
    }
}

pub fn parse_u32(s: &str) -> (res: Option<u32>)
    ensures
        match res {
            Some(v) => parsed_int(s@, 0, u32::MAX as int) == Some(v as int),
            None => parsed_int(s@, 0, u32::MAX as int) is None,
        },
{
    match parse_int(s, 0, 0xffff_ffff) {
        Some(v) => Some(v as u32),
        None => None,
    }
}

pub fn parse_i32(s: &str) -> (res: Option<i32>)
    ensures
        match res {
            Some(v) => parsed_int(s@, i32::MIN as int, i32::MAX as int) == Some(v as int),
            None => parsed_int(s@, i32::MIN as int, i32::MAX as int) is None,
        },
{
    match parse_int(s, -0x8000_0000, 0x7fff_ffff) {
        Some(v) => Some(v as i32),
        None => None,
    }
}

pub fn parse_usize(s: &str) -> (res: Option<usize>)
    ensures
        match res {
            Some(v) => parsed_int(s@, 0, usize::MAX as int) == Some(v as int),
            None => parsed_int(s@, 0, usize::MAX as int) is None,
        },
{
    match parse_int(s, 0, usize::MAX as i128) {
        Some(v) => Some(v as usize),
        None => None,
    }
}

// ---- Laws ----

/// A number is read from its notation.
pub proof fn law_decimal_read(n: nat)
    ensures
        digits_value(decimal(n)) == n,
        all_digits(decimal(n)),
        decimal(n).len() > 0,
        n >= 10 ==> decimal(n)[0] != '0',
    decreases n,
{
    let d = decimal(n);
    lemma_decimal_digits(n);
    if n < 10 {
        assert(d.drop_last() =~= Seq::<char>::empty());
        assert(digits_value(d.drop_last()) == 0);
        assert(d.last() == digit(n as int));
    } else {
        law_decimal_read(n / 10);
        assert(d.drop_last() =~= decimal(n / 10));
        assert(d.last() == digit((n % 10) as int));
        assert(d[0] == decimal(n / 10)[0]);
        if n / 10 < 10 {
            assert(decimal(n / 10)[0] == digit((n / 10) as int));
            lemma_digit_nonzero((n / 10) as int);
        }
    }
}

proof fn lemma_digit_nonzero(d: int)
    requires
        1 <= d <= 9,
    ensures
        digit(d) != '0',
{
}

proof fn lemma_zeros_in_front(k: nat, s: Seq<char>)
    ensures
        digits_value(zeros(k) + s) == digits_value(s),
    decreases k + s.len(),
{
    let t = zeros(k) + s;
    if s.len() > 0 {
        assert(t.drop_last() =~= zeros(k) + s.drop_last());
        assert(t.last() == s.last());
        lemma_zeros_in_front(k, s.drop_last());
    } else if k > 0 {
        assert(t.drop_last() =~= zeros((k - 1) as nat) + s);
        assert(t.last() == '0');
        lemma_zeros_in_front((k - 1) as nat, s);
    } else {
        assert(t =~= s);
    }
}

/// A number is read from its notation with leading zeros, which has the width
/// asked for unless the number needs more.
pub proof fn lemma_padded_number(n: nat, width: nat)
    ensures
        digits_value(padded(n, width)) == n,
        all_digits(padded(n, width)),
        padded(n, width).len() >= width,
        decimal(n).len() <= width ==> padded(n, width).len() == width,
{
    law_decimal_read(n);
    let d = decimal(n);
    if d.len() < width {
        lemma_zeros_in_front((width - d.len()) as nat, d);
    }
}

/// A sign may stand in front of digits, a minus only where negative numbers are
/// read; a number that does not fit is not read.
pub proof fn law_int_read(n: nat, lo: int, hi: int)
    ensures
        parsed_int(decimal(n), lo, hi) == (if lo <= n <= hi {
            Some(n as int)
        } else {
            None
        }),
        parsed_int(seq!['+'] + decimal(n), lo, hi) == parsed_int(decimal(n), lo, hi),
        parsed_int(seq!['-'] + decimal(n), lo, hi) == (if lo < 0 && lo <= -(n as int) <= hi {
            Some(-(n as int))
        } else {
            None
        }),
{
    law_decimal_read(n);
    let d = decimal(n);
    assert(is_digit(d[0]));
    assert((seq!['+'] + d).skip(1) =~= d);
    assert((seq!['-'] + d).skip(1) =~= d);
    let s = seq!['-'] + d;
    assert(!is_digit(s[0]));
}

/// A text without digits, or with a character that is none behind its sign, is no
/// number. Zeros in front do not matter.
pub proof fn law_no_int(s: Seq<char>, k: int, zeros_in_front: nat, n: nat, lo: int, hi: int)
    ensures
        s.len() == 0 ==> parsed_int(s, lo, hi) is None,
        0 <= k < s.len() && !('0' <= s[k] <= '9') && (k > 0 || (s[0] != '+' && s[0] != '-'))
            ==> parsed_int(s, lo, hi) is None,
        parsed_int(seq!['+'], lo, hi) is None && parsed_int(seq!['-'], lo, hi) is None,
        parsed_int(zeros(zeros_in_front) + decimal(n), lo, hi) == parsed_int(decimal(n), lo, hi),
{
    if 0 <= k < s.len() && !('0' <= s[k] <= '9') && (k > 0 || (s[0] != '+' && s[0] != '-')) {
        if k > 0 {
            assert(s.skip(1)[k - 1] == s[k]);
        }
        assert(!is_digit(s[k]));
    }
    assert(seq!['+'].skip(1) =~= Seq::<char>::empty());
    assert(seq!['-'].skip(1) =~= Seq::<char>::empty());
    assert(!is_digit(seq!['-'][0]));
    law_decimal_read(n);
    lemma_zeros_in_front(zeros_in_front, decimal(n));
    let t = zeros(zeros_in_front) + decimal(n);
    assert forall|i: int| 0 <= i < t.len() implies is_digit(#[trigger] t[i]) by {
        if i < zeros_in_front {
            assert(t[i] == '0');
        } else {
            assert(t[i] == decimal(n)[i - zeros_in_front]);
        }
    }
    assert(is_digit(t[0]) && is_digit(decimal(n)[0]));
}

} // verus!
