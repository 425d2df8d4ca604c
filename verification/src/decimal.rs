//! Decimal amounts.
//!
//! An amount is a sign, a magnitude below 2^96 and a scale of at most 28 decimal
//! places. Zero may carry a sign.

use std::str::FromStr;

use vstd::arithmetic::power::pow;
use vstd::prelude::*;
use vstd::string::*;

use crate::numbers::{
    decimal, decimal_string, digits_value, law_decimal_read, lemma_padded_number, padded,
    padded_string,
};
use crate::text::{all_digits, is_digit, push_char};

verus! {

/// The bound on magnitudes: 2^96.
pub const MAGNITUDE_LIMIT: u128 = 0x1_0000_0000_0000_0000_0000_0000;

pub const MAX_SCALE: u32 = 28;

/// An amount as a value: `magnitude / 10^scale`, negated where `negative`.
pub struct Amount {
    pub negative: bool,
    pub magnitude: nat,
    pub scale: nat,
}

/// The amounts that can be held.
pub open spec fn valid_amount(a: Amount) -> bool {
    a.magnitude < MAGNITUDE_LIMIT && a.scale <= MAX_SCALE
}

pub open spec fn zero_amount() -> Amount {
    Amount { negative: false, magnitude: 0, scale: 0 }
}

/// The amount with its sign turned round.
pub open spec fn negated(a: Amount) -> Amount {
    Amount { negative: !a.negative, ..a }
}

/// How an amount is written: the whole part, and behind a point as many places
/// as the scale says.
pub open spec fn amount_text(a: Amount) -> Seq<char> {
    let unit = pow(10, a.scale) as nat;
    let sign = if a.negative { seq!['-'] } else { Seq::<char>::empty() };
    let whole = decimal(a.magnitude / unit);
    let places = if a.scale > 0 {
        seq!['.'] + padded(a.magnitude % unit, a.scale)
    } else {
        Seq::<char>::empty()
    };
    sign + whole + places
}

/// A decimal amount.
#[derive(Debug, Clone, Copy)]
pub struct Decimal {
    negative: bool,
    magnitude: u128,
    scale: u32,
}

impl View for Decimal {
    type V = Amount;

    closed spec fn view(&self) -> Amount {
        Amount {
            negative: self.negative,
            magnitude: self.magnitude as nat,
            scale: self.scale as nat,
        }
    }
}

/// An optional amount as a value.
pub open spec fn opt_amount_view(d: Option<Decimal>) -> Option<Amount> {
    match d {
        Some(x) => Some(x@),
        None => None,
    }
}

impl Decimal {
    #[verifier::type_invariant]
    spec fn valid(self) -> bool {
        valid_amount(self@)
    }

    /// The amount with these parts, if it can be held.
    pub fn from_parts(negative: bool, magnitude: u128, scale: u32) -> (res: Option<Decimal>)
        ensures
            opt_amount_view(res) == ({
                let a = Amount { negative, magnitude: magnitude as nat, scale: scale as nat };
                if valid_amount(a) {
                    Some(a)
                } else {
                    None
                }
            }),
    {
        if magnitude < MAGNITUDE_LIMIT && scale <= MAX_SCALE {
            Some(Decimal { negative, magnitude, scale })
        } else {
            None
        }
    }

    pub fn zero() -> (d: Decimal)
        ensures
            d@ == zero_amount(),
    {
        Decimal { negative: false, magnitude: 0, scale: 0 }
    }

    pub fn is_negative(&self) -> (b: bool)
        ensures
            b == self@.negative,
    {
        self.negative
    }

    pub fn magnitude(&self) -> (m: u128)
        ensures
            m == self@.magnitude,
    {
        self.magnitude
    }

    pub fn scale(&self) -> (s: u32)
        ensures
            s == self@.scale,
    {
        self.scale
    }

    /// The amount with its sign turned round.
    pub fn negate(&self) -> (d: Decimal)
        ensures
            d@ == negated(self@),
    {
        proof {
            use_type_invariant(self);
        }
        Decimal { negative: !self.negative, magnitude: self.magnitude, scale: self.scale }
    }

    /// Writes the amount.
    pub fn to_text(&self) -> (s: String)
        ensures
            s@ == amount_text(self@),
    {
        proof {
            use_type_invariant(self);
        }
        let unit: u128 = power_of_ten(self.scale);
        let mut s = String::new();
        if self.negative {
            push_char(&mut s, '-');
        }
        s.append(decimal_string(self.magnitude / unit).as_str());
        if self.scale > 0 {
            push_char(&mut s, '.');
            s.append(padded_string(self.magnitude % unit, self.scale as usize).as_str());
        }
        assert(s@ =~= amount_text(self@));
        s
    }
}

fn power_of_ten(n: u32) -> (p: u128)
    requires
        n <= MAX_SCALE,
    ensures
        p == pow(10, n as nat),
        p > 0,
{
    let mut p: u128 = 1;
    let mut i: u32 = 0;
    proof {
        vstd::arithmetic::power::lemma_pow0(10);
    }
    while i < n
        invariant
            i <= n <= MAX_SCALE,
            p == pow(10, i as nat),
            0 < p,
        decreases n - i,
    {
        proof {
            vstd::arithmetic::power::lemma_pow_adds(10, 1, i as nat);
            vstd::arithmetic::power::lemma_pow1(10);
            vstd::arithmetic::power::lemma_pow_increases(10, (i + 1) as nat, 28);
            assert(pow(10, 28) == 10000000000000000000000000000int) by {
                reveal(pow);
                reveal_with_fuel(pow, 30);
            }
        }
        p = p * 10;
        i += 1;
    }
    p
}

// ---- Reading amounts ----

/// What rust_decimal reads from a text, as sign, magnitude and scale.
pub uninterp spec fn rust_decimal_parsed(s: Seq<char>) -> Option<(bool, nat, nat)>;

/// The amount that a text states.
pub open spec fn parsed_amount(s: Seq<char>) -> Option<Amount> {
    match rust_decimal_parsed(s) {
        Some((negative, magnitude, scale)) => Some(Amount { negative, magnitude, scale }),
        None => None,
    }
}

/// Plain notation that surely fits: digits, a point, digits; 28 digits at most.
pub open spec fn plain_notation(whole: Seq<char>, places: Seq<char>) -> bool {
    &&& all_digits(whole) && all_digits(places)
    &&& 0 < whole.len() && 0 < places.len()
    &&& whole.len() + places.len() <= 28
}

/// Parts that an amount can have.
pub open spec fn held_parts(p: (bool, u128, u32)) -> bool {
    p.1 < MAGNITUDE_LIMIT && p.2 <= MAX_SCALE
}

/// Plain notation is read as it stands.
pub open spec fn reads_plain_notation(s: Seq<char>, res: Option<(bool, u128, u32)>) -> bool {
    forall|whole: Seq<char>, places: Seq<char>|
        #![trigger plain_notation(whole, places)]
        plain_notation(whole, places) && s == whole + seq!['.'] + places ==> {
            &&& res matches Some(r)
            &&& !r.0
            &&& r.1 == digits_value(whole + places)
            &&& r.2 == places.len()
        }
}

/// Reads an amount.
///
/// Trusted: `Decimal::from_str` of rust_decimal depends on the text alone and
/// gives a magnitude below 2^96 and at most 28 decimal places. Digits, a point
/// and digits, 28 digits at most in all, are read as they stand, and the number
/// of digits behind the point is the scale. What it makes of other texts (signs,
/// underscores, exponents, rounding) has only a name here.
#[verifier::external_body]
fn read_parts(s: &str) -> (res: Option<(bool, u128, u32)>)
    ensures
        match res {
            Some(r) => rust_decimal_parsed(s@) == Some((r.0, r.1 as nat, r.2 as nat)),
            None => rust_decimal_parsed(s@) is None,
        },
        res matches Some(r) ==> held_parts(r),
        reads_plain_notation(s@, res),
{
    match rust_decimal::Decimal::from_str(s) {
        Ok(d) => Some((d.is_sign_negative(), d.mantissa().unsigned_abs(), d.scale())),
        Err(_) => None,
    }
}

/// Reads an amount.
pub fn parse_amount(s: &str) -> (res: Option<Decimal>)
    ensures
        opt_amount_view(res) == parsed_amount(s@),
        forall|whole: Seq<char>, places: Seq<char>|
            #![trigger plain_notation(whole, places)]
            plain_notation(whole, places) && s@ == whole + seq!['.'] + places ==> opt_amount_view(
                res,
            ) == Some(
                Amount {
                    negative: false,
                    magnitude: digits_value(whole + places),
                    scale: places.len(),
                },
            ),
{
    match read_parts(s) {
        Some(r) => Decimal::from_parts(r.0, r.1, r.2),
        None => None,
    }
}

// ---- Multiplying ----

/// What rust_decimal makes of a product; `None` where it overflows.
pub uninterp spec fn rust_decimal_product(
    a_negative: bool,
    a_magnitude: nat,
    a_scale: nat,
    b_negative: bool,
    b_magnitude: nat,
    b_scale: nat,
) -> Option<(bool, nat, nat)>;

/// The product of two amounts; `None` where it cannot be held.
pub open spec fn product(a: Amount, b: Amount) -> Option<Amount> {
    match rust_decimal_product(
        a.negative,
        a.magnitude,
        a.scale,
        b.negative,
        b.magnitude,
        b.scale,
    ) {
        Some((negative, magnitude, scale)) => Some(Amount { negative, magnitude, scale }),
        None => None,
    }
}

/// The product that needs no rounding.
pub open spec fn exact_product(a: Amount, b: Amount) -> Amount {
    if a.magnitude == 0 || b.magnitude == 0 {
        zero_amount()
    } else {
        Amount {
            negative: a.negative != b.negative,
            magnitude: a.magnitude * b.magnitude,
            scale: a.scale + b.scale,
        }
    }
}

/// A product that needs no rounding is exact.
pub open spec fn multiplies_exactly(
    a: (bool, u128, u32),
    b: (bool, u128, u32),
    res: Option<(bool, u128, u32)>,
) -> bool {
    &&& a.1 == 0 || b.1 == 0 ==> res == Some((false, 0u128, 0u32))
    &&& (a.1 > 0 && b.1 > 0 && a.1 * b.1 < MAGNITUDE_LIMIT && a.2 + b.2 <= MAX_SCALE) ==> {
        &&& res matches Some(r)
        &&& r.0 == (a.0 != b.0)
        &&& r.1 == a.1 * b.1
        &&& r.2 == a.2 + b.2
    }
}

/// Multiplies two amounts.
///
/// Trusted: `Decimal::checked_mul` of rust_decimal depends on its operands
/// alone. A product that fits in 96 bits and 28 places is exact, and one with a
/// zero is plain zero. How a longer one is rounded, and when it overflows, has
/// only a name here.
#[verifier::external_body]
fn multiply_parts(a: (bool, u128, u32), b: (bool, u128, u32)) -> (res: Option<(bool, u128, u32)>)
    requires
        held_parts(a),
        held_parts(b),
    ensures
        match res {
            Some(r) => rust_decimal_product(
                a.0,
                a.1 as nat,
                a.2 as nat,
                b.0,
                b.1 as nat,
                b.2 as nat,
            ) == Some((r.0, r.1 as nat, r.2 as nat)),
            None => rust_decimal_product(
                a.0,
                a.1 as nat,
                a.2 as nat,
                b.0,
                b.1 as nat,
                b.2 as nat,
            ) is None,
        },
        res matches Some(r) ==> held_parts(r),
        multiplies_exactly(a, b, res),
{
    let mut x = rust_decimal::Decimal::from_i128_with_scale(a.1 as i128, a.2);
    x.set_sign_negative(a.0);
    let mut y = rust_decimal::Decimal::from_i128_with_scale(b.1 as i128, b.2);
    y.set_sign_negative(b.0);
    match x.checked_mul(y) {
        Some(d) => Some((d.is_sign_negative(), d.mantissa().unsigned_abs(), d.scale())),
        None => None,
    }
}

impl Decimal {
    /// The product, or `None` where it overflows.
    pub fn checked_mul(&self, other: &Decimal) -> (res: Option<Decimal>)
        ensures
            opt_amount_view(res) == product(self@, other@),
            self@.magnitude * other@.magnitude < MAGNITUDE_LIMIT && self@.scale + other@.scale
                <= MAX_SCALE ==> opt_amount_view(res) == Some(exact_product(self@, other@)),
    {
        proof {
            use_type_invariant(self);
            use_type_invariant(other);
            vstd::arithmetic::mul::lemma_mul_nonzero(
                self.magnitude as int,
                other.magnitude as int,
            );
            vstd::arithmetic::mul::lemma_mul_nonnegative(
                self.magnitude as int,
                other.magnitude as int,
            );
        }
        match multiply_parts(
            (self.negative, self.magnitude, self.scale),
            (other.negative, other.magnitude, other.scale),
        ) {
            Some(r) => Decimal::from_parts(r.0, r.1, r.2),
            None => None,
        }
    }
}

// ---- Laws ----

/// Turning the sign round changes the sign and nothing else.
pub proof fn law_negated(a: Amount)
    ensures
        negated(a).negative != a.negative,
        negated(a).magnitude == a.magnitude,
        negated(a).scale == a.scale,
{
}

proof fn lemma_joined_digits(a: Seq<char>, b: Seq<char>)
    requires
        all_digits(b),
    ensures
        digits_value(a + b) == digits_value(a) * pow(10, b.len()) + digits_value(b),
    decreases b.len(),
{
    if b.len() == 0 {
        assert(a + b =~= a);
        vstd::arithmetic::power::lemma_pow0(10);
    } else {
        let c = b.drop_last();
        assert(is_digit(b.last()));
        assert forall|i: int| 0 <= i < c.len() implies is_digit(#[trigger] c[i]) by {
            assert(is_digit(b[i]));
        }
        lemma_joined_digits(a, c);
        assert((a + b).drop_last() =~= a + c);
        assert((a + b).last() == b.last());
        vstd::arithmetic::power::lemma_pow_adds(10, 1, c.len());
        vstd::arithmetic::power::lemma_pow1(10);
        let x = digits_value(a) as int;
        let u = pow(10, c.len());
        assert(pow(10, b.len()) == 10 * u);
        assert((x * u) * 10 == x * (10 * u)) by (nonlinear_arith);
    }
}

proof fn lemma_digit_count(n: nat, k: nat)
    requires
        n < pow(10, k),
        k > 0,
    ensures
        decimal(n).len() <= k,
    decreases k,
{
    if n >= 10 {
        vstd::arithmetic::power::lemma_pow1(10);
        if k > 1 {
            vstd::arithmetic::power::lemma_pow_adds(10, 1, (k - 1) as nat);
            lemma_digit_count(n / 10, (k - 1) as nat);
        }
    }
}

/// An amount is written as its sign, the whole part and, behind a point, as many
/// places as its scale says. The digits together are its magnitude, so reading
/// plain notation gives the amount again.
pub proof fn law_amount_written(a: Amount)
    ensures
        exists|whole: Seq<char>, places: Seq<char>| #[trigger]
            written_as(a, whole, places) && amount_text(a) == (if a.negative {
                seq!['-']
            } else {
                Seq::empty()
            }) + whole + (if a.scale > 0 {
                seq!['.'] + places
            } else {
                Seq::empty()
            }),
{
    let unit = pow(10, a.scale);
    vstd::arithmetic::power::lemma_pow_positive(10, a.scale);
    let whole = decimal(a.magnitude / (unit as nat));
    let rest = a.magnitude % (unit as nat);
    let places = if a.scale > 0 { padded(rest, a.scale) } else { Seq::empty() };
    law_decimal_read(a.magnitude / (unit as nat));
    if a.scale > 0 {
        lemma_digit_count(rest, a.scale);
        lemma_padded_number(rest, a.scale);
        lemma_joined_digits(whole, places);
        vstd::arithmetic::div_mod::lemma_fundamental_div_mod(a.magnitude as int, unit);
        assert((a.magnitude as int / unit) * unit == unit * (a.magnitude as int / unit))
            by (nonlinear_arith);
    } else {
        vstd::arithmetic::power::lemma_pow0(10);
        assert(whole + places =~= whole);
    }
    assert(written_as(a, whole, places));
    assert(amount_text(a) =~= (if a.negative {
        seq!['-']
    } else {
        Seq::empty()
    }) + whole + (if a.scale > 0 {
        seq!['.'] + places
    } else {
        Seq::empty()
    }));
}

/// Digits in front of and behind a point that make up an amount.
pub open spec fn written_as(a: Amount, whole: Seq<char>, places: Seq<char>) -> bool {
    &&& all_digits(whole) && whole.len() > 0
    &&& all_digits(places) && places.len() == a.scale
    &&& digits_value(whole + places) == a.magnitude
}

} // verus!
