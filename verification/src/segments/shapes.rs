//! What the codes that have no fixed place look like.

use vstd::prelude::*;
use vstd::utf8::*;

use crate::element::{element_at, element_text, text_at, Group};
use crate::numbers::{decimal, law_decimal_read};
use crate::segments::recognized::lemma_up_to_prefix;
use crate::segments::response::{
    accounts_up_to, amount_like, bic_like, currency_like, first_bic, first_iban, hipins_rules,
    hiupd_account, iban_like, isin_like, rules_from, rules_up_to, states_rule, wkn_like,
};
use crate::text::{byte_len, has_prefix, is_alnum, is_digit, is_upper};

verus! {

// ---- Characters ----

/// Capital letters of ASCII.
pub open spec fn capitals(s: Seq<char>) -> bool {
    forall|i: int| 0 <= i < s.len() ==> 'A' <= #[trigger] s[i] <= 'Z'
}

/// Letters of ASCII.
pub open spec fn letters(s: Seq<char>) -> bool {
    forall|i: int|
        0 <= i < s.len() ==> 'A' <= #[trigger] s[i] <= 'Z' || 'a' <= s[i] <= 'z'
}

/// Digits of ASCII.
pub open spec fn numerals(s: Seq<char>) -> bool {
    forall|i: int| 0 <= i < s.len() ==> '0' <= #[trigger] s[i] <= '9'
}

/// Letters and digits of ASCII.
pub open spec fn letters_digits(s: Seq<char>) -> bool {
    forall|i: int|
        0 <= i < s.len() ==> 'A' <= #[trigger] s[i] <= 'Z' || 'a' <= s[i] <= 'z' || '0' <= s[i]
            <= '9'
}

// ---- Codes ----

/// What looks like an IBAN is a country of two capital letters, two check digits,
/// and eleven to thirty letters and digits.
pub proof fn law_iban_shape(country: Seq<char>, check: Seq<char>, rest: Seq<char>)
    requires
        country.len() == 2,
        check.len() == 2,
    ensures
        iban_like(country + check + rest) <==> {
            &&& capitals(country) && numerals(check) && letters_digits(rest)
            &&& 11 <= rest.len() <= 30
        },
{
    let s = country + check + rest;
    assert(s.skip(4) =~= rest);
    assert(s[0] == country[0] && s[1] == country[1] && s[2] == check[0] && s[3] == check[1]);
    if iban_like(s) {
        assert forall|i: int| 0 <= i < rest.len() implies is_alnum(#[trigger] rest[i]) by {
            assert(s.skip(4)[i] == rest[i]);
        }
    }
}

/// What looks like a BIC is six letters and two or five letters and digits.
pub proof fn law_bic_shape(bank: Seq<char>, rest: Seq<char>)
    requires
        bank.len() == 6,
    ensures
        bic_like(bank + rest) <==> {
            &&& letters(bank) && letters_digits(rest)
            &&& rest.len() == 2 || rest.len() == 5
        },
{
    let s = bank + rest;
    assert(s.take(6) =~= bank);
    assert(s.skip(6) =~= rest);
}

/// What looks like an ISIN is a country of two capital letters, nine letters and
/// digits, and a check digit.
pub proof fn law_isin_shape(country: Seq<char>, body: Seq<char>, check: char)
    requires
        country.len() == 2,
    ensures
        isin_like(country + body + seq![check]) <==> {
            &&& capitals(country) && letters_digits(body) && '0' <= check <= '9'
            &&& body.len() == 9
        },
{
    let s = country + body + seq![check];
    assert(s[0] == country[0] && s[1] == country[1]);
    assert(s.skip(2) =~= body.push(check));
    if isin_like(s) {
        assert forall|i: int| 0 <= i < body.len() implies is_alnum(#[trigger] body[i]) by {
            assert(s.skip(2)[i] == body[i]);
        }
    }
    if body.len() == 9 {
        assert(s[11] == check);
        if letters_digits(body) && '0' <= check <= '9' {
            let t = s.skip(2);
            assert forall|i: int| 0 <= i < t.len() implies is_alnum(#[trigger] t[i]) by {
                if i < 9 {
                    assert(t[i] == body[i]);
                }
            }
        }
    }
}

/// Codes that are too short look like nothing.
pub proof fn law_short_shapes(s: Seq<char>)
    ensures
        s.len() < 15 || s.len() > 34 ==> !iban_like(s),
        s.len() != 8 && s.len() != 11 ==> !bic_like(s),
        s.len() != 12 ==> !isin_like(s),
{
}

/// What looks like a WKN is six letters and digits, and what looks like a currency
/// three capital letters.
pub proof fn law_wkn_currency_shape(s: Seq<char>)
    ensures
        wkn_like(s) <==> s.len() == 6 && letters_digits(s),
        currency_like(s) <==> s.len() == 3 && capitals(s),
{
    if s.len() == 3 && capitals(s) {
        assert forall|i: int| 0 <= i < s.len() implies is_upper(#[trigger] s[i]) by {}
    }
}

/// What looks like an amount has a comma, whatever else it has, or is made of
/// digits and points. Numbers look like amounts.
pub proof fn law_amount_shape(a: Seq<char>, b: Seq<char>, n: nat, other: char)
    ensures
        amount_like(a + seq![','] + b),
        amount_like(decimal(n)),
        !a.contains(',') && !b.contains(',') && other != ',' && other != '.' && !('0' <= other
            <= '9') ==> !amount_like(a + seq![other] + b),
        !amount_like(Seq::<char>::empty()),
{
    assert((a + seq![','] + b)[a.len() as int] == ',');
    law_decimal_read(n);
    assert forall|i: int| 0 <= i < decimal(n).len() implies is_digit(#[trigger] decimal(n)[i]) by {}
    let s = a + seq![other] + b;
    if !a.contains(',') && !b.contains(',') && other != ',' && other != '.' && !('0' <= other
        <= '9') {
        assert forall|i: int| 0 <= i < s.len() implies #[trigger] s[i] != ',' by {
            if i < a.len() {
                assert(a.contains(a[i]));
                assert(s[i] == a[i]);
            } else if i > a.len() {
                assert(b.contains(b[i - a.len() - 1]));
                assert(s[i] == b[i - a.len() - 1]);
            }
        }
        assert(s[a.len() as int] == other);
    }
}

// ---- Accounts ----

proof fn lemma_none_found(seg: Seq<Group>, i: int)
    requires
        0 <= i,
    ensures
        (forall|j: int| i <= j < seg.len() ==> !iban_like(#[trigger] text_at(seg, j, 0)))
            ==> first_iban(seg, i).len() == 0,
        (forall|j: int| i <= j < seg.len() ==> !bic_like(#[trigger] text_at(seg, j, 0)))
            ==> first_bic(seg, i).len() == 0,
    decreases seg.len() - i,
{
    if i < seg.len() {
        lemma_none_found(seg, i + 1);
        assert(text_at(seg, i, 0) == text_at(seg, i, 0));
    }
}

/// An account has no IBAN and no BIC where nothing looks like one, and neither
/// owner nor product where none is stated.
pub proof fn law_account_lacks(seg: Seq<Group>)
    ensures
        hiupd_account(seg) matches Some(a) ==> {
            &&& (forall|j: int| 1 <= j < seg.len() ==> !iban_like(#[trigger] text_at(seg, j, 0)))
                ==> a.iban.len() == 0
            &&& (forall|j: int| 2 <= j < seg.len() ==> !bic_like(#[trigger] text_at(seg, j, 0)))
                ==> a.bic.len() == 0
            &&& text_at(seg, 6, 0).len() == 0 && text_at(seg, 7, 0).len() == 0 ==> a.owner is None
            &&& text_at(seg, 8, 0).len() == 0 && text_at(seg, 9, 0).len() == 0 ==> a.product_name
                is None
        },
{
    lemma_none_found(seg, 1);
    lemma_none_found(seg, 2);
}

/// A DEG that states no IBAN, or has less than two elements, adds no account.
pub proof fn law_no_account(seg: Seq<Group>, g: Group)
    requires
        seg.len() >= 1,
        ({
            let first = element_text(element_at(g, 0));
            ||| g.len() < 2
            ||| first.len() == 0
            ||| (first == "J"@ || first == "N"@) && element_text(element_at(g, 1)).len() == 0
        }),
    ensures
        accounts_up_to(seg.push(g), seg.len() as int + 1) == accounts_up_to(seg, seg.len() as int),
{
    reveal_strlit("J");
    reveal_strlit("N");
    lemma_up_to_prefix(seg.push(g), seg, seg.len() as int);
    assert(seg.push(g)[seg.len() as int] == g);
}

// ---- Rules ----

proof fn lemma_nothing_stated(g: Group, i: int, before: Map<Seq<char>, bool>)
    requires
        0 <= i,
        forall|j: int| 0 <= j < g.len() ==> !#[trigger] states_rule(g, j),
    ensures
        rules_from(g, i, before) == before,
    decreases g.len() - i,
{
    if i + 1 < g.len() {
        assert(!states_rule(g, i));
        lemma_nothing_stated(g, i + 1, before);
    }
}

/// A DEG states no rule where none of its texts is a segment type of five bytes
/// that starts with HK, and none where none of them is `J` or `N`.
pub proof fn law_rules_need_both(seg: Seq<Group>, g: Group)
    requires
        seg.len() >= 1,
        ({
            ||| forall|j: int|
                0 <= j < g.len() ==> {
                    let key = element_text(#[trigger] g[j]);
                    byte_len(key) != 5 || !has_prefix(key, "HK"@)
                }
            ||| forall|j: int|
                0 <= j < g.len() ==> element_text(#[trigger] g[j]) != "J"@ && element_text(g[j])
                    != "N"@
        }),
    ensures
        hipins_rules(seg.push(g)) == hipins_rules(seg),
{
    let n = seg.len() as int;
    reveal_strlit("J");
    reveal_strlit("N");
    assert forall|j: int| 0 <= j < g.len() implies !#[trigger] states_rule(g, j) by {
        assert(element_at(g, j) == g[j]);
        if j + 1 < g.len() {
            assert(element_at(g, j + 1) == g[j + 1]);
        } else {
            assert(element_text(element_at(g, j + 1)).len() == 0);
            assert("J"@.len() == 1 && "N"@.len() == 1);
        }
    }
    lemma_up_to_prefix(seg.push(g), seg, n);
    assert(seg.push(g)[n] == g);
    lemma_nothing_stated(g, 0, rules_up_to(seg, n));
}

} // verus!
