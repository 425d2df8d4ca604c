//! What is read from the response segments.

use vstd::prelude::*;

use crate::dates::{compact_date, Ymd};
use crate::decimal::{parsed_amount, Amount};
use crate::element::{
    bytes_at, element_at, element_text, group_at, text_at, type_of, version_of, Element, Group,
};
use crate::numbers::parsed_int;
use crate::segments::response::{
    accounts_up_to, bic_like, first_bic, first_iban, hikaz_bytes, hipins_rules, hisal_balance,
    hitan_parts, hitans_methods, hiupd_account, holdings_up_to, iban_like, media_up_to,
    methods_up_to, rules_from, rules_up_to,
};
use crate::text::{byte_len, has_prefix, replaced};
use crate::types::{AccountInfo, Balance, Method, Process};

verus! {

// ---- Amounts and dates ----

/// The amount that a text with a decimal comma states.
pub open spec fn reads_as(s: Seq<char>, a: Amount) -> bool {
    parsed_amount(replaced(s, ',', '.')) == Some(a)
}

/// The amount of a text behind a mark: `D` for a debit turns the sign round, and
/// nothing else changes.
pub open spec fn booked_as(mark: Seq<char>, s: Seq<char>, a: Option<Amount>) -> bool {
    match parsed_amount(replaced(s, ',', '.')) {
        Some(x) => {
            &&& a matches Some(y)
            &&& y.magnitude == x.magnitude
            &&& y.scale == x.scale
            &&& y.negative == (x.negative != (mark == "D"@))
        },
        None => a is None,
    }
}

/// The date that a text of eight bytes states.
pub open spec fn dated_as(s: Seq<char>, d: Option<Ymd>) -> bool {
    if byte_len(s) == 8 {
        d == compact_date(s)
    } else {
        d is None
    }
}

// ---- Balances ----

/// A balance is read where the booked one is complete and has an amount. The
/// pending one, the credit line and the available amount each stand in a DEG of
/// their own. A debit, booked or pending, is negative.
pub proof fn law_balance_read(seg: Seq<Group>, default_date: Ymd)
    ensures
        ({
            let amount = parsed_amount(replaced(text_at(seg, 4, 1), ',', '.'));
            match hisal_balance(seg, default_date) {
                Some(b) => {
                    &&& group_at(seg, 4).len() >= 3
                    &&& booked_as(text_at(seg, 4, 0), text_at(seg, 4, 1), Some(b.amount))
                    &&& group_at(seg, 5).len() >= 2 ==> booked_as(
                        text_at(seg, 5, 0),
                        text_at(seg, 5, 1),
                        b.pending_amount,
                    ) && dated_as(text_at(seg, 5, 3), b.pending_date)
                    &&& group_at(seg, 5).len() < 2 ==> b.pending_amount is None && b.pending_date
                        is None
                    &&& b.credit_line == (if group_at(seg, 6).len() > 0 {
                        parsed_amount(replaced(text_at(seg, 6, 0), ',', '.'))
                    } else {
                        None
                    })
                    &&& b.available == (if group_at(seg, 7).len() > 0 {
                        parsed_amount(replaced(text_at(seg, 7, 0), ',', '.'))
                    } else {
                        None
                    })
                    &&& dated_as(text_at(seg, 4, 3), Some(b.date)) || (dated_as(
                        text_at(seg, 4, 3),
                        None,
                    ) && b.date == default_date)
                    &&& text_at(seg, 4, 2).len() > 0 ==> b.currency == text_at(seg, 4, 2)
                    &&& text_at(seg, 4, 2).len() == 0 && text_at(seg, 3, 0).len() > 0
                        ==> b.currency == text_at(seg, 3, 0)
                    &&& text_at(seg, 4, 2).len() == 0 && text_at(seg, 3, 0).len() == 0
                        ==> b.currency == "EUR"@
                },
                None => group_at(seg, 4).len() < 3 || amount is None,
            }
        }),
{
}

/// The pending balance is read as the booked one is.
pub proof fn law_pending_as_booked(seg: Seq<Group>, default_date: Ymd)
    requires
        seg.len() > 5,
        seg[5] == seg[4],
    ensures
        hisal_balance(seg, default_date) matches Some(b) ==> {
            &&& b.pending_amount == Some(b.amount)
            &&& b.pending_date matches Some(d) ==> d == b.date
        },
{
}

/// Balances that differ in the mark alone have opposite signs and are otherwise
/// alike.
pub proof fn law_debit_credit(seg: Seq<Group>, rest: Group, default_date: Ymd)
    requires
        seg.len() > 4,
        rest.len() >= 2,
    ensures
        ({
            let credit = hisal_balance(
                seg.update(4, seq![Element::Text("C"@)] + rest),
                default_date,
            );
            let debit = hisal_balance(seg.update(4, seq![Element::Text("D"@)] + rest), default_date);
            match (credit, debit) {
                (Some(c), Some(d)) => {
                    &&& d.amount == (Amount { negative: !c.amount.negative, ..c.amount })
                    &&& d == (Balance { amount: d.amount, ..c })
                },
                (None, None) => true,
                _ => false,
            }
        }),
{
    reveal_strlit("C");
    reveal_strlit("D");
    assert("C"@[0] != "D"@[0]);
    let a = seg.update(4, seq![Element::Text("C"@)] + rest);
    let b = seg.update(4, seq![Element::Text("D"@)] + rest);
    assert(forall|i: int| i != 4 ==> group_at(a, i) == group_at(b, i));
    assert forall|j: int| j >= 1 implies element_at(group_at(a, 4), j) == element_at(
        group_at(b, 4),
        j,
    ) by {}
}

// ---- Transactions ----

/// Segments one list behind the other give the transactions of the first and then
/// those of the second.
pub proof fn law_transactions_joined(a: Seq<Seq<Group>>, b: Seq<Seq<Group>>, i: int)
    ensures
        hikaz_bytes(a + b, i) == hikaz_bytes(a, i) + hikaz_bytes(b, i),
    decreases b.len(),
{
    let all = a + b;
    if b.len() == 0 {
        assert(all =~= a);
        assert(hikaz_bytes(a, i) + Seq::<u8>::empty() =~= hikaz_bytes(a, i));
    } else {
        law_transactions_joined(a, b.drop_last(), i);
        assert(all.drop_last() =~= a + b.drop_last());
        assert(all.last() == b.last());
        assert(hikaz_bytes(all, i) =~= hikaz_bytes(a, i) + hikaz_bytes(b, i));
    }
}

/// One HIKAZ segment gives its bytes as they are; other segments give none.
pub proof fn law_transactions_of_one(seg: Seq<Group>, i: int)
    ensures
        type_of(seg) == "HIKAZ"@ && bytes_at(seg, i, 0) is Some ==> hikaz_bytes(seq![seg], i)
            == bytes_at(seg, i, 0)->0,
        type_of(seg) != "HIKAZ"@ || bytes_at(seg, i, 0) is None ==> hikaz_bytes(seq![seg], i).len()
            == 0,
{
    let segs = seq![seg];
    assert(segs.drop_last() =~= Seq::<Seq<Group>>::empty());
    assert(hikaz_bytes(segs.drop_last(), i) =~= Seq::<u8>::empty());
    if type_of(seg) == "HIKAZ"@ {
        if let Some(b) = bytes_at(seg, i, 0) {
            assert(hikaz_bytes(segs, i) =~= b);
        }
    }
}

// ---- TAN methods ----

/// The method that the DEG `g` of a HITANS segment of a version describes.
pub open spec fn describes_method(g: Group, version: int, m: Method) -> bool {
    let name = element_text(element_at(g, if version >= 6 { 3 } else { 2 }));
    let full = version >= 7 && g.len() >= 25;
    let number = |j: int, default: int|
        match parsed_int(element_text(element_at(g, j)), -0x8000_0000, 0x7fff_ffff) {
            Some(v) => v,
            None => default,
        };
    &&& m.security_function == element_text(element_at(g, 0))
    &&& m.hktan_version == version
    &&& name.len() > 0 ==> m.name == name
    &&& name.len() == 0 ==> m.name == "TAN-"@ + m.security_function
    &&& m.needs_tan_medium == (version >= 6 && (element_text(element_at(g, 13)) == "1"@
        || element_text(element_at(g, 13)) == "2"@))
    &&& m.is_decoupled == (full && element_text(element_at(g, 21)) == "J"@)
    &&& m.decoupled_max_polls == (if full { number(22, -1) } else { -1 })
    &&& m.wait_before_first_poll == (if full { number(23, 0) } else { 0 })
    &&& m.wait_before_next_poll == (if full { number(24, 0) } else { 0 })
    &&& names_process(element_text(element_at(g, 1)), m.tan_process)
}

/// The process that a code names; other codes are kept as they are.
pub open spec fn names_process(code: Seq<char>, p: Process) -> bool {
    match p {
        Process::Process1 => code == "1"@,
        Process::Process2 => code == "2"@,
        Process::Process3 => code == "3"@,
        Process::Process4 => code == "4"@,
        Process::ProcessS => code == "S"@,
        Process::Other(s) => s == code && code != "1"@ && code != "2"@ && code != "3"@ && code
            != "4"@ && code != "S"@,
    }
}

proof fn lemma_methods_prefix(a: Seq<Group>, b: Seq<Group>, n: int)
    requires
        n <= a.len(),
        n <= b.len(),
        version_of(a) == version_of(b),
        forall|i: int| 0 <= i < n ==> a[i] == b[i],
    ensures
        methods_up_to(a, n) == methods_up_to(b, n),
    decreases n,
{
    if n > 4 {
        lemma_methods_prefix(a, b, n - 1);
    }
}

/// Each DEG behind the fourth adds the method that it describes, in order; one of
/// less than three elements or without a security function adds none.
pub proof fn law_method_added(seg: Seq<Group>, g: Group)
    requires
        seg.len() >= 4,
    ensures
        ({
            let before = hitans_methods(seg);
            let after = hitans_methods(seg.push(g));
            if g.len() >= 3 && element_text(element_at(g, 0)).len() > 0 {
                &&& after.len() == before.len() + 1
                &&& after.drop_last() == before
                &&& describes_method(g, version_of(seg), after.last())
            } else {
                after == before
            }
        }),
{
    let all = seg.push(g);
    assert(group_at(all, 0) == group_at(seg, 0));
    lemma_methods_prefix(all, seg, seg.len() as int);
    assert(all[seg.len() as int] == g);
    reveal_strlit("1");
    reveal_strlit("2");
    if g.len() >= 3 && element_text(element_at(g, 0)).len() > 0 {
        assert(hitans_methods(all).drop_last() =~= hitans_methods(seg));
        assert("1"@.len() == 1 && "2"@.len() == 1);
    }
}

/// A segment without a fifth DEG offers no method.
pub proof fn law_no_methods(seg: Seq<Group>)
    requires
        seg.len() <= 4,
    ensures
        hitans_methods(seg).len() == 0,
{
}

// ---- Challenges and media ----

/// From version 6 on a HITAN segment states the task at DEG 2, the challenge at 4
/// and data for optical methods at 5, with DEG 3 in place of an empty text.
/// Before, it states the task at 2 and the challenge at 3.
pub proof fn law_challenge_read(seg: Seq<Group>)
    ensures
        ({
            let (task, challenge, optical) = hitan_parts(seg);
            if version_of(seg) >= 6 {
                &&& text_at(seg, 2, 0).len() > 0 ==> task == text_at(seg, 2, 0)
                &&& text_at(seg, 2, 0).len() == 0 ==> task == text_at(seg, 3, 0)
                &&& text_at(seg, 4, 0).len() > 0 ==> challenge == text_at(seg, 4, 0)
                &&& text_at(seg, 4, 0).len() == 0 ==> challenge == text_at(seg, 3, 0)
                &&& optical == bytes_at(seg, 5, 0)
            } else {
                task == text_at(seg, 2, 0) && challenge == text_at(seg, 3, 0) && optical is None
            }
        }),
{
}

pub proof fn lemma_up_to_prefix(a: Seq<Group>, b: Seq<Group>, n: int)
    requires
        n <= a.len(),
        n <= b.len(),
        forall|i: int| 0 <= i < n ==> a[i] == b[i],
    ensures
        media_up_to(a, n) == media_up_to(b, n),
        accounts_up_to(a, n) == accounts_up_to(b, n),
        rules_up_to(a, n) == rules_up_to(b, n),
        holdings_up_to(a, n) == holdings_up_to(b, n),
    decreases n,
{
    if n > 1 {
        lemma_up_to_prefix(a, b, n - 1);
    }
}

/// Each DEG behind the header adds the medium that it names at element 2, if the
/// medium is active and has a name.
pub proof fn law_medium_added(seg: Seq<Group>, g: Group)
    requires
        seg.len() >= 1,
    ensures
        ({
            let before = media_up_to(seg, seg.len() as int);
            let after = media_up_to(seg.push(g), seg.len() as int + 1);
            let status = element_text(element_at(g, 0));
            let name = element_text(element_at(g, 2));
            if (status == "A"@ || status == "1"@) && name.len() > 0 {
                after == before.push(name)
            } else {
                after == before
            }
        }),
{
    lemma_up_to_prefix(seg.push(g), seg, seg.len() as int);
}

// ---- Accounts ----

/// Each DEG behind the header of a HISPA segment adds the account that it states:
/// IBAN, BIC, account number, sub-account, country and Bankleitzahl, with or
/// without `J` or `N` in front.
pub proof fn law_account_added(
    seg: Seq<Group>,
    iban: Seq<char>,
    bic: Seq<char>,
    account: Seq<char>,
    sub: Seq<char>,
    country: Seq<char>,
    blz: Seq<char>,
    flag: bool,
)
    requires
        seg.len() >= 1,
        iban.len() > 0,
        iban != "J"@,
        iban != "N"@,
    ensures
        ({
            let g = seq![
                Element::Text(iban),
                Element::Text(bic),
                Element::Text(account),
                Element::Text(sub),
                Element::Text(country),
                Element::Text(blz),
            ];
            let flagged = seq![Element::Text(if flag { "J"@ } else { "N"@ })] + g;
            let info = AccountInfo {
                iban,
                bic,
                account_number: account,
                sub_account: sub,
                blz,
                owner: None,
                product_name: None,
                currency: None,
            };
            let before = accounts_up_to(seg, seg.len() as int);
            &&& accounts_up_to(seg.push(g), seg.len() as int + 1) == before.push(info)
            &&& accounts_up_to(seg.push(flagged), seg.len() as int + 1) == before.push(info)
        }),
{
    let g = seq![
        Element::Text(iban),
        Element::Text(bic),
        Element::Text(account),
        Element::Text(sub),
        Element::Text(country),
        Element::Text(blz),
    ];
    let flagged = seq![Element::Text(if flag { "J"@ } else { "N"@ })] + g;
    lemma_up_to_prefix(seg.push(g), seg, seg.len() as int);
    lemma_up_to_prefix(seg.push(flagged), seg, seg.len() as int);
    assert(seg.push(g)[seg.len() as int] == g);
    assert(seg.push(flagged)[seg.len() as int] == flagged);
    assert(flagged[1] == g[0] && flagged[2] == g[1] && flagged[3] == g[2] && flagged[4] == g[3]
        && flagged[6] == g[5]);
}

proof fn lemma_first_found(seg: Seq<Group>, i: int, k: int)
    requires
        0 <= i <= k < seg.len(),
    ensures
        iban_like(text_at(seg, k, 0)) && (forall|j: int|
            i <= j < k ==> !iban_like(#[trigger] text_at(seg, j, 0))) ==> first_iban(seg, i)
            == text_at(seg, k, 0),
        bic_like(text_at(seg, k, 0)) && (forall|j: int|
            i <= j < k ==> !bic_like(#[trigger] text_at(seg, j, 0))) ==> first_bic(seg, i)
            == text_at(seg, k, 0),
    decreases k - i,
{
    if i < k {
        lemma_first_found(seg, i + 1, k);
        assert(text_at(seg, i, 0) == text_at(seg, i, 0));
    }
}

/// The account of a HIUPD segment has the first text that looks like an IBAN and,
/// behind DEG 1, the first that looks like a BIC.
pub proof fn law_account_codes(seg: Seq<Group>, k: int)
    requires
        seg.len() >= 3,
        1 <= k < seg.len(),
    ensures
        hiupd_account(seg) is Some,
        iban_like(text_at(seg, k, 0)) && (forall|j: int|
            1 <= j < k ==> !iban_like(#[trigger] text_at(seg, j, 0))) ==> hiupd_account(
            seg,
        )->0.iban == text_at(seg, k, 0),
        k >= 2 && bic_like(text_at(seg, k, 0)) && (forall|j: int|
            2 <= j < k ==> !bic_like(#[trigger] text_at(seg, j, 0))) ==> hiupd_account(seg)->0.bic
            == text_at(seg, k, 0),
{
    lemma_first_found(seg, 1, k);
    if k >= 2 {
        lemma_first_found(seg, 2, k);
    }
}

/// The other parts of the account stand at fixed places; owner and product at one
/// of two.
pub proof fn law_account_read(seg: Seq<Group>)
    ensures
        match hiupd_account(seg) {
            Some(a) => {
                &&& seg.len() >= 3
                &&& a.account_number == text_at(seg, 1, 0)
                &&& a.sub_account == text_at(seg, 1, 1)
                &&& a.blz == text_at(seg, 1, 3)
                &&& text_at(seg, 5, 0).len() > 0 ==> a.currency == Some(text_at(seg, 5, 0))
                &&& text_at(seg, 5, 0).len() == 0 ==> a.currency is None
                &&& text_at(seg, 6, 0).len() > 0 ==> a.owner == Some(text_at(seg, 6, 0))
                &&& text_at(seg, 6, 0).len() == 0 && text_at(seg, 7, 0).len() > 0 ==> a.owner
                    == Some(text_at(seg, 7, 0))
                &&& text_at(seg, 8, 0).len() > 0 ==> a.product_name == Some(text_at(seg, 8, 0))
                &&& text_at(seg, 8, 0).len() == 0 && text_at(seg, 9, 0).len() > 0
                    ==> a.product_name == Some(text_at(seg, 9, 0))
            },
            None => seg.len() < 3,
        },
{
}

// ---- Which operations need a TAN ----

proof fn lemma_rules_appended(
    g: Group,
    i: int,
    before: Map<Seq<char>, bool>,
    key: Seq<char>,
    need: bool,
)
    requires
        0 <= i <= g.len(),
        byte_len(key) == 5,
        has_prefix(key, "HK"@),
    ensures
        ({
            let all = g + seq![
                Element::Text(key),
                Element::Text(if need { "J"@ } else { "N"@ }),
            ];
            rules_from(all, i, before) == rules_from(g, i, before).insert(key, need)
        }),
    decreases g.len() - i,
{
    let val = if need { "J"@ } else { "N"@ };
    let all = g + seq![Element::Text(key), Element::Text(val)];
    let n = g.len() as int;
    reveal_strlit("J");
    reveal_strlit("N");
    reveal_strlit("HK");
    assert("J"@[0] != "N"@[0]);
    assert(key.len() >= 2);
    assert(all[n] == Element::Text(key));
    assert(all[n + 1] == Element::Text(val));
    if i == n {
        assert(rules_from(all, n + 2, before.insert(key, need)) == before.insert(key, need));
    } else {
        assert(all[i] == g[i]);
        if i + 1 < n {
            assert(all[i + 1] == g[i + 1]);
            if crate::segments::response::states_rule(g, i) {
                lemma_rules_appended(
                    g,
                    i + 2,
                    before.insert(
                        element_text(element_at(g, i)),
                        element_text(element_at(g, i + 1)) == "J"@,
                    ),
                    key,
                    need,
                );
            } else {
                lemma_rules_appended(g, i + 1, before, key, need);
            }
        } else {
            assert(key != "J"@ && key != "N"@);
            assert(!crate::segments::response::states_rule(all, i));
            lemma_rules_appended(g, i + 1, before, key, need);
        }
    }
}

/// A rule, which is the type of a business segment and `J` or `N`, holds for its
/// segment from where it stands on, whatever stands in front of it; it says
/// nothing of other segments.
pub proof fn law_rule_added(seg: Seq<Group>, g: Group, key: Seq<char>, need: bool)
    requires
        seg.len() >= 1,
        byte_len(key) == 5,
        has_prefix(key, "HK"@),
    ensures
        ({
            let rule = seq![Element::Text(key), Element::Text(if need { "J"@ } else { "N"@ })];
            hipins_rules(seg.push(g + rule)) == hipins_rules(seg.push(g)).insert(key, need)
        }),
{
    let rule = seq![Element::Text(key), Element::Text(if need { "J"@ } else { "N"@ })];
    let n = seg.len() as int;
    lemma_up_to_prefix(seg.push(g + rule), seg, n);
    lemma_up_to_prefix(seg.push(g), seg, n);
    assert(seg.push(g + rule)[n] == g + rule);
    assert(seg.push(g)[n] == g);
    lemma_rules_appended(g, 0, rules_up_to(seg, n), key, need);
}

/// A DEG of one element, or none, states no rule; neither does the header.
pub proof fn law_no_rule(seg: Seq<Group>, g: Group)
    requires
        seg.len() >= 1,
        g.len() <= 1,
    ensures
        hipins_rules(seg.push(g)) == hipins_rules(seg),
        seg.len() == 1 ==> hipins_rules(seg) == Map::<Seq<char>, bool>::empty(),
{
    let n = seg.len() as int;
    lemma_up_to_prefix(seg.push(g), seg, n);
    assert(seg.push(g)[n] == g);
}

} // verus!
