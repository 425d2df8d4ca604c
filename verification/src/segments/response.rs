//! Response segments: functions that read typed data from them.

use vstd::prelude::*;

use crate::codes::{clone_functions, kind_is_error, Code, Kind, ResponseCode, ResponseCodeKind};
use crate::dates::{
    calendar_date, compact_date, digits_ymd, iso_text, opt_date_view, parse_compact, today, Date,
    Ymd,
};
use crate::decimal::{
    amount_text, negated, opt_amount_view, parse_amount, parsed_amount, product, zero_amount,
    Amount, Decimal,
};
use crate::element::{
    bytes_at, element_at, element_bytes, element_text, group_at, group_views, opt_bytes_view,
    opt_text_at, read_binary, read_opt_str, read_str, read_u16, text_at, type_of, u16_or_zero,
    version_of, views, Element, Group, RawSegment, DEG,
};
use crate::ids::{
    opt_of, opt_ref_of, Bic, Blz, Currency, Iban, Isin, SecurityFunction, SegmentType,
    TouchdownPoint, Wkn,
};
use crate::numbers::{parse_i32, parsed_int};
use crate::text::{
    all_alnum, all_alpha, all_digits, all_upper, byte_len, chars_all_alnum, chars_all_alpha,
    chars_of, copy_bytes, digit_char, has_prefix, is_digit, is_upper, opt_view, push_bytes,
    replace_char, replaced, same_text, text_all_digits, text_all_upper, text_contains,
    text_has_prefix, upper_case_char, utf8_len,
};
use crate::types::{
    clone_text, process_of, AccountBalance, AccountInfo, Balance, Holding, Method, RawField, SecurityHolding,
    SepaAccount, TanMethod, TanProcess, TanRules,
};

verus! {

// ---- What texts look like ----

/// IBANs have 15 to 34 characters: a country code of two letters, two check
/// digits, and letters and digits.
pub open spec fn iban_like(s: Seq<char>) -> bool {
    &&& 15 <= s.len() <= 34
    &&& is_upper(s[0]) && is_upper(s[1])
    &&& is_digit(s[2]) && is_digit(s[3])
    &&& all_alnum(s.skip(4))
}

/// BICs have 8 or 11 characters: six letters for bank and country, letters and
/// digits for location and branch.
pub open spec fn bic_like(s: Seq<char>) -> bool {
    &&& s.len() == 8 || s.len() == 11
    &&& all_alpha(s.take(6))
    &&& all_alnum(s.skip(6))
}

/// ISINs have 12 characters: two capital letters, letters and digits, and a
/// check digit.
pub open spec fn isin_like(s: Seq<char>) -> bool {
    &&& s.len() == 12
    &&& is_upper(s[0]) && is_upper(s[1])
    &&& all_alnum(s.skip(2))
    &&& is_digit(s[11])
}

/// WKNs have 6 letters or digits.
pub open spec fn wkn_like(s: Seq<char>) -> bool {
    s.len() == 6 && all_alnum(s)
}

/// Currencies have 3 capital letters.
pub open spec fn currency_like(s: Seq<char>) -> bool {
    s.len() == 3 && all_upper(s)
}

/// Amounts hold a comma, or nothing but digits, commas and points.
pub open spec fn amount_like(s: Seq<char>) -> bool {
    s.contains(',') || (s.len() > 0 && forall|i: int|
        0 <= i < s.len() ==> is_digit(#[trigger] s[i]) || s[i] == ',' || s[i] == '.')
}

/// Whether a text looks like an IBAN.
pub fn looks_like_iban(s: &str) -> (r: bool)
    ensures
        r == iban_like(s@),
{
    let cs: Vec<char> = chars_of(s);
    if cs.len() < 15 || cs.len() > 34 {
        return false;
    }
    upper_case_char(cs[0]) && upper_case_char(cs[1]) && digit_char(cs[2]) && digit_char(cs[3])
        && chars_all_alnum(&cs, 4)
}

/// Whether a text looks like a BIC.
pub fn looks_like_bic(s: &str) -> (r: bool)
    ensures
        r == bic_like(s@),
{
    let cs: Vec<char> = chars_of(s);
    if cs.len() != 8 && cs.len() != 11 {
        return false;
    }
    chars_all_alpha(&cs, 6) && chars_all_alnum(&cs, 6)
}

/// Whether a text looks like an ISIN.
pub fn looks_like_isin(s: &str) -> (r: bool)
    ensures
        r == isin_like(s@),
{
    let cs: Vec<char> = chars_of(s);
    if cs.len() != 12 {
        return false;
    }
    upper_case_char(cs[0]) && upper_case_char(cs[1]) && chars_all_alnum(&cs, 2) && digit_char(
        cs[11],
    )
}

/// Whether a text looks like a WKN.
pub fn looks_like_wkn(s: &str) -> (r: bool)
    ensures
        r == wkn_like(s@),
{
    let cs: Vec<char> = chars_of(s);
    assert(cs@.skip(0) =~= s@);
    cs.len() == 6 && chars_all_alnum(&cs, 0)
}

fn looks_like_currency(s: &str) -> (r: bool)
    ensures
        r == currency_like(s@),
{
    chars_of(s).len() == 3 && text_all_upper(s)
}

fn looks_like_amount(s: &str) -> (r: bool)
    ensures
        r == amount_like(s@),
{
    if text_contains(s, ',') {
        return true;
    }
    let cs: Vec<char> = chars_of(s);
    let mut i: usize = 0;
    while i < cs.len()
        invariant
            i <= cs@.len(),
            cs@ == s@,
            !s@.contains(','),
            forall|j: int|
                0 <= j < i ==> is_digit(#[trigger] s@[j]) || s@[j] == ',' || s@[j] == '.',
        decreases cs@.len() - i,
    {
        let c: char = cs[i];
        if !(digit_char(c) || c == ',' || c == '.') {
            assert(!is_digit(s@[i as int]));
            return false;
        }
        i += 1;
    }
    cs.len() > 0
}

// ---- HITANS: TAN methods ----

/// DEGs that describe a method: three elements at least, and a security function.
pub open spec fn states_method(g: Group) -> bool {
    g.len() >= 3 && element_text(element_at(g, 0)).len() > 0
}

/// The number in element `j`, or `default`.
pub open spec fn i32_or(g: Group, j: int, default: int) -> int {
    match parsed_int(element_text(element_at(g, j)), i32::MIN as int, i32::MAX as int) {
        Some(v) => v,
        None => default,
    }
}

/// The method that a DEG describes. Its name stands at index 3 from version 6
/// on and at 2 before; a missing one is made from the security function. The
/// decoupled parameters come with version 7.
pub open spec fn method_in(version: int, g: Group) -> Method {
    let function = element_text(element_at(g, 0));
    let name = element_text(
        element_at(
            g,
            if version >= 6 {
                3
            } else {
                2
            },
        ),
    );
    let medium = element_text(element_at(g, 13));
    let decoupled = version >= 7 && g.len() > 24;
    Method {
        security_function: function,
        tan_process: process_of(element_text(element_at(g, 1))),
        name: if name.len() == 0 {
            "TAN-"@ + function
        } else {
            name
        },
        needs_tan_medium: version >= 6 && g.len() > 13 && (medium == "2"@ || medium == "1"@),
        decoupled_max_polls: if decoupled {
            i32_or(g, 22, -1)
        } else {
            -1
        },
        wait_before_first_poll: if decoupled {
            i32_or(g, 23, 0)
        } else {
            0
        },
        wait_before_next_poll: if decoupled {
            i32_or(g, 24, 0)
        } else {
            0
        },
        is_decoupled: decoupled && element_text(element_at(g, 21)) == "J"@,
        hktan_version: version,
    }
}

/// The methods in the DEGs from index 4 up to `n`.
pub open spec fn methods_up_to(seg: Seq<Group>, n: int) -> Seq<Method>
    decreases n,
{
    if n <= 4 {
        Seq::empty()
    } else {
        let before = methods_up_to(seg, n - 1);
        if states_method(seg[n - 1]) {
            before.push(method_in(version_of(seg), seg[n - 1]))
        } else {
            before
        }
    }
}

/// The methods that a HITANS segment offers.
pub open spec fn hitans_methods(seg: Seq<Group>) -> Seq<Method> {
    methods_up_to(seg, seg.len() as int)
}

fn read_i32(d: &DEG, j: usize, default: i32) -> (v: i32)
    ensures
        v as int == i32_or(d@, j as int, default as int),
{
    match parse_i32(d.get(j).as_str()) {
        Some(v) => v,
        None => default,
    }
}

fn read_method(version: u16, d: &DEG) -> (m: TanMethod)
    ensures
        m@ == method_in(version as int, d@),
{
    let security_function = d.get_str(0);
    let name = if version >= 6 { d.get_str(3) } else { d.get_str(2) };
    let needs_tan_medium: bool = version >= 6 && d.len() > 13 && (same_text(
        d.get(13).as_str(),
        "2",
    ) || same_text(d.get(13).as_str(), "1"));
    let decoupled: bool = version >= 7 && d.len() > 24;
    let display_name = if name.as_str().is_empty() {
        let mut s = "TAN-".to_string();
        s.append(security_function.as_str());
        s
    } else {
        name
    };
    TanMethod {
        security_function: SecurityFunction::new(security_function.as_str()),
        tan_process: TanProcess::from_str_val(d.get(1).as_str()),
        name: display_name,
        needs_tan_medium,
        decoupled_max_polls: if decoupled { read_i32(d, 22, -1) } else { -1 },
        wait_before_first_poll: if decoupled { read_i32(d, 23, 0) } else { 0 },
        wait_before_next_poll: if decoupled { read_i32(d, 24, 0) } else { 0 },
        is_decoupled: decoupled && same_text(d.get(21).as_str(), "J"),
        hktan_version: version,
    }
}

/// The TAN methods of a HITANS segment. Its DEGs are header, number of jobs,
/// number of signatures, security class, and the methods from index 4 on.
pub fn parse_hitans(seg: &RawSegment) -> (methods: Vec<TanMethod>)
    ensures
        views(methods@) == hitans_methods(seg@),
{
    broadcast use group_views;

    let version: u16 = seg.segment_version();
    let mut methods: Vec<TanMethod> = Vec::new();
    if seg.deg_count() <= 4 {
        return methods;
    }
    let mut i: usize = 4;
    while i < seg.deg_count()
        invariant
            4 <= i <= seg@.len(),
            version == version_of(seg@),
            views(methods@) == methods_up_to(seg@, i as int),
        decreases seg@.len() - i,
    {
        broadcast use group_views;

        let d = &seg.degs[i];
        assert(d@ == seg@[i as int]);
        if d.len() >= 3 && !d.get(0).as_str().is_empty() {
            methods.push(read_method(version, d));
        }
        i += 1;
    }
    methods
}

// ---- HITAN: TAN challenge ----

/// Task reference and challenge of a HITAN segment, with the data for optical
/// methods. From version 6 on the DEG behind stands in for an empty task
/// reference, and the DEG before for an empty challenge.
pub open spec fn hitan_parts(seg: Seq<Group>) -> (Seq<char>, Seq<char>, Option<Seq<u8>>) {
    if version_of(seg) >= 6 {
        let reference = text_at(seg, 2, 0);
        let challenge = text_at(seg, 4, 0);
        (
            if reference.len() == 0 {
                text_at(seg, 3, 0)
            } else {
                reference
            },
            if challenge.len() == 0 {
                text_at(seg, 3, 0)
            } else {
                challenge
            },
            bytes_at(seg, 5, 0),
        )
    } else {
        (text_at(seg, 2, 0), text_at(seg, 3, 0), None)
    }
}

/// Reads a HITAN segment: task reference, challenge, data for optical methods.
pub fn parse_hitan(seg: &RawSegment) -> (res: (String, String, Option<Vec<u8>>))
    ensures
        (res.0@, res.1@, opt_bytes_view(res.2)) == hitan_parts(seg@),
{
    if seg.segment_version() >= 6 {
        let reference = read_str(seg, 2, 0);
        let task_reference = if reference.as_str().is_empty() {
            read_str(seg, 3, 0)
        } else {
            reference
        };
        let challenge = read_str(seg, 4, 0);
        let challenge_text = if challenge.as_str().is_empty() {
            read_str(seg, 3, 0)
        } else {
            challenge
        };
        (task_reference, challenge_text, read_binary(seg, 5, 0))
    } else {
        (read_str(seg, 2, 0), read_str(seg, 3, 0), None)
    }
}

// ---- HITAB: TAN media ----

/// DEGs that name an active medium: `status:class:name`.
pub open spec fn names_medium(g: Group) -> bool {
    let status = element_text(element_at(g, 0));
    &&& g.len() >= 3
    &&& status == "A"@ || status == "1"@
    &&& element_text(element_at(g, 2)).len() > 0
}

/// The media in the DEGs from index 1 up to `n`.
pub open spec fn media_up_to(seg: Seq<Group>, n: int) -> Seq<Seq<char>>
    decreases n,
{
    if n <= 1 {
        Seq::empty()
    } else {
        let before = media_up_to(seg, n - 1);
        if names_medium(seg[n - 1]) {
            before.push(element_text(element_at(seg[n - 1], 2)))
        } else {
            before
        }
    }
}

/// The names of the active TAN media of a HITAB segment.
pub fn parse_hitab(seg: &RawSegment) -> (media: Vec<String>)
    ensures
        views(media@) == media_up_to(seg@, seg@.len() as int),
{
    broadcast use group_views;

    let mut media: Vec<String> = Vec::new();
    if seg.deg_count() <= 1 {
        return media;
    }
    let mut i: usize = 1;
    while i < seg.deg_count()
        invariant
            1 <= i <= seg@.len(),
            views(media@) == media_up_to(seg@, i as int),
        decreases seg@.len() - i,
    {
        broadcast use group_views;

        let d = &seg.degs[i];
        assert(d@ == seg@[i as int]);
        let status = d.get(0).as_str();
        if d.len() >= 3 && (same_text(status, "A") || same_text(status, "1")) && !d.get(
            2,
        ).as_str().is_empty() {
            media.push(d.get_str(2));
        }
        i += 1;
    }
    media
}

// ---- HISPA: SEPA accounts ----

/// Where the IBAN stands in an account DEG: behind `J` or `N` if it has one.
pub open spec fn sepa_offset(g: Group) -> int {
    let first = element_text(element_at(g, 0));
    if first == "J"@ || first == "N"@ {
        1
    } else {
        0
    }
}

/// The account of a DEG `[J:]IBAN:BIC:account:sub-account:country:BLZ`.
pub open spec fn sepa_account(g: Group) -> AccountInfo {
    let k = sepa_offset(g);
    AccountInfo {
        iban: element_text(element_at(g, k)),
        bic: element_text(element_at(g, k + 1)),
        account_number: element_text(element_at(g, k + 2)),
        sub_account: element_text(element_at(g, k + 3)),
        blz: element_text(element_at(g, k + 5)),
        owner: None,
        product_name: None,
        currency: None,
    }
}

/// DEGs that describe an account: two elements at least, and an IBAN.
pub open spec fn states_account(g: Group) -> bool {
    g.len() >= 2 && element_text(element_at(g, sepa_offset(g))).len() > 0
}

/// The accounts in the DEGs from index 1 up to `n`.
pub open spec fn accounts_up_to(seg: Seq<Group>, n: int) -> Seq<AccountInfo>
    decreases n,
{
    if n <= 1 {
        Seq::empty()
    } else {
        let before = accounts_up_to(seg, n - 1);
        if states_account(seg[n - 1]) {
            before.push(sepa_account(seg[n - 1]))
        } else {
            before
        }
    }
}

/// The accounts of a HISPA segment.
pub fn parse_hispa(seg: &RawSegment) -> (accounts: Vec<SepaAccount>)
    ensures
        views(accounts@) == accounts_up_to(seg@, seg@.len() as int),
{
    broadcast use group_views;

    let mut accounts: Vec<SepaAccount> = Vec::new();
    if seg.deg_count() <= 1 {
        return accounts;
    }
    let mut i: usize = 1;
    while i < seg.deg_count()
        invariant
            1 <= i <= seg@.len(),
            views(accounts@) == accounts_up_to(seg@, i as int),
        decreases seg@.len() - i,
    {
        broadcast use group_views;

        let d = &seg.degs[i];
        assert(d@ == seg@[i as int]);
        let first = d.get(0).as_str();
        let k: usize = if same_text(first, "J") || same_text(first, "N") { 1 } else { 0 };
        if d.len() >= 2 && !d.get(k).as_str().is_empty() {
            accounts.push(
                SepaAccount {
                    iban: Iban::new(d.get(k).as_str()),
                    bic: Bic::new(d.get(k + 1).as_str()),
                    account_number: d.get_str(k + 2),
                    sub_account: d.get_str(k + 3),
                    blz: Blz::new(d.get(k + 5).as_str()),
                    owner: None,
                    product_name: None,
                    currency: None,
                },
            );
        }
        i += 1;
    }
    accounts
}

// ---- HIUPD: user parameters of an account ----

/// The first DEG from `i` on that starts with an IBAN; empty where none does.
pub open spec fn first_iban(seg: Seq<Group>, i: int) -> Seq<char>
    decreases seg.len() - i,
{
    if i >= seg.len() {
        Seq::empty()
    } else if iban_like(text_at(seg, i, 0)) {
        text_at(seg, i, 0)
    } else {
        first_iban(seg, i + 1)
    }
}

/// The first DEG from `i` on that starts with a BIC; empty where none does.
pub open spec fn first_bic(seg: Seq<Group>, i: int) -> Seq<char>
    decreases seg.len() - i,
{
    if i >= seg.len() {
        Seq::empty()
    } else if bic_like(text_at(seg, i, 0)) {
        text_at(seg, i, 0)
    } else {
        first_bic(seg, i + 1)
    }
}

/// The first of two that is there.
pub open spec fn either(a: Option<Seq<char>>, b: Option<Seq<char>>) -> Option<Seq<char>> {
    if a is Some {
        a
    } else {
        b
    }
}

/// The account of a HIUPD segment; none where it has less than three DEGs. IBAN
/// and BIC have no fixed place: what looks like one is taken.
pub open spec fn hiupd_account(seg: Seq<Group>) -> Option<AccountInfo> {
    if seg.len() < 3 {
        None
    } else {
        Some(
            AccountInfo {
                iban: first_iban(seg, 1),
                bic: first_bic(seg, 2),
                account_number: text_at(seg, 1, 0),
                sub_account: text_at(seg, 1, 1),
                blz: text_at(seg, 1, 3),
                owner: either(opt_text_at(seg, 6, 0), opt_text_at(seg, 7, 0)),
                product_name: either(opt_text_at(seg, 8, 0), opt_text_at(seg, 9, 0)),
                currency: opt_text_at(seg, 5, 0),
            },
        )
    }
}

fn read_either(seg: &RawSegment, i: usize, j: usize) -> (s: Option<String>)
    ensures
        opt_view(s) == either(
            opt_text_at(seg@, i as int, 0),
            opt_text_at(seg@, j as int, 0),
        ),
{
    let a = read_opt_str(seg, i, 0);
    if a.is_some() {
        a
    } else {
        read_opt_str(seg, j, 0)
    }
}

/// Reads a HIUPD segment.
pub fn parse_hiupd(seg: &RawSegment) -> (res: Option<SepaAccount>)
    ensures
        opt_of(res) == hiupd_account(seg@),
{
    if seg.deg_count() < 3 {
        return None;
    }
    let mut iban = String::new();
    let mut bic = String::new();
    let mut i: usize = 1;
    while i < seg.deg_count()
        invariant
            1 <= i <= seg@.len(),
            seg@.len() >= 3,
            iban@.len() == 0 ==> first_iban(seg@, 1) == first_iban(seg@, i as int),
            iban@.len() > 0 ==> iban@ == first_iban(seg@, 1),
            bic@.len() == 0 ==> first_bic(seg@, 2) == first_bic(
                seg@,
                if i < 2 {
                    2
                } else {
                    i as int
                },
            ),
            bic@.len() > 0 ==> bic@ == first_bic(seg@, 2),
        decreases seg@.len() - i,
    {
        let s = read_str(seg, i, 0);
        if iban.as_str().is_empty() && looks_like_iban(s.as_str()) {
            iban = s;
        } else if bic.as_str().is_empty() && i > 1 && looks_like_bic(s.as_str()) {
            bic = s;
        }
        i += 1;
    }
    proof {
        if iban@.len() == 0 {
            assert(iban@ =~= Seq::<char>::empty());
        }
        if bic@.len() == 0 {
            assert(bic@ =~= Seq::<char>::empty());
        }
    }
    let currency = match read_opt_str(seg, 5, 0) {
        Some(c) => Some(Currency::new(c.as_str())),
        None => None,
    };
    Some(
        SepaAccount {
            iban: Iban::new(iban.as_str()),
            bic: Bic::new(bic.as_str()),
            account_number: read_str(seg, 1, 0),
            sub_account: read_str(seg, 1, 1),
            blz: Blz::new(seg.element(1, 3).as_str()),
            owner: read_either(seg, 6, 7),
            product_name: read_either(seg, 8, 9),
            currency,
        },
    )
}

// ---- HISAL: balance ----

/// The amount in element `j`, written with a decimal comma.
pub open spec fn amount_at(g: Group, j: int) -> Option<Amount> {
    parsed_amount(replaced(element_text(element_at(g, j)), ',', '.'))
}

/// The amount of a DEG `C:amount` or `D:amount`, where `D` (debit) turns its
/// sign round.
pub open spec fn signed_amount(g: Group) -> Option<Amount> {
    match amount_at(g, 1) {
        Some(a) => Some(
            if element_text(element_at(g, 0)) == "D"@ {
                negated(a)
            } else {
                a
            },
        ),
        None => None,
    }
}

/// The date in element `j`, if it has eight bytes and states one.
pub open spec fn date_at(g: Group, j: int) -> Option<Ymd> {
    let s = element_text(element_at(g, j));
    if byte_len(s) == 8 {
        compact_date(s)
    } else {
        None
    }
}

/// The amount that a DEG starts with, if it has elements.
pub open spec fn plain_amount(g: Group) -> Option<Amount> {
    if g.len() >= 1 {
        amount_at(g, 0)
    } else {
        None
    }
}

/// The currency of the booked balance, else that of the account, else the euro.
pub open spec fn hisal_currency(seg: Seq<Group>) -> Seq<char> {
    let own = text_at(seg, 4, 2);
    let account = text_at(seg, 3, 0);
    if own.len() > 0 {
        own
    } else if account.len() > 0 {
        account
    } else {
        "EUR"@
    }
}

/// The balance of a HISAL segment; none where the booked balance at DEG 4 is
/// incomplete or has no amount. `default_date` stands in for a missing date.
pub open spec fn hisal_balance(seg: Seq<Group>, default_date: Ymd) -> Option<Balance> {
    let booked = group_at(seg, 4);
    let pending = group_at(seg, 5);
    if booked.len() < 3 {
        None
    } else {
        match signed_amount(booked) {
            Some(amount) => Some(
                Balance {
                    amount,
                    date: match date_at(booked, 3) {
                        Some(d) => d,
                        None => default_date,
                    },
                    currency: hisal_currency(seg),
                    credit_line: plain_amount(group_at(seg, 6)),
                    available: plain_amount(group_at(seg, 7)),
                    pending_amount: if pending.len() >= 2 {
                        signed_amount(pending)
                    } else {
                        None
                    },
                    pending_date: if pending.len() >= 2 {
                        date_at(pending, 3)
                    } else {
                        None
                    },
                },
            ),
            None => None,
        }
    }
}

/// Whether the booked balance states its date.
pub open spec fn hisal_dated(seg: Seq<Group>) -> bool {
    date_at(group_at(seg, 4), 3) is Some
}

fn read_amount(seg: &RawSegment, i: usize, j: usize) -> (res: Option<Decimal>)
    ensures
        opt_amount_view(res) == amount_at(group_at(seg@, i as int), j as int),
{
    parse_amount(replace_char(seg.element(i, j).as_str(), ',', '.').as_str())
}

fn read_signed_amount(seg: &RawSegment, i: usize) -> (res: Option<Decimal>)
    ensures
        opt_amount_view(res) == signed_amount(group_at(seg@, i as int)),
{
    match read_amount(seg, i, 1) {
        Some(a) => if same_text(seg.element(i, 0).as_str(), "D") {
            Some(a.negate())
        } else {
            Some(a)
        },
        None => None,
    }
}

fn read_date(seg: &RawSegment, i: usize, j: usize) -> (res: Option<Date>)
    ensures
        opt_date_view(res) == date_at(group_at(seg@, i as int), j as int),
{
    let s = seg.element(i, j).as_str();
    if utf8_len(s) == 8 {
        parse_compact(s)
    } else {
        None
    }
}

/// Reads a HISAL segment; `default_date` stands in for a missing date.
pub fn parse_hisal_on(seg: &RawSegment, default_date: Date) -> (res: Option<AccountBalance>)
    ensures
        opt_of(res) == hisal_balance(seg@, default_date@),
{
    if seg.deg_len(4) < 3 {
        return None;
    }
    let amount = match read_signed_amount(seg, 4) {
        Some(a) => a,
        None => {
            return None;
        },
    };
    let date = match read_date(seg, 4, 3) {
        Some(d) => d,
        None => default_date,
    };
    let own = read_str(seg, 4, 2);
    let account = read_str(seg, 3, 0);
    let currency = if !own.as_str().is_empty() {
        Currency::new(own.as_str())
    } else if !account.as_str().is_empty() {
        Currency::new(account.as_str())
    } else {
        Currency::new("EUR")
    };
    let has_pending: bool = seg.deg_len(5) >= 2;
    Some(
        AccountBalance {
            amount,
            date,
            currency,
            credit_line: if seg.deg_len(6) >= 1 { read_amount(seg, 6, 0) } else { None },
            available: if seg.deg_len(7) >= 1 { read_amount(seg, 7, 0) } else { None },
            pending_amount: if has_pending { read_signed_amount(seg, 5) } else { None },
            pending_date: if has_pending { read_date(seg, 5, 3) } else { None },
        },
    )
}

/// Reads a HISAL segment. Its DEGs are header, account, product name, currency,
/// booked balance, pending balance, credit line and available amount; a balance
/// is `C` or `D`, amount, currency and date. Today's date stands in for a
/// missing date of the booked balance.
pub fn parse_hisal(seg: &RawSegment) -> (res: Option<AccountBalance>)
    ensures
        exists|d: Ymd| calendar_date(d) && opt_of(res) == #[trigger] hisal_balance(seg@, d),
        forall|d: Ymd|
            hisal_dated(seg@) ==> opt_of(res) == #[trigger] hisal_balance(seg@, d),
        res is Some <==> hisal_balance(seg@, (Ymd { year: 0, month: 1, day: 1 })) is Some,
{
    let now = today();
    let res = parse_hisal_on(seg, now);
    assert(calendar_date(now@) && opt_of(res) == hisal_balance(seg@, now@));
    res
}

// ---- HIKAZ: transactions ----

/// MT940 data of HIKAZ segments.
pub struct Mt940ExtractedData {
    pub booked: Vec<u8>,
    pub pending: Vec<u8>,
}

/// What the HIKAZ segments carry at DEG `i`, one behind the other.
pub open spec fn hikaz_bytes(segs: Seq<Seq<Group>>, i: int) -> Seq<u8>
    decreases segs.len(),
{
    if segs.len() == 0 {
        Seq::empty()
    } else {
        let before = hikaz_bytes(segs.drop_last(), i);
        if type_of(segs.last()) == "HIKAZ"@ {
            match bytes_at(segs.last(), i, 0) {
                Some(b) => before + b,
                None => before,
            }
        } else {
            before
        }
    }
}

fn push_payload(out: &mut Vec<u8>, seg: &RawSegment, i: usize)
    ensures
        final(out)@ == (match bytes_at(seg@, i as int, 0) {
            Some(b) => old(out)@ + b,
            None => old(out)@,
        }),
{
    match seg.element(i, 0).as_bytes() {
        Some(b) => push_bytes(out, b),
        None => {},
    }
}

/// Collects the MT940 data of all HIKAZ segments: booked transactions from DEG
/// 1, pending ones from DEG 2.
pub fn extract_mt940_data(segments: &[RawSegment]) -> (data: Mt940ExtractedData)
    ensures
        data.booked@ == hikaz_bytes(views(segments@), 1),
        data.pending@ == hikaz_bytes(views(segments@), 2),
{
    let ghost segs = views(segments@);
    let mut booked: Vec<u8> = Vec::new();
    let mut pending: Vec<u8> = Vec::new();
    let mut i: usize = 0;
    while i < segments.len()
        invariant
            i <= segments@.len(),
            segs == views(segments@),
            booked@ == hikaz_bytes(segs.take(i as int), 1),
            pending@ == hikaz_bytes(segs.take(i as int), 2),
        decreases segments@.len() - i,
    {
        let seg = &segments[i];
        proof {
            assert(segs.take(i + 1).drop_last() =~= segs.take(i as int));
            assert(segs.take(i + 1).last() == seg@);
        }
        if same_text(seg.segment_type(), "HIKAZ") {
            push_payload(&mut booked, seg, 1);
            push_payload(&mut pending, seg, 2);
        }
        i += 1;
    }
    assert(segs.take(i as int) =~= segs);
    Mt940ExtractedData { booked, pending }
}

// ---- HIWPD: securities ----

/// What has been recognised in a position so far.
pub struct Scan {
    pub isin: Option<Seq<char>>,
    pub wkn: Option<Seq<char>>,
    pub name: Seq<char>,
    pub quantity: Option<Amount>,
    pub price: Option<Amount>,
    pub price_currency: Option<Seq<char>>,
    pub price_date: Option<Ymd>,
    pub market_value: Option<Amount>,
    pub market_value_currency: Option<Seq<char>>,
    pub exchange: Option<Seq<char>>,
}

pub open spec fn scan_start() -> Scan {
    Scan {
        isin: None,
        wkn: None,
        name: Seq::empty(),
        quantity: None,
        price: None,
        price_currency: None,
        price_date: None,
        market_value: None,
        market_value_currency: None,
        exchange: None,
    }
}

/// Amounts are quantity, price and market value in this order; more are dropped.
pub open spec fn scan_amount(st: Scan, a: Amount) -> Scan {
    if st.quantity is None {
        Scan { quantity: Some(a), ..st }
    } else if st.price is None {
        Scan { price: Some(a), ..st }
    } else if st.market_value is None {
        Scan { market_value: Some(a), ..st }
    } else {
        st
    }
}

pub open spec fn date_like(s: Seq<char>) -> bool {
    s.len() == 8 && all_digits(s) && calendar_date(digits_ymd(s))
}

/// One text of a position is recognised by its form and by what is known.
pub open spec fn scan_step(st: Scan, val: Seq<char>) -> Scan {
    let amount = parsed_amount(replaced(val, ',', '.'));
    if val.len() == 0 {
        st
    } else if st.isin is None && isin_like(val) {
        Scan { isin: Some(val), ..st }
    } else if st.isin is Some && st.wkn is None && wkn_like(val) {
        Scan { wkn: Some(val), ..st }
    } else if st.price_date is None && date_like(val) {
        Scan { price_date: Some(digits_ymd(val)), ..st }
    } else if currency_like(val) && st.price_currency is None && (st.price is Some
        || st.quantity is Some) {
        Scan {
            price_currency: Some(val),
            market_value_currency: either(st.market_value_currency, Some(val)),
            ..st
        }
    } else if currency_like(val) && st.market_value_currency is None {
        Scan { market_value_currency: Some(val), ..st }
    } else if amount_like(val) && amount is Some {
        scan_amount(st, amount->0)
    } else if st.isin is Some && st.name.len() == 0 && byte_len(val) > 2 && !is_digit(val[0]) {
        Scan { name: val, ..st }
    } else if st.isin is Some && st.name.len() > 0 && st.exchange is None && 2 <= val.len() <= 10
        && all_alpha(val) {
        Scan { exchange: Some(val), ..st }
    } else {
        st
    }
}

/// What the first `n` elements of a position show.
pub open spec fn scan_up_to(g: Group, n: int) -> Scan
    decreases n,
{
    if n <= 0 {
        scan_start()
    } else {
        scan_step(scan_up_to(g, n - 1), element_text(g[n - 1]))
    }
}

/// What a position shows.
pub open spec fn scanned(g: Group) -> Scan {
    scan_up_to(g, g.len() as int)
}

pub open spec fn scan_quantity(st: Scan) -> Amount {
    match st.quantity {
        Some(q) => q,
        None => zero_amount(),
    }
}

/// The stated market value, or the product of quantity and price.
pub open spec fn scan_value(st: Scan) -> Option<Amount> {
    match (st.market_value, st.price) {
        (Some(v), _) => Some(v),
        (None, Some(p)) => product(scan_quantity(st), p),
        (None, None) => None,
    }
}

/// A market value that has to be computed can be held.
pub open spec fn value_fits(st: Scan) -> bool {
    (st.isin is Some || st.wkn is Some) && st.market_value is None && st.price is Some
        ==> scan_value(st) is Some
}

pub open spec fn opt_amount_text(a: Option<Amount>) -> Option<Seq<char>> {
    match a {
        Some(x) => Some(amount_text(x)),
        None => None,
    }
}

pub open spec fn opt_iso_text(d: Option<Ymd>) -> Option<Seq<char>> {
    match d {
        Some(x) => Some(iso_text(x)),
        None => None,
    }
}

/// The recognised fields by name.
pub open spec fn raw_fields(st: Scan) -> Seq<(Seq<char>, Option<Seq<char>>)> {
    seq![
        ("isin"@, st.isin),
        ("wkn"@, st.wkn),
        ("name"@, Some(st.name)),
        ("quantity"@, Some(amount_text(scan_quantity(st)))),
        ("price"@, opt_amount_text(st.price)),
        ("price_currency"@, st.price_currency),
        ("price_date"@, opt_iso_text(st.price_date)),
        ("market_value"@, opt_amount_text(scan_value(st))),
        ("exchange"@, st.exchange),
    ]
}

/// The position that was recognised; none without ISIN and WKN.
pub open spec fn scan_holding(st: Scan) -> Option<Holding> {
    if st.isin is None && st.wkn is None {
        None
    } else {
        Some(
            Holding {
                isin: st.isin,
                wkn: st.wkn,
                name: st.name,
                quantity: scan_quantity(st),
                price: st.price,
                price_currency: st.price_currency,
                price_date: st.price_date,
                market_value: scan_value(st),
                market_value_currency: st.market_value_currency,
                acquisition_value: None,
                profit_loss: None,
                exchange: st.exchange,
                depot_id: None,
                raw: raw_fields(st),
            },
        )
    }
}

/// The position of a DEG; none where it has less than three elements.
pub open spec fn group_holding(g: Group) -> Option<Holding> {
    if g.len() < 3 {
        None
    } else {
        scan_holding(scanned(g))
    }
}

/// The market value of a position can be held.
pub open spec fn group_fits(g: Group) -> bool {
    g.len() >= 3 ==> value_fits(scanned(g))
}

struct HoldingScan {
    isin: Option<String>,
    wkn: Option<String>,
    name: String,
    quantity: Option<Decimal>,
    price: Option<Decimal>,
    price_currency: Option<String>,
    price_date: Option<Date>,
    market_value: Option<Decimal>,
    market_value_currency: Option<String>,
    exchange: Option<String>,
}

impl View for HoldingScan {
    type V = Scan;

    closed spec fn view(&self) -> Scan {
        Scan {
            isin: opt_view(self.isin),
            wkn: opt_view(self.wkn),
            name: self.name@,
            quantity: opt_amount_view(self.quantity),
            price: opt_amount_view(self.price),
            price_currency: opt_view(self.price_currency),
            price_date: opt_date_view(self.price_date),
            market_value: opt_amount_view(self.market_value),
            market_value_currency: opt_view(self.market_value_currency),
            exchange: opt_view(self.exchange),
        }
    }
}

impl HoldingScan {
    fn new() -> (st: HoldingScan)
        ensures
            st@ == scan_start(),
    {
        let st = HoldingScan {
            isin: None,
            wkn: None,
            name: String::new(),
            quantity: None,
            price: None,
            price_currency: None,
            price_date: None,
            market_value: None,
            market_value_currency: None,
            exchange: None,
        };
        assert(st.name@ =~= Seq::<char>::empty());
        st
    }

    fn take_amount(&mut self, a: Decimal)
        ensures
            final(self)@ == scan_amount(old(self)@, a@),
    {
        if self.quantity.is_none() {
            self.quantity = Some(a);
        } else if self.price.is_none() {
            self.price = Some(a);
        } else if self.market_value.is_none() {
            self.market_value = Some(a);
        }
    }

    fn step(&mut self, val: String)
        ensures
            final(self)@ == scan_step(old(self)@, val@),
    {
        let v = val.as_str();
        if v.is_empty() {
            return;
        }
        if self.isin.is_none() && looks_like_isin(v) {
            self.isin = Some(val);
            return;
        }
        if self.isin.is_some() && self.wkn.is_none() && looks_like_wkn(v) {
            self.wkn = Some(val);
            return;
        }
        let cs: Vec<char> = chars_of(v);
        if self.price_date.is_none() && cs.len() == 8 && text_all_digits(v) {
            if let Some(date) = parse_compact(v) {
                self.price_date = Some(date);
                return;
            }
        }
        if looks_like_currency(v) {
            if self.price_currency.is_none() && (self.price.is_some() || self.quantity.is_some()) {
                self.price_currency = Some(v.to_string());
                if self.market_value_currency.is_none() {
                    self.market_value_currency = Some(val);
                }
                return;
            } else if self.market_value_currency.is_none() {
                self.market_value_currency = Some(val);
                return;
            }
        }
        if looks_like_amount(v) {
            if let Some(a) = parse_amount(replace_char(v, ',', '.').as_str()) {
                self.take_amount(a);
                return;
            }
        }
        if self.isin.is_some() && self.name.as_str().is_empty() && utf8_len(v) > 2 && !digit_char(
            cs[0],
        ) {
            self.name = val;
            return;
        }
        assert(cs@.take(cs@.len() as int) =~= val@);
        if self.isin.is_some() && !self.name.as_str().is_empty() && self.exchange.is_none() && 2
            <= cs.len() && cs.len() <= 10 && chars_all_alpha(&cs, cs.len()) {
            self.exchange = Some(val);
        }
    }

    fn of(d: &DEG) -> (st: HoldingScan)
        ensures
            st@ == scanned(d@),
    {
        let mut st = HoldingScan::new();
        let mut i: usize = 0;
        while i < d.len()
            invariant
                i <= d@.len(),
                st@ == scan_up_to(d@, i as int),
            decreases d@.len() - i,
        {
            st.step(d.get_str(i));
            i += 1;
        }
        st
    }

    fn quantity_or_zero(&self) -> (q: Decimal)
        ensures
            q@ == scan_quantity(self@),
    {
        match self.quantity {
            Some(q) => q,
            None => Decimal::zero(),
        }
    }

    fn value(&self) -> (v: Option<Decimal>)
        ensures
            opt_amount_view(v) == scan_value(self@),
    {
        match (self.market_value, self.price) {
            (Some(v), _) => Some(v),
            (None, Some(p)) => self.quantity_or_zero().checked_mul(&p),
            (None, None) => None,
        }
    }
}

/// Whether the market value of a position can be held.
pub fn holding_value_fits(d: &DEG) -> (b: bool)
    ensures
        b == group_fits(d@),
{
    if d.len() < 3 {
        return true;
    }
    let st = HoldingScan::of(d);
    !((st.isin.is_some() || st.wkn.is_some()) && st.market_value.is_none() && st.price.is_some())
        || st.value().is_some()
}

fn raw_field(key: &str, value: Option<String>) -> (f: RawField)
    ensures
        f@ == (key@, opt_view(value)),
{
    RawField { key: key.to_string(), value }
}

fn amount_field(a: Option<Decimal>) -> (s: Option<String>)
    ensures
        opt_view(s) == opt_amount_text(opt_amount_view(a)),
{
    match a {
        Some(x) => Some(x.to_text()),
        None => None,
    }
}

fn date_field(d: Option<Date>) -> (s: Option<String>)
    ensures
        opt_view(s) == opt_iso_text(opt_date_view(d)),
{
    match d {
        Some(x) => Some(x.iso()),
        None => None,
    }
}

fn currency_of(s: Option<String>) -> (c: Option<Currency>)
    ensures
        opt_of(c) == opt_view(s),
{
    match s {
        Some(t) => Some(Currency::new(t.as_str())),
        None => None,
    }
}

/// Reads one position. Banks order its elements differently, so each is
/// recognised by its form. A market value that is not stated is the product of
/// quantity and price, which must not be too large to hold.
pub fn parse_holding_deg(d: &DEG) -> (res: Option<SecurityHolding>)
    requires
        group_fits(d@),
    ensures
        opt_of(res) == group_holding(d@),
{
    if d.len() < 3 {
        return None;
    }
    let st = HoldingScan::of(d);
    if st.isin.is_none() && st.wkn.is_none() {
        return None;
    }
    let quantity = st.quantity_or_zero();
    let market_value = st.value();
    let raw = vec![
        raw_field("isin", clone_text(&st.isin)),
        raw_field("wkn", clone_text(&st.wkn)),
        raw_field("name", Some(st.name.clone())),
        raw_field("quantity", Some(quantity.to_text())),
        raw_field("price", amount_field(st.price)),
        raw_field("price_currency", clone_text(&st.price_currency)),
        raw_field("price_date", date_field(st.price_date)),
        raw_field("market_value", amount_field(market_value)),
        raw_field("exchange", clone_text(&st.exchange)),
    ];
    assert(views(raw@) =~= raw_fields(st@));
    Some(
        SecurityHolding {
            isin: match st.isin {
                Some(s) => Some(Isin::new(s.as_str())),
                None => None,
            },
            wkn: match st.wkn {
                Some(s) => Some(Wkn::new(s.as_str())),
                None => None,
            },
            name: st.name,
            quantity,
            price: st.price,
            price_currency: currency_of(st.price_currency),
            price_date: st.price_date,
            market_value,
            market_value_currency: currency_of(st.market_value_currency),
            acquisition_value: None,
            profit_loss: None,
            exchange: st.exchange,
            depot_id: None,
            raw,
        },
    )
}

/// The positions in the DEGs from index 2 up to `n`.
pub open spec fn holdings_up_to(seg: Seq<Group>, n: int) -> Seq<Holding>
    decreases n,
{
    if n <= 2 {
        Seq::empty()
    } else {
        match group_holding(seg[n - 1]) {
            Some(h) => holdings_up_to(seg, n - 1).push(h),
            None => holdings_up_to(seg, n - 1),
        }
    }
}

/// The positions of all HIWPD segments.
pub open spec fn hiwpd_holdings(segs: Seq<Seq<Group>>) -> Seq<Holding>
    decreases segs.len(),
{
    if segs.len() == 0 {
        Seq::empty()
    } else {
        let before = hiwpd_holdings(segs.drop_last());
        if type_of(segs.last()) == "HIWPD"@ {
            before + holdings_up_to(segs.last(), segs.last().len() as int)
        } else {
            before
        }
    }
}

/// The market values of a HIWPD segment can be held.
pub open spec fn segment_fits(seg: Seq<Group>) -> bool {
    type_of(seg) == "HIWPD"@ ==> forall|j: int| 2 <= j < seg.len() ==> group_fits(#[trigger] seg[j])
}

/// The market values of all HIWPD segments can be held.
pub open spec fn holdings_fit(segs: Seq<Seq<Group>>) -> bool {
    forall|i: int| 0 <= i < segs.len() ==> segment_fits(#[trigger] segs[i])
}

/// Segments one list behind the other give the positions of the first and then
/// those of the second; their market values can be held where those of both can.
pub proof fn law_holdings_joined(a: Seq<Seq<Group>>, b: Seq<Seq<Group>>)
    ensures
        hiwpd_holdings(a + b) == hiwpd_holdings(a) + hiwpd_holdings(b),
        holdings_fit(a + b) <==> holdings_fit(a) && holdings_fit(b),
    decreases b.len(),
{
    let all = a + b;
    if b.len() == 0 {
        assert(all =~= a);
        assert(hiwpd_holdings(a) + Seq::<Holding>::empty() =~= hiwpd_holdings(a));
    } else {
        law_holdings_joined(a, b.drop_last());
        assert(all.drop_last() =~= a + b.drop_last());
        assert(all.last() == b.last());
        let more = holdings_up_to(b.last(), b.last().len() as int);
        assert(hiwpd_holdings(a) + hiwpd_holdings(b.drop_last()) + more =~= hiwpd_holdings(a) + (
        hiwpd_holdings(b.drop_last()) + more));
    }
    if holdings_fit(all) {
        assert forall|i: int| 0 <= i < a.len() implies segment_fits(#[trigger] a[i]) by {
            assert(all[i] == a[i]);
        }
        assert forall|i: int| 0 <= i < b.len() implies segment_fits(#[trigger] b[i]) by {
            assert(all[a.len() + i] == b[i]);
        }
    }
}

/// Segments of which each is no HIWPD segment, or one with no more than a header
/// and an account, give no position.
pub proof fn law_no_holdings(segs: Seq<Seq<Group>>)
    requires
        forall|i: int|
            0 <= i < segs.len() ==> type_of(#[trigger] segs[i]) != "HIWPD"@ || segs[i].len() <= 2,
    ensures
        hiwpd_holdings(segs) == Seq::<Holding>::empty(),
        holdings_fit(segs),
    decreases segs.len(),
{
    if segs.len() > 0 {
        let init = segs.drop_last();
        assert forall|i: int| 0 <= i < init.len() implies type_of(#[trigger] init[i]) != "HIWPD"@
            || init[i].len() <= 2 by {
            assert(init[i] == segs[i]);
        }
        law_no_holdings(init);
        assert(segs[segs.len() - 1] == segs.last());
        assert(hiwpd_holdings(segs) =~= Seq::<Holding>::empty());
    }
}

/// Reads the positions of all HIWPD segments. DEG 0 is the header and DEG 1 the
/// account; positions follow. No market value may be too large to hold.
pub fn parse_hiwpd(segments: &[RawSegment]) -> (holdings: Vec<SecurityHolding>)
    requires
        holdings_fit(views(segments@)),
    ensures
        views(holdings@) == hiwpd_holdings(views(segments@)),
{
    broadcast use group_views;

    let ghost segs = views(segments@);
    let mut holdings: Vec<SecurityHolding> = Vec::new();
    let mut i: usize = 0;
    while i < segments.len()
        invariant
            i <= segments@.len(),
            segs == views(segments@),
            holdings_fit(segs),
            views(holdings@) == hiwpd_holdings(segs.take(i as int)),
        decreases segments@.len() - i,
    {
        let seg = &segments[i];
        let ghost before = views(holdings@);
        proof {
            assert(segs.take(i + 1).drop_last() =~= segs.take(i as int));
            assert(segs.take(i + 1).last() == seg@);
            assert(segs[i as int] == seg@);
        }
        if same_text(seg.segment_type(), "HIWPD") {
            let mut j: usize = 2;
            assert(before + Seq::<Holding>::empty() =~= before);
            while j < seg.deg_count()
                invariant
                    2 <= j,
                    j <= seg@.len() || j == 2,
                    type_of(seg@) == "HIWPD"@,
                    segment_fits(seg@),
                    views(holdings@) == before + holdings_up_to(seg@, j as int),
                decreases seg@.len() - j,
            {
                broadcast use group_views;

                let d = &seg.degs[j];
                assert(d@ == seg@[j as int]);
                if let Some(h) = parse_holding_deg(d) {
                    holdings.push(h);
                    assert(views(holdings@) =~= before + holdings_up_to(seg@, j + 1));
                }
                j += 1;
            }
            if seg.deg_count() < 2 {
                assert(holdings_up_to(seg@, seg@.len() as int) =~= holdings_up_to(seg@, 2));
            }
        }
        i += 1;
    }
    assert(segs.take(i as int) =~= segs);
    holdings
}

/// The same for any segments; `None` where a market value is too large to hold.
pub fn parse_hiwpd_checked(segments: &[RawSegment]) -> (res: Option<Vec<SecurityHolding>>)
    ensures
        match res {
            Some(holdings) => holdings_fit(views(segments@)) && views(holdings@) == hiwpd_holdings(
                views(segments@),
            ),
            None => !holdings_fit(views(segments@)),
        },
{
    let ghost segs = views(segments@);
    let mut i: usize = 0;
    while i < segments.len()
        invariant
            i <= segments@.len(),
            segs == views(segments@),
            forall|k: int| 0 <= k < i ==> segment_fits(#[trigger] segs[k]),
        decreases segments@.len() - i,
    {
        let seg = &segments[i];
        assert(segs[i as int] == seg@);
        if same_text(seg.segment_type(), "HIWPD") {
            let mut j: usize = 2;
            while j < seg.deg_count()
                invariant
                    2 <= j,
                    i < segs.len(),
                    segs == views(segments@),
                    segs[i as int] == seg@,
                    type_of(seg@) == "HIWPD"@,
                    forall|k: int| 2 <= k < j && k < seg@.len() ==> group_fits(#[trigger] seg@[k]),
                decreases seg@.len() - j,
            {
                assert(seg.degs@[j as int]@ == seg@[j as int]);
                if !holding_value_fits(&seg.degs[j]) {
                    assert(!segment_fits(segs[i as int]));
                    return None;
                }
                j += 1;
            }
        }
        i += 1;
    }
    Some(parse_hiwpd(segments))
}

// ---- HIWPD: binary payloads ----

/// The binary elements of a DEG.
pub open spec fn group_payloads(g: Group) -> Seq<Seq<u8>>
    decreases g.len(),
{
    if g.len() == 0 {
        Seq::empty()
    } else {
        match element_bytes(g.last()) {
            Some(b) => group_payloads(g.drop_last()).push(b),
            None => group_payloads(g.drop_last()),
        }
    }
}

/// The binary elements of a segment.
pub open spec fn segment_payloads(seg: Seq<Group>) -> Seq<Seq<u8>>
    decreases seg.len(),
{
    if seg.len() == 0 {
        Seq::empty()
    } else {
        segment_payloads(seg.drop_last()) + group_payloads(seg.last())
    }
}

/// The binary elements of all HIWPD segments.
pub open spec fn hiwpd_binaries(segs: Seq<Seq<Group>>) -> Seq<Seq<u8>>
    decreases segs.len(),
{
    if segs.len() == 0 {
        Seq::empty()
    } else {
        let before = hiwpd_binaries(segs.drop_last());
        if type_of(segs.last()) == "HIWPD"@ {
            before + segment_payloads(segs.last())
        } else {
            before
        }
    }
}

fn push_group_payloads(out: &mut Vec<Vec<u8>>, d: &DEG)
    ensures
        views(final(out)@) == views(old(out)@) + group_payloads(d@),
{
    broadcast use group_views;

    let ghost before = views(out@);
    let mut j: usize = 0;
    assert(d@.take(0) =~= Seq::<Element>::empty());
    assert(before + Seq::<Seq<u8>>::empty() =~= before);
    while j < d.len()
        invariant
            j <= d@.len(),
            views(out@) == before + group_payloads(d@.take(j as int)),
        decreases d@.len() - j,
    {
        broadcast use group_views;

        proof {
            assert(d@.take(j + 1).drop_last() =~= d@.take(j as int));
            assert(d@.take(j + 1).last() == d@[j as int]);
        }
        match d.get(j).as_bytes() {
            Some(b) => {
                out.push(copy_bytes(b));
                assert(views(out@) =~= before + group_payloads(d@.take(j + 1)));
            },
            None => {},
        }
        j += 1;
    }
    assert(d@.take(j as int) =~= d@);
}

/// Every binary payload of the HIWPD segments, in the order in which the bank
/// stated it.
///
/// A bank may state its positions in one binary element rather than one position
/// per DEG. A caller that reads such a payload itself takes the bytes from here.
pub fn hiwpd_payloads(segments: &[RawSegment]) -> (payloads: Vec<Vec<u8>>)
    ensures
        views(payloads@) == hiwpd_binaries(views(segments@)),
{
    broadcast use group_views;

    let ghost segs = views(segments@);
    let mut payloads: Vec<Vec<u8>> = Vec::new();
    let mut i: usize = 0;
    while i < segments.len()
        invariant
            i <= segments@.len(),
            segs == views(segments@),
            views(payloads@) == hiwpd_binaries(segs.take(i as int)),
        decreases segments@.len() - i,
    {
        let seg = &segments[i];
        let ghost before = views(payloads@);
        proof {
            assert(segs.take(i + 1).drop_last() =~= segs.take(i as int));
            assert(segs.take(i + 1).last() == seg@);
        }
        if same_text(seg.segment_type(), "HIWPD") {
            let mut j: usize = 0;
            assert(seg@.take(0) =~= Seq::<Group>::empty());
            assert(before + Seq::<Seq<u8>>::empty() =~= before);
            while j < seg.deg_count()
                invariant
                    j <= seg@.len(),
                    views(payloads@) == before + segment_payloads(seg@.take(j as int)),
                decreases seg@.len() - j,
            {
                proof {
                    assert(seg@.take(j + 1).drop_last() =~= seg@.take(j as int));
                    assert(seg@.take(j + 1).last() == seg.degs@[j as int]@);
                }
                push_group_payloads(&mut payloads, &seg.degs[j]);
                assert(views(payloads@) =~= before + segment_payloads(seg@.take(j + 1)));
                j += 1;
            }
            assert(seg@.take(j as int) =~= seg@);
        }
        i += 1;
    }
    assert(segs.take(i as int) =~= segs);
    payloads
}

// ---- Parameters ----

/// The version of the bank parameters, from HIBPA.
pub fn parse_hibpa_version(seg: &RawSegment) -> (v: u16)
    ensures
        v as int == u16_or_zero(text_at(seg@, 1, 0)),
{
    read_u16(seg, 1, 0)
}

/// The version of the user parameters, from HIUPA.
pub fn parse_hiupa_version(seg: &RawSegment) -> (v: u16)
    ensures
        v as int == u16_or_zero(text_at(seg@, 3, 0)),
{
    read_u16(seg, 3, 0)
}

/// The system identification that HISYN assigns.
pub fn parse_hisyn_system_id(seg: &RawSegment) -> (s: String)
    ensures
        s@ == text_at(seg@, 1, 0),
{
    read_str(seg, 1, 0)
}

// ---- Response codes ----

/// The security functions that the first code 3920 allows.
pub open spec fn first_allowed(codes: Seq<Code>) -> Seq<Seq<char>>
    decreases codes.len(),
{
    if codes.len() == 0 {
        Seq::empty()
    } else {
        match codes[0].kind {
            Kind::AllowedSecurityFunctions(fs) => fs,
            _ => first_allowed(codes.skip(1)),
        }
    }
}

/// The security functions that code 3920 allows.
pub fn extract_allowed_security_functions(codes: &[ResponseCode]) -> (fs: Vec<SecurityFunction>)
    ensures
        views(fs@) == first_allowed(views(codes@)),
{
    broadcast use group_views;

    let ghost cv = views(codes@);
    let mut i: usize = 0;
    assert(cv.skip(0) =~= cv);
    while i < codes.len()
        invariant
            i <= codes@.len(),
            cv == views(codes@),
            first_allowed(cv.skip(i as int)) == first_allowed(cv),
        decreases codes@.len() - i,
    {
        assert(cv.skip(i as int)[0] == codes@[i as int]@);
        assert(cv.skip(i as int).skip(1) =~= cv.skip(i + 1));
        if let ResponseCodeKind::AllowedSecurityFunctions(fs) = &codes[i].kind {
            return clone_functions(fs);
        }
        i += 1;
    }
    Vec::new()
}

/// The point of the first code 3040.
pub open spec fn first_touchdown(codes: Seq<Code>) -> Option<Seq<char>>
    decreases codes.len(),
{
    if codes.len() == 0 {
        None
    } else {
        match codes[0].kind {
            Kind::Touchdown(t) => Some(t),
            _ => first_touchdown(codes.skip(1)),
        }
    }
}

/// The point from which more data can be had, where there is more.
pub fn find_touchdown(codes: &[ResponseCode]) -> (res: Option<TouchdownPoint>)
    ensures
        opt_of(res) == first_touchdown(views(codes@)),
{
    let ghost cv = views(codes@);
    let mut i: usize = 0;
    assert(cv.skip(0) =~= cv);
    while i < codes.len()
        invariant
            i <= codes@.len(),
            cv == views(codes@),
            first_touchdown(cv.skip(i as int)) == first_touchdown(cv),
        decreases codes@.len() - i,
    {
        assert(cv.skip(i as int)[0] == codes@[i as int]@);
        assert(cv.skip(i as int).skip(1) =~= cv.skip(i + 1));
        if let ResponseCodeKind::Touchdown(td) = &codes[i].kind {
            return Some(td.clone());
        }
        i += 1;
    }
    None
}

/// The first code that is an error.
pub open spec fn first_error(codes: Seq<Code>) -> Option<Code>
    decreases codes.len(),
{
    if codes.len() == 0 {
        None
    } else if kind_is_error(codes[0].kind) {
        Some(codes[0])
    } else {
        first_error(codes.skip(1))
    }
}

/// The first code that is an error.
pub fn find_error(codes: &[ResponseCode]) -> (res: Option<&ResponseCode>)
    ensures
        opt_ref_of(res) == first_error(views(codes@)),
{
    let ghost cv = views(codes@);
    let mut i: usize = 0;
    assert(cv.skip(0) =~= cv);
    while i < codes.len()
        invariant
            i <= codes@.len(),
            cv == views(codes@),
            first_error(cv.skip(i as int)) == first_error(cv),
        decreases codes@.len() - i,
    {
        assert(cv.skip(i as int)[0] == codes@[i as int]@);
        assert(cv.skip(i as int).skip(1) =~= cv.skip(i + 1));
        if codes[i].is_error() {
            return Some(&codes[i]);
        }
        i += 1;
    }
    None
}

// ---- HIPINS: which operations need a TAN ----

/// A key of five bytes that starts with `HK`, with `J` or `N` behind it.
pub open spec fn states_rule(g: Group, i: int) -> bool {
    let key = element_text(element_at(g, i));
    let val = element_text(element_at(g, i + 1));
    &&& byte_len(key) == 5
    &&& has_prefix(key, "HK"@)
    &&& val == "J"@ || val == "N"@
}

/// The rules that a DEG states from element `i` on, added to those before.
pub open spec fn rules_from(g: Group, i: int, before: Map<Seq<char>, bool>) -> Map<Seq<char>, bool>
    decreases g.len() - i,
{
    if i + 1 >= g.len() {
        before
    } else if states_rule(g, i) {
        rules_from(
            g,
            i + 2,
            before.insert(element_text(element_at(g, i)), element_text(element_at(g, i + 1)) == "J"@),
        )
    } else {
        rules_from(g, i + 1, before)
    }
}

/// The rules in the DEGs from index 1 up to `n`.
pub open spec fn rules_up_to(seg: Seq<Group>, n: int) -> Map<Seq<char>, bool>
    decreases n,
{
    if n <= 1 {
        Map::empty()
    } else {
        rules_from(seg[n - 1], 0, rules_up_to(seg, n - 1))
    }
}

/// The rules of a HIPINS segment.
pub open spec fn hipins_rules(seg: Seq<Group>) -> Map<Seq<char>, bool> {
    rules_up_to(seg, seg.len() as int)
}

/// Reads from HIPINS which operations need a TAN.
pub fn parse_hipins(seg: &RawSegment) -> (rules: TanRules)
    ensures
        rules@ == hipins_rules(seg@),
{
    let mut rules = TanRules::new();
    if seg.deg_count() <= 1 {
        return rules;
    }
    let mut n: usize = 1;
    while n < seg.deg_count()
        invariant
            1 <= n <= seg@.len(),
            rules@ == rules_up_to(seg@, n as int),
        decreases seg@.len() - n,
    {
        let d = &seg.degs[n];
        assert(d@ == seg@[n as int]);
        let ghost before = rules@;
        let count: usize = d.len();
        let mut i: usize = 0;
        while i < count && i + 1 < count
            invariant
                count == d@.len(),
                i <= count,
                rules_from(d@, 0, before) == rules_from(d@, i as int, rules@),
            decreases count - i,
        {
            let key = d.get_str(i);
            let val = d.get_str(i + 1);
            let yes: bool = same_text(val.as_str(), "J");
            let no: bool = same_text(val.as_str(), "N");
            if utf8_len(key.as_str()) == 5 && text_has_prefix(key.as_str(), "HK") && (yes || no) {
                rules.insert(&SegmentType::new(key.as_str()), yes);
                i += 2;
            } else {
                i += 1;
            }
        }
        n += 1;
    }
    rules
}

// ---- Segment versions ----

/// The highest version up to `max` that parameter segments of a type offer; 0
/// where none does.
pub open spec fn highest_version(segs: Seq<Seq<Group>>, seg_type: Seq<char>, max: int) -> int
    decreases segs.len(),
{
    if segs.len() == 0 {
        0
    } else {
        let before = highest_version(segs.drop_last(), seg_type, max);
        let v = version_of(segs.last());
        if type_of(segs.last()) == seg_type && before < v <= max {
            v
        } else {
            before
        }
    }
}

/// The highest version of a segment type in the bank parameters. The parameter
/// segment of `HKSAL` is `HISALS`, and so on.
pub fn find_highest_segment_version(
    segments: &[RawSegment],
    parameter_segment_type: &str,
    max_client_version: u16,
) -> (v: u16)
    ensures
        v as int == highest_version(
            views(segments@),
            parameter_segment_type@,
            max_client_version as int,
        ),
{
    let ghost segs = views(segments@);
    let mut highest: u16 = 0;
    let mut i: usize = 0;
    while i < segments.len()
        invariant
            i <= segments@.len(),
            segs == views(segments@),
            highest as int == highest_version(
                segs.take(i as int),
                parameter_segment_type@,
                max_client_version as int,
            ),
        decreases segments@.len() - i,
    {
        let seg = &segments[i];
        proof {
            assert(segs.take(i + 1).drop_last() =~= segs.take(i as int));
            assert(segs.take(i + 1).last() == seg@);
        }
        if same_text(seg.segment_type(), parameter_segment_type) {
            let v: u16 = seg.segment_version();
            if v <= max_client_version && v > highest {
                highest = v;
            }
        }
        i += 1;
    }
    assert(segs.take(i as int) =~= segs);
    highest
}

} // verus!
