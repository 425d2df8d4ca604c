//! What is recognised in the positions of a securities account.

use vstd::prelude::*;

use crate::dates::{digits_ymd, iso_text, Ymd};
use crate::decimal::{amount_text, parsed_amount, product, zero_amount, Amount};
use crate::element::{element_text, type_of, Element, Group};
use crate::segments::recognized::reads_as;
use crate::segments::response::{
    amount_like, currency_like, date_like, group_fits, group_holding, group_payloads, hiwpd_binaries,
    hiwpd_holdings, holdings_up_to, isin_like, scan_start, scan_step, scan_up_to, scanned,
    segment_payloads, wkn_like, Scan,
};
use crate::text::{
    all_alnum, all_alpha, all_digits, all_upper, byte_len, is_alnum, is_alpha, is_digit, is_upper,
    replaced,
};
use crate::types::Holding;

verus! {

// ---- Where the fields come from ----

/// Whether a text is one of the elements of a DEG.
pub open spec fn shows(g: Group, s: Seq<char>) -> bool {
    exists|j: int| 0 <= j < g.len() && element_text(#[trigger] g[j]) == s
}

/// Whether an amount is stated by one of the elements of a DEG.
pub open spec fn shows_amount(g: Group, a: Amount) -> bool {
    exists|j: int| 0 <= j < g.len() && reads_as(element_text(#[trigger] g[j]), a)
}

/// Whether a date is stated by one of the elements of a DEG.
pub open spec fn shows_date(g: Group, d: Ymd) -> bool {
    exists|j: int|
        0 <= j < g.len() && date_like(element_text(#[trigger] g[j])) && d == digits_ymd(
            element_text(g[j]),
        )
}

/// Whether what has been recognised stands in a DEG.
spec fn grounded(g: Group, st: Scan) -> bool {
    &&& st.isin matches Some(s) ==> shows(g, s) && isin_like(s)
    &&& st.wkn matches Some(s) ==> shows(g, s) && wkn_like(s)
    &&& st.name.len() > 0 ==> shows(g, st.name)
    &&& st.quantity matches Some(a) ==> shows_amount(g, a)
    &&& st.price matches Some(a) ==> shows_amount(g, a)
    &&& st.market_value matches Some(a) ==> shows_amount(g, a)
    &&& st.price_currency matches Some(s) ==> shows(g, s) && currency_like(s)
    &&& st.market_value_currency matches Some(s) ==> shows(g, s) && currency_like(s)
    &&& st.price_date matches Some(d) ==> shows_date(g, d)
    &&& st.exchange matches Some(s) ==> shows(g, s) && all_alpha(s)
    &&& st.isin is None ==> st.wkn is None && st.name.len() == 0
    &&& st.quantity is None ==> st.price is None && st.price_currency is None
    &&& st.price is None ==> st.market_value is None
    &&& st.price_currency is Some ==> st.market_value_currency is Some
}

proof fn lemma_grounded(g: Group, n: int)
    requires
        0 <= n <= g.len(),
    ensures
        grounded(g, scan_up_to(g, n)),
    decreases n,
{
    if n > 0 {
        lemma_grounded(g, n - 1);
        let st = scan_up_to(g, n - 1);
        let val = element_text(g[n - 1]);
        assert(shows(g, val));
        if let Some(a) = parsed_amount(replaced(val, ',', '.')) {
            assert(reads_as(val, a));
            assert(shows_amount(g, a));
        }
        if date_like(val) {
            assert(shows_date(g, digits_ymd(val)));
        }
        assert(scan_up_to(g, n) == scan_step(st, val));
    }
}

/// Every field of a position is stated by one of its elements, in the form that
/// the field has. A market value that is not stated is the product of quantity
/// and price.
pub proof fn law_position_grounded(g: Group)
    ensures
        group_holding(g) matches Some(h) ==> {
            &&& h.isin matches Some(s) ==> shows(g, s) && isin_like(s)
            &&& h.wkn matches Some(s) ==> shows(g, s) && wkn_like(s)
            &&& h.name.len() > 0 ==> shows(g, h.name)
            &&& shows_amount(g, h.quantity) || h.quantity == zero_amount()
            &&& h.price matches Some(a) ==> shows_amount(g, a)
            &&& h.price_currency matches Some(s) ==> shows(g, s) && currency_like(s)
            &&& h.price_date matches Some(d) ==> shows_date(g, d)
            &&& h.market_value_currency matches Some(s) ==> shows(g, s) && currency_like(s)
            &&& h.market_value matches Some(v) ==> shows_amount(g, v) || (h.price matches Some(p)
                && product(h.quantity, p) == Some(v))
            &&& h.exchange matches Some(s) ==> shows(g, s) && all_alpha(s)
        },
{
    lemma_grounded(g, g.len() as int);
}

/// A DEG is a position if and only if it has three elements at least and one of
/// them is an ISIN.
pub proof fn law_position_by_isin(g: Group)
    ensures
        group_holding(g) is Some <==> g.len() >= 3 && exists|j: int|
            0 <= j < g.len() && isin_like(element_text(#[trigger] g[j])),
        group_holding(g) matches Some(h) ==> h.isin is Some,
{
    lemma_grounded(g, g.len() as int);
    if exists|j: int| 0 <= j < g.len() && isin_like(element_text(#[trigger] g[j])) {
        let j = choose|j: int| 0 <= j < g.len() && isin_like(element_text(#[trigger] g[j]));
        lemma_isin_set(g, j);
        lemma_kept(g, j + 1, g.len() as int);
    }
    if let Some(s) = scanned(g).isin {
        let j = choose|j: int| 0 <= j < g.len() && element_text(#[trigger] g[j]) == s;
        assert(isin_like(element_text(g[j])));
    }
}

proof fn lemma_isin_set(g: Group, j: int)
    requires
        0 <= j < g.len(),
        isin_like(element_text(g[j])),
    ensures
        scan_up_to(g, j + 1).isin is Some,
{
    assert(scan_up_to(g, j + 1) == scan_step(scan_up_to(g, j), element_text(g[j])));
}

/// What has been recognised stays.
proof fn lemma_kept(g: Group, m: int, n: int)
    requires
        0 <= m <= n,
    ensures
        ({
            let a = scan_up_to(g, m);
            let b = scan_up_to(g, n);
            &&& a.isin is Some ==> b.isin == a.isin
            &&& a.wkn is Some ==> b.wkn == a.wkn
            &&& a.name.len() > 0 ==> b.name == a.name
            &&& a.quantity is Some ==> b.quantity == a.quantity
            &&& a.price is Some ==> b.price == a.price
            &&& a.market_value is Some ==> b.market_value == a.market_value
            &&& a.price_currency is Some ==> b.price_currency == a.price_currency
            &&& a.market_value_currency is Some ==> b.market_value_currency
                == a.market_value_currency
            &&& a.price_date is Some ==> b.price_date == a.price_date
            &&& a.exchange is Some ==> b.exchange == a.exchange
        }),
    decreases n,
{
    if m < n {
        lemma_kept(g, m, n - 1);
        assert(scan_up_to(g, n) == scan_step(scan_up_to(g, n - 1), element_text(g[n - 1])));
    }
}

/// Wherever it stands, the first ISIN of a position is its ISIN.
pub proof fn law_first_isin(g: Group, k: int)
    requires
        0 <= k < g.len(),
        isin_like(element_text(g[k])),
        forall|j: int| 0 <= j < k ==> !isin_like(element_text(#[trigger] g[j])),
    ensures
        group_holding(g) matches Some(h) ==> h.isin == Some(element_text(g[k])),
{
    lemma_grounded(g, k);
    let st = scan_up_to(g, k);
    if let Some(s) = st.isin {
        lemma_isin_from(g, k);
    }
    assert(scan_up_to(g, k + 1) == scan_step(st, element_text(g[k])));
    lemma_kept(g, k + 1, g.len() as int);
}

proof fn lemma_isin_from(g: Group, n: int)
    requires
        0 <= n <= g.len(),
        forall|j: int| 0 <= j < n ==> !isin_like(element_text(#[trigger] g[j])),
    ensures
        scan_up_to(g, n).isin is None,
    decreases n,
{
    if n > 0 {
        lemma_isin_from(g, n - 1);
        assert(!isin_like(element_text(g[n - 1])));
        assert(scan_up_to(g, n) == scan_step(scan_up_to(g, n - 1), element_text(g[n - 1])));
    }
}

/// Wherever it stands, the first date of a position is the date of its price.
pub proof fn law_first_date(g: Group, k: int)
    requires
        0 <= k < g.len(),
        date_like(element_text(g[k])),
        forall|j: int| 0 <= j < k ==> !date_like(element_text(#[trigger] g[j])),
    ensures
        group_holding(g) matches Some(h) ==> h.price_date == Some(digits_ymd(element_text(g[k]))),
{
    lemma_no_date(g, k);
    assert(scan_up_to(g, k + 1) == scan_step(scan_up_to(g, k), element_text(g[k])));
    lemma_kept(g, k + 1, g.len() as int);
}

proof fn lemma_no_date(g: Group, n: int)
    requires
        0 <= n <= g.len(),
        forall|j: int| 0 <= j < n ==> !date_like(element_text(#[trigger] g[j])),
    ensures
        scan_up_to(g, n).price_date is None,
    decreases n,
{
    if n > 0 {
        lemma_no_date(g, n - 1);
        assert(!date_like(element_text(g[n - 1])));
        assert(scan_up_to(g, n) == scan_step(scan_up_to(g, n - 1), element_text(g[n - 1])));
    }
}

/// The first WKN behind the ISIN is the WKN of a position.
pub proof fn law_first_wkn(g: Group, k: int, w: int)
    requires
        0 <= k < w < g.len(),
        isin_like(element_text(g[k])),
        forall|j: int| 0 <= j < k ==> !isin_like(element_text(#[trigger] g[j])),
        wkn_like(element_text(g[w])),
        forall|j: int| k < j < w ==> !wkn_like(element_text(#[trigger] g[j])),
    ensures
        group_holding(g) matches Some(h) ==> h.wkn == Some(element_text(g[w])),
{
    lemma_isin_from(g, k);
    lemma_grounded(g, k);
    assert(scan_up_to(g, k + 1) == scan_step(scan_up_to(g, k), element_text(g[k])));
    lemma_no_wkn(g, k + 1, w);
    assert(scan_up_to(g, w + 1) == scan_step(scan_up_to(g, w), element_text(g[w])));
    lemma_kept(g, w + 1, g.len() as int);
}

proof fn lemma_no_wkn(g: Group, m: int, n: int)
    requires
        0 <= m <= n <= g.len(),
        scan_up_to(g, m).isin is Some,
        scan_up_to(g, m).wkn is None,
        forall|j: int| m <= j < n ==> !wkn_like(element_text(#[trigger] g[j])),
    ensures
        scan_up_to(g, n).isin is Some,
        scan_up_to(g, n).wkn is None,
    decreases n,
{
    if m < n {
        lemma_no_wkn(g, m, n - 1);
        assert(!wkn_like(element_text(g[n - 1])));
        assert(scan_up_to(g, n) == scan_step(scan_up_to(g, n - 1), element_text(g[n - 1])));
    }
}

proof fn lemma_comma(s: Seq<char>)
    requires
        s.contains(','),
    ensures
        s.len() > 0,
        !all_digits(s),
        !all_upper(s),
        !all_alnum(s),
        !isin_like(s),
        !wkn_like(s),
        !date_like(s),
        !currency_like(s),
        amount_like(s),
{
    let k = choose|k: int| 0 <= k < s.len() && s[k] == ',';
    assert(!is_digit(s[k]) && !is_upper(s[k]) && !is_alnum(s[k]));
    if isin_like(s) {
        if k >= 2 {
            assert(s.skip(2)[k - 2] == s[k]);
        }
        assert(false);
    }
}

/// An amount with a comma in front of the first currency makes that the currency
/// of price and market value.
pub proof fn law_first_currency(g: Group, q: int, c: int)
    requires
        0 <= q < c < g.len(),
        element_text(g[q]).contains(','),
        parsed_amount(replaced(element_text(g[q]), ',', '.')) is Some,
        currency_like(element_text(g[c])),
        forall|j: int| 0 <= j < c ==> !currency_like(element_text(#[trigger] g[j])),
    ensures
        group_holding(g) matches Some(h) ==> {
            &&& h.price_currency == Some(element_text(g[c]))
            &&& h.market_value_currency == Some(element_text(g[c]))
        },
{
    lemma_comma(element_text(g[q]));
    lemma_no_currency(g, c);
    assert(scan_up_to(g, q + 1) == scan_step(scan_up_to(g, q), element_text(g[q])));
    lemma_kept(g, q + 1, c);
    assert(scan_up_to(g, c).quantity is Some);
    let val = element_text(g[c]);
    assert(val.len() == 3);
    assert(scan_up_to(g, c + 1) == scan_step(scan_up_to(g, c), val));
    lemma_kept(g, c + 1, g.len() as int);
}

proof fn lemma_no_currency(g: Group, n: int)
    requires
        0 <= n <= g.len(),
        forall|j: int| 0 <= j < n ==> !currency_like(element_text(#[trigger] g[j])),
    ensures
        scan_up_to(g, n).price_currency is None,
        scan_up_to(g, n).market_value_currency is None,
    decreases n,
{
    if n > 0 {
        lemma_no_currency(g, n - 1);
        assert(!currency_like(element_text(g[n - 1])));
        assert(scan_up_to(g, n) == scan_step(scan_up_to(g, n - 1), element_text(g[n - 1])));
    }
}

// ---- Usual layouts ----

/// A name that nothing else is taken for: neither a date nor a currency nor an
/// amount, of more than two bytes, and not starting with a digit.
pub open spec fn plain_name(s: Seq<char>) -> bool {
    &&& byte_len(s) > 2
    &&& s.len() > 0 && !is_digit(s[0])
    &&& !isin_like(s) && !date_like(s) && !currency_like(s)
    &&& !(amount_like(s) && parsed_amount(replaced(s, ',', '.')) is Some)
}

/// What a bank states of a position.
pub struct Stated {
    pub isin: Seq<char>,
    pub wkn: Seq<char>,
    pub name: Seq<char>,
    pub quantity: Seq<char>,
    pub price: Seq<char>,
    pub currency: Seq<char>,
    pub date: Seq<char>,
}

/// Texts that have the forms of what they stand for; amounts have a comma.
pub open spec fn well_stated(p: Stated, q: Amount, u: Amount) -> bool {
    &&& isin_like(p.isin)
    &&& wkn_like(p.wkn)
    &&& plain_name(p.name)
    &&& p.quantity.contains(',') && reads_as(p.quantity, q)
    &&& p.price.contains(',') && reads_as(p.price, u)
    &&& currency_like(p.currency)
    &&& date_like(p.date)
}

/// ISIN, WKN, name, quantity, price, currency and date.
pub open spec fn layout(p: Stated) -> Group {
    seq![
        Element::Text(p.isin),
        Element::Text(p.wkn),
        Element::Text(p.name),
        Element::Text(p.quantity),
        Element::Text(p.price),
        Element::Text(p.currency),
        Element::Text(p.date),
    ]
}

/// Whether a position has what a bank states of it.
pub open spec fn holds_stated(h: Holding, p: Stated, q: Amount, u: Amount) -> bool {
    &&& h.isin == Some(p.isin)
    &&& h.name == p.name
    &&& h.quantity == q
    &&& h.price == Some(u)
    &&& h.price_currency == Some(p.currency)
    &&& h.market_value_currency == Some(p.currency)
    &&& h.price_date == Some(digits_ymd(p.date))
    &&& h.acquisition_value is None
    &&& h.profit_loss is None
    &&& h.depot_id is None
}

proof fn lemma_layout_start(g: Group, p: Stated, q: Amount, u: Amount)
    requires
        well_stated(p, q, u),
        g.len() >= 7,
        forall|i: int| 0 <= i < 7 ==> #[trigger] g[i] == layout(p)[i],
    ensures
        scan_up_to(g, 7) == (Scan {
            isin: Some(p.isin),
            wkn: Some(p.wkn),
            name: p.name,
            quantity: Some(q),
            price: Some(u),
            price_currency: Some(p.currency),
            price_date: Some(digits_ymd(p.date)),
            market_value: None,
            market_value_currency: Some(p.currency),
            exchange: None,
        }),
{
    lemma_comma(p.quantity);
    lemma_comma(p.price);
    assert(g[0] == layout(p)[0] && g[1] == layout(p)[1] && g[2] == layout(p)[2] && g[3] == layout(
        p,
    )[3] && g[4] == layout(p)[4] && g[5] == layout(p)[5] && g[6] == layout(p)[6]);
    let s1 = scan_step(scan_start(), p.isin);
    let s2 = scan_step(s1, p.wkn);
    let s3 = scan_step(s2, p.name);
    let s4 = scan_step(s3, p.quantity);
    let s5 = scan_step(s4, p.price);
    let s6 = scan_step(s5, p.currency);
    let s7 = scan_step(s6, p.date);
    assert(scan_up_to(g, 0) == scan_start());
    assert(scan_up_to(g, 1) == s1);
    assert(scan_up_to(g, 2) == s2);
    assert(scan_up_to(g, 3) == s3);
    assert(scan_up_to(g, 4) == s4);
    assert(scan_up_to(g, 5) == s5);
    assert(scan_up_to(g, 6) == s6);
    assert(scan_up_to(g, 7) == s7);
    assert(s1.isin == Some(p.isin) && s1.wkn is None);
    assert(s2.wkn == Some(p.wkn));
    assert(s3.name == p.name);
    assert(s4.quantity == Some(q));
    assert(s5.price == Some(u));
    assert(s6.price_currency == Some(p.currency));
    assert(s7.price_date == Some(digits_ymd(p.date)));
}

/// A position in the usual layout is read as it is stated; its market value is
/// the product of quantity and price.
pub proof fn law_position_read(p: Stated, q: Amount, u: Amount)
    requires
        well_stated(p, q, u),
    ensures
        group_holding(layout(p)) matches Some(h) && holds_stated(h, p, q, u) && h.wkn == Some(p.wkn)
            && h.market_value == product(q, u) && h.exchange is None,
{
    lemma_layout_start(layout(p), p, q, u);
}

/// A market value behind them is taken as it is stated.
pub proof fn law_position_value_read(p: Stated, q: Amount, u: Amount, value: Seq<char>, v: Amount)
    requires
        well_stated(p, q, u),
        value.contains(','),
        reads_as(value, v),
    ensures
        group_holding(layout(p).push(Element::Text(value))) matches Some(h) && holds_stated(
            h,
            p,
            q,
            u,
        ) && h.wkn == Some(p.wkn) && h.market_value == Some(v) && h.exchange is None,
{
    let g = layout(p).push(Element::Text(value));
    lemma_layout_start(g, p, q, u);
    lemma_comma(value);
    assert(g[7] == Element::Text(value));
    assert(scan_up_to(g, 8) == scan_step(scan_up_to(g, 7), value));
}

/// Letters behind them that are no currency name the exchange.
pub proof fn law_position_exchange_read(p: Stated, q: Amount, u: Amount, exchange: Seq<char>)
    requires
        well_stated(p, q, u),
        2 <= exchange.len() <= 10,
        all_alpha(exchange),
    ensures
        group_holding(layout(p).push(Element::Text(exchange))) matches Some(h) && holds_stated(
            h,
            p,
            q,
            u,
        ) && h.wkn == Some(p.wkn) && h.market_value == product(q, u) && h.exchange == Some(exchange),
{
    let g = layout(p).push(Element::Text(exchange));
    lemma_layout_start(g, p, q, u);
    assert(g[7] == Element::Text(exchange));
    assert(is_alpha(exchange[0]) && !is_digit(exchange[0]));
    assert(!amount_like(exchange)) by {
        if exchange.contains(',') {
            let k = choose|k: int| 0 <= k < exchange.len() && exchange[k] == ',';
            assert(is_alpha(exchange[k]));
        }
        assert(exchange[0] != ',' && exchange[0] != '.');
    }
    assert(scan_up_to(g, 8) == scan_step(scan_up_to(g, 7), exchange));
}

/// A position without a WKN, whose name is not taken for one, has none.
pub proof fn law_position_without_wkn(p: Stated, q: Amount, u: Amount)
    requires
        well_stated(p, q, u),
        !wkn_like(p.name),
    ensures
        group_holding(layout(p).remove(1)) matches Some(h) && holds_stated(h, p, q, u) && h.wkn
            is None && h.market_value == product(q, u) && h.exchange is None,
{
    let g = layout(p).remove(1);
    lemma_comma(p.quantity);
    lemma_comma(p.price);
    assert(g =~= seq![
        Element::Text(p.isin),
        Element::Text(p.name),
        Element::Text(p.quantity),
        Element::Text(p.price),
        Element::Text(p.currency),
        Element::Text(p.date),
    ]);
    let s1 = scan_step(scan_start(), p.isin);
    let s2 = scan_step(s1, p.name);
    let s3 = scan_step(s2, p.quantity);
    let s4 = scan_step(s3, p.price);
    let s5 = scan_step(s4, p.currency);
    let s6 = scan_step(s5, p.date);
    assert(scan_up_to(g, 0) == scan_start());
    assert(scan_up_to(g, 1) == s1);
    assert(scan_up_to(g, 2) == s2);
    assert(scan_up_to(g, 3) == s3);
    assert(scan_up_to(g, 4) == s4);
    assert(scan_up_to(g, 5) == s5);
    assert(scan_up_to(g, 6) == s6);
    assert(s1.isin == Some(p.isin) && s1.wkn is None);
    assert(s2.name == p.name && s2.wkn is None);
    assert(s3.quantity == Some(q) && s3.wkn is None);
    assert(s4.price == Some(u) && s4.wkn is None);
    assert(s5.price_currency == Some(p.currency));
    assert(s6.price_date == Some(digits_ymd(p.date)));
}

/// The fields by name are the fields of the position.
pub proof fn law_raw_fields(g: Group)
    ensures
        group_holding(g) matches Some(h) ==> {
            &&& h.raw.len() == 9
            &&& h.raw[0] == ("isin"@, h.isin)
            &&& h.raw[1] == ("wkn"@, h.wkn)
            &&& h.raw[2] == ("name"@, Some(h.name))
            &&& h.raw[3] == ("quantity"@, Some(amount_text(h.quantity)))
            &&& h.raw[4].0 == "price"@ && (match h.price {
                Some(p) => h.raw[4].1 == Some(amount_text(p)),
                None => h.raw[4].1 is None,
            })
            &&& h.raw[5] == ("price_currency"@, h.price_currency)
            &&& h.raw[6].0 == "price_date"@ && (match h.price_date {
                Some(d) => h.raw[6].1 == Some(iso_text(d)),
                None => h.raw[6].1 is None,
            })
            &&& h.raw[7].0 == "market_value"@ && (match h.market_value {
                Some(v) => h.raw[7].1 == Some(amount_text(v)),
                None => h.raw[7].1 is None,
            })
            &&& h.raw[8] == ("exchange"@, h.exchange)
        },
{
}

// ---- Segments ----

proof fn lemma_holdings_prefix(a: Seq<Group>, b: Seq<Group>, n: int)
    requires
        n <= a.len(),
        n <= b.len(),
        forall|i: int| 0 <= i < n ==> a[i] == b[i],
    ensures
        holdings_up_to(a, n) == holdings_up_to(b, n),
    decreases n,
{
    if n > 2 {
        lemma_holdings_prefix(a, b, n - 1);
    }
}

/// Each DEG behind the account adds its position to those of a HIWPD segment.
pub proof fn law_position_added(seg: Seq<Group>, g: Group)
    requires
        seg.len() >= 2,
        type_of(seg) == "HIWPD"@,
    ensures
        hiwpd_holdings(seq![seg.push(g)]) == hiwpd_holdings(seq![seg]) + (match group_holding(g) {
            Some(h) => seq![h],
            None => Seq::empty(),
        }),
{
    let all = seg.push(g);
    let none = Seq::<Holding>::empty();
    assert(seq![all].drop_last() =~= Seq::<Seq<Group>>::empty());
    assert(seq![seg].drop_last() =~= Seq::<Seq<Group>>::empty());
    assert(hiwpd_holdings(Seq::<Seq<Group>>::empty()) == none);
    assert(all[0] == seg[0]);
    assert(type_of(all) == "HIWPD"@);
    lemma_holdings_prefix(all, seg, seg.len() as int);
    assert(all[seg.len() as int] == g);
    let before = holdings_up_to(seg, seg.len() as int);
    assert(hiwpd_holdings(seq![seg]) =~= before);
    assert(hiwpd_holdings(seq![all]) =~= holdings_up_to(all, all.len() as int));
    match group_holding(g) {
        Some(h) => {
            assert(before.push(h) =~= before + seq![h]);
        },
        None => {
            assert(before + none =~= before);
        },
    }
}

// ---- Binary payloads ----

/// Segments one list behind the other give the payloads of both, in order.
pub proof fn law_payloads_joined(a: Seq<Seq<Group>>, b: Seq<Seq<Group>>)
    ensures
        hiwpd_binaries(a + b) == hiwpd_binaries(a) + hiwpd_binaries(b),
    decreases b.len(),
{
    let all = a + b;
    if b.len() == 0 {
        assert(all =~= a);
        assert(hiwpd_binaries(a) + Seq::<Seq<u8>>::empty() =~= hiwpd_binaries(a));
    } else {
        law_payloads_joined(a, b.drop_last());
        assert(all.drop_last() =~= a + b.drop_last());
        assert(all.last() == b.last());
        assert(hiwpd_binaries(all) =~= hiwpd_binaries(a) + hiwpd_binaries(b));
    }
}

/// Each binary element of a HIWPD segment is a payload, in order; other elements
/// and other segments give none.
pub proof fn law_payload_added(seg: Seq<Group>, g: Group, e: Element)
    requires
        seg.len() >= 1,
    ensures
        ({
            let before = hiwpd_binaries(seq![seg.push(g)]);
            let after = hiwpd_binaries(seq![seg.push(g.push(e))]);
            if type_of(seg) == "HIWPD"@ && e is Binary {
                after == before.push(e->Binary_0)
            } else {
                after == before
            }
        }),
        hiwpd_binaries(seq![seg.push(Seq::<Element>::empty())]) == hiwpd_binaries(seq![seg]),
        type_of(seg) != "HIWPD"@ ==> hiwpd_binaries(seq![seg]).len() == 0,
{
    let none = Seq::<Seq<u8>>::empty();
    lemma_payloads_of_one(seg);
    lemma_payloads_of_one(seg.push(g));
    lemma_payloads_of_one(seg.push(g.push(e)));
    lemma_payloads_of_one(seg.push(Seq::<Element>::empty()));
    assert(seg.push(g)[0] == seg[0]);
    assert(seg.push(g.push(e))[0] == seg[0]);
    assert(seg.push(Seq::<Element>::empty())[0] == seg[0]);
    assert(seg.push(g).drop_last() =~= seg);
    assert(seg.push(g.push(e)).drop_last() =~= seg);
    assert(seg.push(Seq::<Element>::empty()).drop_last() =~= seg);
    assert(g.push(e).drop_last() =~= g);
    assert(segment_payloads(seg) + none =~= segment_payloads(seg));
    if e is Binary {
        assert(segment_payloads(seg) + group_payloads(g).push(e->Binary_0) =~= (segment_payloads(
            seg,
        ) + group_payloads(g)).push(e->Binary_0));
    }
}

proof fn lemma_payloads_of_one(seg: Seq<Group>)
    ensures
        hiwpd_binaries(seq![seg]) == if type_of(seg) == "HIWPD"@ {
            segment_payloads(seg)
        } else {
            Seq::empty()
        },
{
    assert(seq![seg].drop_last() =~= Seq::<Seq<Group>>::empty());
    assert(hiwpd_binaries(Seq::<Seq<Group>>::empty()) == Seq::<Seq<u8>>::empty());
    assert(Seq::<Seq<u8>>::empty() + segment_payloads(seg) =~= segment_payloads(seg));
}

// ---- One element more ----

proof fn lemma_scan_prefix(g: Group, more: Group, n: int)
    requires
        0 <= n <= g.len(),
    ensures
        scan_up_to(g + more, n) == scan_up_to(g, n),
    decreases n,
{
    if n > 0 {
        lemma_scan_prefix(g, more, n - 1);
        assert((g + more)[n - 1] == g[n - 1]);
    }
}

/// What is recognised in a position stays, whatever stands behind it.
pub proof fn law_recognised_stays(g: Group, more: Group)
    ensures
        ({
            let a = scanned(g);
            let b = scanned(g + more);
            &&& a.isin is Some ==> b.isin == a.isin
            &&& a.wkn is Some ==> b.wkn == a.wkn
            &&& a.name.len() > 0 ==> b.name == a.name
            &&& a.quantity is Some ==> b.quantity == a.quantity
            &&& a.price is Some ==> b.price == a.price
            &&& a.market_value is Some ==> b.market_value == a.market_value
            &&& a.price_currency is Some ==> b.price_currency == a.price_currency
            &&& a.market_value_currency is Some ==> b.market_value_currency
                == a.market_value_currency
            &&& a.price_date is Some ==> b.price_date == a.price_date
            &&& a.exchange is Some ==> b.exchange == a.exchange
        }),
{
    lemma_scan_prefix(g, more, g.len() as int);
    lemma_kept(g + more, g.len() as int, (g + more).len() as int);
}

proof fn lemma_scan_one(g: Group, val: Seq<char>)
    ensures
        scanned(g + seq![Element::Text(val)]) == scan_step(scanned(g), val),
{
    lemma_scan_prefix(g, seq![Element::Text(val)], g.len() as int);
    assert((g + seq![Element::Text(val)])[g.len() as int] == Element::Text(val));
}

/// A text becomes the name only behind the ISIN, with more than two bytes and no
/// digit in front; it becomes the exchange only behind a name, with two to ten
/// letters. It becomes at most one of name, exchange, date and amount.
pub proof fn law_text_taken(g: Group, val: Seq<char>)
    ensures
        ({
            let a = scanned(g);
            let b = scanned(g + seq![Element::Text(val)]);
            &&& b.name != a.name ==> {
                &&& b.name == val && a.name.len() == 0 && a.isin is Some
                &&& byte_len(val) > 2 && !('0' <= val[0] <= '9')
                &&& b == (Scan { name: val, ..a })
            }
            &&& b.exchange != a.exchange ==> {
                &&& b.exchange == Some(val) && a.exchange is None
                &&& a.name.len() > 0 && a.isin is Some
                &&& 2 <= val.len() <= 10
                &&& forall|i: int|
                    0 <= i < val.len() ==> 'A' <= #[trigger] val[i] <= 'Z' || 'a' <= val[i] <= 'z'
                &&& b == (Scan { exchange: Some(val), ..a })
            }
            &&& b.price_date != a.price_date ==> b == (Scan { price_date: b.price_date, ..a })
            &&& b.wkn != a.wkn ==> a.isin is Some && b == (Scan { wkn: Some(val), ..a })
            &&& b.isin != a.isin ==> b == (Scan { isin: Some(val), ..a })
            &&& b.quantity != a.quantity ==> b == (Scan { quantity: b.quantity, ..a })
            &&& b.price != a.price ==> a.quantity is Some && b == (Scan { price: b.price, ..a })
            &&& b.market_value != a.market_value ==> a.price is Some && b == (Scan {
                market_value: b.market_value,
                ..a
            })
        }),
{
    lemma_scan_one(g, val);
    let a = scanned(g);
    let b = scanned(g + seq![Element::Text(val)]);
    lemma_grounded(g, g.len() as int);
    if b.exchange != a.exchange {
        assert forall|i: int| 0 <= i < val.len() implies 'A' <= #[trigger] val[i] <= 'Z' || 'a'
            <= val[i] <= 'z' by {
            assert(is_alpha(val[i]));
        }
    }
}

/// Three capital letters become the currency of the price behind an amount, and
/// with it of the market value if that has none; otherwise they become the
/// currency of the market value if that has none.
pub proof fn law_currency_taken(g: Group, val: Seq<char>)
    requires
        val.len() == 3,
        forall|i: int| 0 <= i < val.len() ==> 'A' <= #[trigger] val[i] <= 'Z',
    ensures
        ({
            let a = scanned(g);
            let b = scanned(g + seq![Element::Text(val)]);
            let value_currency = if a.market_value_currency is None {
                Some(val)
            } else {
                a.market_value_currency
            };
            &&& a.price_currency is None && (a.quantity is Some || a.price is Some) ==> b == (Scan {
                price_currency: Some(val),
                market_value_currency: value_currency,
                ..a
            })
            &&& !(a.price_currency is None && (a.quantity is Some || a.price is Some))
                && a.market_value_currency is None ==> b == (Scan {
                market_value_currency: Some(val),
                ..a
            })
        }),
{
    lemma_scan_one(g, val);
    assert forall|i: int| 0 <= i < val.len() implies is_upper(#[trigger] val[i]) by {}
}

/// Amounts are quantity, price and market value in this order; more are dropped.
pub proof fn law_amount_taken(g: Group, whole: Seq<char>, places: Seq<char>, a: Amount)
    requires
        reads_as(whole + seq![','] + places, a),
    ensures
        ({
            let before = scanned(g);
            let after = scanned(g + seq![Element::Text(whole + seq![','] + places)]);
            &&& before.quantity is None ==> after == (Scan { quantity: Some(a), ..before })
            &&& before.quantity is Some && before.price is None ==> after == (Scan {
                price: Some(a),
                ..before
            })
            &&& before.price is Some && before.market_value is None ==> after == (Scan {
                market_value: Some(a),
                ..before
            })
            &&& before.market_value is Some ==> after == before
        }),
{
    let val = whole + seq![','] + places;
    lemma_scan_one(g, val);
    lemma_grounded(g, g.len() as int);
    assert(val[whole.len() as int] == ',');
    lemma_comma(val);
}

/// A position can be read unless its market value is not stated and the product
/// of its quantity and price cannot be held.
pub proof fn law_position_readable(g: Group)
    ensures
        ({
            let st = scanned(g);
            let quantity = match st.quantity {
                Some(q) => q,
                None => zero_amount(),
            };
            &&& g.len() < 3 || st.isin is None || st.market_value is Some || st.price is None
                ==> group_fits(g)
            &&& g.len() >= 3 && st.isin is Some && st.market_value is None ==> (st.price matches Some(
                p,
            ) ==> (group_fits(g) <==> product(quantity, p) is Some))
        }),
{
    lemma_grounded(g, g.len() as int);
}

} // verus!
