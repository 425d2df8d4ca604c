//! What the mock bank knows: accounts, positions, PINs and transactions.

use vstd::prelude::*;
use vstd::utf8::*;

use crate::element::views;
use crate::numbers::digits_value;
use crate::text::{all_digits, has_prefix, is_digit, push_bytes, same_text};

verus! {

// ---- Accounts and positions ----

/// An account of the mock bank.
#[derive(Debug)]
pub struct MockAccount {
    pub iban: String,
    pub bic: String,
    pub blz: String,
    pub owner: String,
    pub product_name: String,
    pub currency: String,
    pub balance: String,
    pub balance_date: String,
    pub account_number: String,
}

/// An account of the mock bank as a value.
pub struct AccountData {
    pub iban: Seq<char>,
    pub bic: Seq<char>,
    pub blz: Seq<char>,
    pub owner: Seq<char>,
    pub product_name: Seq<char>,
    pub currency: Seq<char>,
    pub balance: Seq<char>,
    pub balance_date: Seq<char>,
    pub account_number: Seq<char>,
}

impl View for MockAccount {
    type V = AccountData;

    open spec fn view(&self) -> AccountData {
        AccountData {
            iban: self.iban@,
            bic: self.bic@,
            blz: self.blz@,
            owner: self.owner@,
            product_name: self.product_name@,
            currency: self.currency@,
            balance: self.balance@,
            balance_date: self.balance_date@,
            account_number: self.account_number@,
        }
    }
}

/// A position of the mock bank. Amounts have a decimal comma.
#[derive(Debug)]
pub struct MockHolding {
    pub isin: String,
    pub wkn: String,
    pub name: String,
    pub quantity: String,
    pub price: String,
    pub price_currency: String,
    /// `YYYYMMDD`.
    pub price_date: String,
    /// Quantity times price.
    pub market_value: String,
}

/// A position of the mock bank as a value.
pub struct HoldingData {
    pub isin: Seq<char>,
    pub wkn: Seq<char>,
    pub name: Seq<char>,
    pub quantity: Seq<char>,
    pub price: Seq<char>,
    pub price_currency: Seq<char>,
    pub price_date: Seq<char>,
    pub market_value: Seq<char>,
}

impl View for MockHolding {
    type V = HoldingData;

    open spec fn view(&self) -> HoldingData {
        HoldingData {
            isin: self.isin@,
            wkn: self.wkn@,
            name: self.name@,
            quantity: self.quantity@,
            price: self.price@,
            price_currency: self.price_currency@,
            price_date: self.price_date@,
            market_value: self.market_value@,
        }
    }
}

/// What the mock bank knows.
#[derive(Debug)]
pub struct Fixtures {
    pub accounts: Vec<MockAccount>,
    pub holdings: Vec<MockHolding>,
    pub valid_pins: Vec<String>,
    pub temp_locked_pins: Vec<String>,
}

/// What the mock bank knows, as a value.
pub struct FixtureData {
    pub accounts: Seq<AccountData>,
    pub holdings: Seq<HoldingData>,
    pub valid_pins: Seq<Seq<char>>,
    pub temp_locked_pins: Seq<Seq<char>>,
}

impl View for Fixtures {
    type V = FixtureData;

    open spec fn view(&self) -> FixtureData {
        FixtureData {
            accounts: views(self.accounts@),
            holdings: views(self.holdings@),
            valid_pins: views(self.valid_pins@),
            temp_locked_pins: views(self.temp_locked_pins@),
        }
    }
}

/// Two accounts, three positions, one valid and one locked PIN.
pub open spec fn default_fixtures() -> FixtureData {
    FixtureData {
        accounts: seq![
            AccountData {
                iban: "DE89370400440532013000"@,
                bic: "GENODE23X42"@,
                blz: "12345678"@,
                owner: "Fullname"@,
                product_name: "Girokonto"@,
                currency: "EUR"@,
                balance: "1523,42"@,
                balance_date: "20250115"@,
                account_number: "0532013000"@,
            },
            AccountData {
                iban: "DE67200400600526370400"@,
                bic: "GENODE23X42"@,
                blz: "12345678"@,
                owner: "Fullname"@,
                product_name: "Tagesgeld"@,
                currency: "EUR"@,
                balance: "9876,54"@,
                balance_date: "20250115"@,
                account_number: "0526370400"@,
            },
        ],
        holdings: seq![
            HoldingData {
                isin: "DE0005140008"@,
                wkn: "514000"@,
                name: "DEUTSCHE BANK AG"@,
                quantity: "100,000"@,
                price: "14,20"@,
                price_currency: "EUR"@,
                price_date: "20260330"@,
                market_value: "1420,00"@,
            },
            HoldingData {
                isin: "US0378331005"@,
                wkn: "865985"@,
                name: "APPLE INC"@,
                quantity: "10,000"@,
                price: "172,50"@,
                price_currency: "USD"@,
                price_date: "20260330"@,
                market_value: "1725,00"@,
            },
            HoldingData {
                isin: "IE00B4L5Y983"@,
                wkn: "A0RPWH"@,
                name: "ISHARES CORE MSCI WORLD ETF"@,
                quantity: "25,000"@,
                price: "98,34"@,
                price_currency: "EUR"@,
                price_date: "20260330"@,
                market_value: "2458,50"@,
            },
        ],
        valid_pins: seq!["1234"@],
        temp_locked_pins: seq!["3938"@],
    }
}

impl Default for Fixtures {
    fn default() -> (f: Fixtures)
        ensures
            f@ == default_fixtures(),
    {
        let f = Fixtures {
            accounts: vec![
                MockAccount {
                    iban: "DE89370400440532013000".to_string(),
                    bic: "GENODE23X42".to_string(),
                    blz: "12345678".to_string(),
                    owner: "Fullname".to_string(),
                    product_name: "Girokonto".to_string(),
                    currency: "EUR".to_string(),
                    balance: "1523,42".to_string(),
                    balance_date: "20250115".to_string(),
                    account_number: "0532013000".to_string(),
                },
                MockAccount {
                    iban: "DE67200400600526370400".to_string(),
                    bic: "GENODE23X42".to_string(),
                    blz: "12345678".to_string(),
                    owner: "Fullname".to_string(),
                    product_name: "Tagesgeld".to_string(),
                    currency: "EUR".to_string(),
                    balance: "9876,54".to_string(),
                    balance_date: "20250115".to_string(),
                    account_number: "0526370400".to_string(),
                },
            ],
            holdings: vec![
                MockHolding {
                    isin: "DE0005140008".to_string(),
                    wkn: "514000".to_string(),
                    name: "DEUTSCHE BANK AG".to_string(),
                    quantity: "100,000".to_string(),
                    price: "14,20".to_string(),
                    price_currency: "EUR".to_string(),
                    price_date: "20260330".to_string(),
                    market_value: "1420,00".to_string(),
                },
                MockHolding {
                    isin: "US0378331005".to_string(),
                    wkn: "865985".to_string(),
                    name: "APPLE INC".to_string(),
                    quantity: "10,000".to_string(),
                    price: "172,50".to_string(),
                    price_currency: "USD".to_string(),
                    price_date: "20260330".to_string(),
                    market_value: "1725,00".to_string(),
                },
                MockHolding {
                    isin: "IE00B4L5Y983".to_string(),
                    wkn: "A0RPWH".to_string(),
                    name: "ISHARES CORE MSCI WORLD ETF".to_string(),
                    quantity: "25,000".to_string(),
                    price: "98,34".to_string(),
                    price_currency: "EUR".to_string(),
                    price_date: "20260330".to_string(),
                    market_value: "2458,50".to_string(),
                },
            ],
            valid_pins: vec!["1234".to_string()],
            temp_locked_pins: vec!["3938".to_string()],
        };
        assert(f@.accounts =~= default_fixtures().accounts);
        assert(f@.holdings =~= default_fixtures().holdings);
        assert(f@.valid_pins =~= default_fixtures().valid_pins);
        assert(f@.temp_locked_pins =~= default_fixtures().temp_locked_pins);
        f
    }
}

/// German IBANs that pass the checksum: behind the country code stand digits,
/// and the number made of bank code and account, the country code as 1314 and
/// the check digits is 1 modulo 97.
pub open spec fn checked_iban(s: Seq<char>) -> bool {
    &&& s.len() == 22
    &&& has_prefix(s, "DE"@)
    &&& all_digits(s.skip(2))
    &&& digits_value(s.subrange(4, 22) + "1314"@ + s.subrange(2, 4)) % 97 == 1
}

proof fn lemma_first_iban()
    ensures
        checked_iban("DE89370400440532013000"@),
{
    let s = "DE89370400440532013000"@;
    reveal_strlit("DE89370400440532013000");
    reveal_strlit("DE");
    reveal_strlit("1314");
    let n = s.subrange(4, 22) + "1314"@ + s.subrange(2, 4);
    assert(digits_value(n) == 370400440532013000131489) by {
        reveal_with_fuel(digits_value, 25);
    }
    assert(370400440532013000131489int % 97 == 1);
    assert(s.take(2) =~= "DE"@);
    assert forall|i: int| 0 <= i < s.skip(2).len() implies is_digit(#[trigger] s.skip(2)[i]) by {
        assert(s.skip(2)[i] == s[i + 2]);
    }
}

proof fn lemma_second_iban()
    ensures
        checked_iban("DE67200400600526370400"@),
{
    let s = "DE67200400600526370400"@;
    reveal_strlit("DE67200400600526370400");
    reveal_strlit("DE");
    reveal_strlit("1314");
    let n = s.subrange(4, 22) + "1314"@ + s.subrange(2, 4);
    assert(digits_value(n) == 200400600526370400131467) by {
        reveal_with_fuel(digits_value, 25);
    }
    assert(200400600526370400131467int % 97 == 1);
    assert(s.take(2) =~= "DE"@);
    assert forall|i: int| 0 <= i < s.skip(2).len() implies is_digit(#[trigger] s.skip(2)[i]) by {
        assert(s.skip(2)[i] == s[i + 2]);
    }
}

/// The IBANs of the accounts that the mock bank has by default pass the
/// checksum.
pub proof fn law_fixture_ibans()
    ensures
        forall|i: int|
            0 <= i < default_fixtures().accounts.len() ==> checked_iban(
                (#[trigger] default_fixtures().accounts[i]).iban,
            ),
{
    lemma_first_iban();
    lemma_second_iban();
}

/// Whether a text is in a list.
pub fn list_contains(list: &Vec<String>, s: &str) -> (b: bool)
    ensures
        b == views(list@).contains(s@),
{
    let ghost lv = views(list@);
    let mut i: usize = 0;
    while i < list.len()
        invariant
            i <= list@.len(),
            lv == views(list@),
            forall|j: int| 0 <= j < i ==> lv[j] != s@,
        decreases list@.len() - i,
    {
        if same_text(list[i].as_str(), s) {
            assert(lv[i as int] == s@);
            return true;
        }
        i += 1;
    }
    false
}

// ---- Transactions ----

pub open spec fn crlf() -> Seq<u8> {
    seq![0x0du8, 0x0au8]
}

/// Lines, each with a line break behind it.
pub open spec fn broken_lines(lines: Seq<Seq<u8>>) -> Seq<u8>
    decreases lines.len(),
{
    if lines.len() == 0 {
        Seq::empty()
    } else {
        broken_lines(lines.drop_last()) + lines.last() + crlf()
    }
}

/// An MT940 block: lines with line breaks between them, in front and behind. A
/// block without lines is two line breaks.
pub open spec fn mt940_block(lines: Seq<Seq<u8>>) -> Seq<u8> {
    if lines.len() == 0 {
        crlf() + crlf()
    } else {
        crlf() + broken_lines(lines)
    }
}

/// The UTF-8 forms of some texts.
pub open spec fn utf8_lines(lines: Seq<Seq<char>>) -> Seq<Seq<u8>> {
    lines.map_values(|s: Seq<char>| encode_utf8(s))
}

/// The lines of the first page: one transaction.
pub open spec fn first_page_lines() -> Seq<Seq<char>> {
    seq![
        "-"@,
        ":20:STARTUMS"@,
        ":25:12345678/0000000001"@,
        ":28C:0"@,
        ":60F:C150101EUR1041,23"@,
        ":61:150101C182,34NMSCNONREF"@,
        ":86:051?00UEBERWEISG?10931?20Ihre Kontonummer 0000001234"@,
        "?21/Test Ueberweisung 1?22n WS EREF: 1100011011 IBAN:"@,
        "?23 DE1100000100000001234 BIC?24: GENODE11 ?1011010100"@,
        "?31?32Bank"@,
        ":62F:C150101EUR1223,57"@,
        "-"@,
    ]
}

/// The lines of the second page: two transactions.
pub open spec fn second_page_lines() -> Seq<Seq<char>> {
    seq![
        "-"@,
        ":20:STARTUMS"@,
        ":25:12345678/0000000001"@,
        ":28C:0"@,
        ":60F:C150301EUR1223,57"@,
        ":61:150301C100,03NMSCNONREF"@,
        ":86:051?00UEBERWEISG?10931?20Ihre Kontonummer 0000001234"@,
        "?21/Test Ueberweisung 2?22n WS EREF: 1100011011 IBAN:"@,
        "?23 DE1100000100000001234 BIC?24: GENODE11 ?1011010100"@,
        "?31?32Bank"@,
        ":61:150301C100,00NMSCNONREF"@,
        ":86:051?00UEBERWEISG?10931?20Ihre Kontonummer 0000001234"@,
        "?21/Test Ueberweisung 3?22n WS EREF: 1100011011 IBAN:"@,
        "?23 DE1100000100000001234 BIC?24: GENODE11 ?1011010100"@,
        "?31?32Bank"@,
        ":62F:C150101EUR1423,60"@,
        "-"@,
    ]
}

/// The pages of transactions.
pub open spec fn transaction_pages() -> Seq<Seq<u8>> {
    seq![
        mt940_block(utf8_lines(first_page_lines())),
        mt940_block(utf8_lines(second_page_lines())),
    ]
}

/// Writes an MT940 block.
pub fn build_mt940_block(lines: &[&[u8]]) -> (block: Vec<u8>)
    ensures
        block@ == mt940_block(views(lines@)),
{
    let ghost lv = views(lines@);
    let mut block: Vec<u8> = Vec::new();
    block.push(0x0d);
    block.push(0x0a);
    let mut i: usize = 0;
    assert(broken_lines(lv.take(0)) =~= Seq::<u8>::empty());
    assert(block@ =~= crlf() + broken_lines(lv.take(0)));
    while i < lines.len()
        invariant
            i <= lines@.len(),
            lv == views(lines@),
            block@ == crlf() + broken_lines(lv.take(i as int)),
        decreases lines@.len() - i,
    {
        proof {
            assert(lv.take(i + 1).drop_last() =~= lv.take(i as int));
            assert(lv.take(i + 1).last() == lines@[i as int]@);
        }
        push_bytes(&mut block, lines[i]);
        block.push(0x0d);
        block.push(0x0a);
        assert(block@ =~= crlf() + broken_lines(lv.take(i + 1)));
        i += 1;
    }
    assert(lv.take(i as int) =~= lv);
    if lines.len() == 0 {
        block.push(0x0d);
        block.push(0x0a);
        assert(block@ =~= crlf() + crlf());
    }
    block
}

/// The pages of transactions.
pub fn build_transaction_pages() -> (pages: Vec<Vec<u8>>)
    ensures
        views(pages@) == transaction_pages(),
{
    let page0: Vec<&[u8]> = vec![
        "-".as_bytes(),
        ":20:STARTUMS".as_bytes(),
        ":25:12345678/0000000001".as_bytes(),
        ":28C:0".as_bytes(),
        ":60F:C150101EUR1041,23".as_bytes(),
        ":61:150101C182,34NMSCNONREF".as_bytes(),
        ":86:051?00UEBERWEISG?10931?20Ihre Kontonummer 0000001234".as_bytes(),
        "?21/Test Ueberweisung 1?22n WS EREF: 1100011011 IBAN:".as_bytes(),
        "?23 DE1100000100000001234 BIC?24: GENODE11 ?1011010100".as_bytes(),
        "?31?32Bank".as_bytes(),
        ":62F:C150101EUR1223,57".as_bytes(),
        "-".as_bytes(),
    ];
    assert(views(page0@) =~= utf8_lines(first_page_lines()));
    let page1: Vec<&[u8]> = vec![
        "-".as_bytes(),
        ":20:STARTUMS".as_bytes(),
        ":25:12345678/0000000001".as_bytes(),
        ":28C:0".as_bytes(),
        ":60F:C150301EUR1223,57".as_bytes(),
        ":61:150301C100,03NMSCNONREF".as_bytes(),
        ":86:051?00UEBERWEISG?10931?20Ihre Kontonummer 0000001234".as_bytes(),
        "?21/Test Ueberweisung 2?22n WS EREF: 1100011011 IBAN:".as_bytes(),
        "?23 DE1100000100000001234 BIC?24: GENODE11 ?1011010100".as_bytes(),
        "?31?32Bank".as_bytes(),
        ":61:150301C100,00NMSCNONREF".as_bytes(),
        ":86:051?00UEBERWEISG?10931?20Ihre Kontonummer 0000001234".as_bytes(),
        "?21/Test Ueberweisung 3?22n WS EREF: 1100011011 IBAN:".as_bytes(),
        "?23 DE1100000100000001234 BIC?24: GENODE11 ?1011010100".as_bytes(),
        "?31?32Bank".as_bytes(),
        ":62F:C150101EUR1423,60".as_bytes(),
        "-".as_bytes(),
    ];
    assert(views(page1@) =~= utf8_lines(second_page_lines()));
    let pages = vec![build_mt940_block(page0.as_slice()), build_mt940_block(page1.as_slice())];
    assert(views(pages@) =~= transaction_pages());
    pages
}

} // verus!
