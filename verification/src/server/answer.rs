//! What the mock bank answers to a message.

use vstd::prelude::*;
use vstd::string::*;
use vstd::utf8::*;

use crate::element::views;
use crate::numbers::{decimal, decimal_string};
use crate::server::faults::{
    build_error_reply, error_reply, fault_on, find_fault, ErrorOn, ErrorType,
};
use crate::server::fixtures::{
    build_transaction_pages, transaction_pages, FixtureData, Fixtures, HoldingData, MockHolding,
};
use crate::server::scan::{
    extract_hkkaz_touchdown, extract_hkvvb_versions, extract_seg_num_ver, has_segment,
    known_versions_in, mentions, number_version_in, touchdown_in,
};
use crate::text::{chars_of, copy_bytes, push_bytes, push_char, push_text, same_text};

verus! {

// ---- Parameters ----

/// The bank parameters, which name the port of the mock bank.
pub open spec fn bpd_segments(port: int) -> Seq<u8> {
    encode_utf8(
        "HIBPA:6:3:4+78+280:12345678+Test Bank+1+1+300+500'HIKOM:7:4:4+280:12345678+1+3:http?://127.0.0.1?:"@,
    ) + encode_utf8(decimal(port as nat)) + encode_utf8(
        "/'HIKAZS:10:7:4+1+1+1+365:J:N'HISPAS:31:1:4+1+1+1+J:J:N:sepade?:xsd?:pain.001.003.03.xsd'HISALS:19:7:4+1+1+1'HIWPDS:20:6:4+1+1+1'HITANS:53:7:4+1+1+1+N:N:0:942:2:MTAN2:mobileTAN::mobile TAN:6:1:SMS:3:1:J:1:0:N:0:2:N:J:00:1:1:962:2:HHD1.4:HHD:1.4:Smart-TAN plus manuell:6:1:Challenge:3:1:J:1:0:N:0:2:N:J:00:1:1'HIPINS:54:1:4+1+1+1+5:20:6:Benutzer ID::HKSPA:N:HKKAZ:N:HKSAL:N:HKTAN:N'"@,
    )
}

/// The user parameters.
pub open spec fn upd_segments() -> Seq<u8> {
    encode_utf8(
        "HIUPA:57:4:4+test1+3+0'HIUPD:58:6:4+1::280:12345678+DE11123456780000000001+GENODE23X42+test1+EUR+Fullname++Girokonto++HKSAL:1+HKKAZ:1+HKSPA:1'HIUPD:59:6:4+2::280:12345678+DE11123456780000000002+GENODE23X42+test1+EUR+Fullname++Tagesgeld++HKSAL:1+HKKAZ:1+HKSPA:1'"@,
    )
}

/// Writes the bank parameters.
pub fn build_bpd(port: u16) -> (out: Vec<u8>)
    ensures
        out@ == bpd_segments(port as int),
{
    let mut out: Vec<u8> = text_bytes(
        "HIBPA:6:3:4+78+280:12345678+Test Bank+1+1+300+500'HIKOM:7:4:4+280:12345678+1+3:http?://127.0.0.1?:",
    );
    push_text(&mut out, decimal_string(port as u128).as_str());
    push_text(
        &mut out,
        "/'HIKAZS:10:7:4+1+1+1+365:J:N'HISPAS:31:1:4+1+1+1+J:J:N:sepade?:xsd?:pain.001.003.03.xsd'HISALS:19:7:4+1+1+1'HIWPDS:20:6:4+1+1+1'HITANS:53:7:4+1+1+1+N:N:0:942:2:MTAN2:mobileTAN::mobile TAN:6:1:SMS:3:1:J:1:0:N:0:2:N:J:00:1:1:962:2:HHD1.4:HHD:1.4:Smart-TAN plus manuell:6:1:Challenge:3:1:J:1:0:N:0:2:N:J:00:1:1'HIPINS:54:1:4+1+1+1+5:20:6:Benutzer ID::HKSPA:N:HKKAZ:N:HKSAL:N:HKTAN:N'",
    );
    out
}

/// The user parameters.
pub fn build_upd() -> (s: &'static str)
    ensures
        encode_utf8(s@) == upd_segments(),
{
    "HIUPA:57:4:4+test1+3+0'HIUPD:58:6:4+1::280:12345678+DE11123456780000000001+GENODE23X42+test1+EUR+Fullname++Girokonto++HKSAL:1+HKKAZ:1+HKSPA:1'HIUPD:59:6:4+2::280:12345678+DE11123456780000000002+GENODE23X42+test1+EUR+Fullname++Tagesgeld++HKSAL:1+HKKAZ:1+HKSPA:1'"
}

// ---- The parts of an answer ----

/// The answer to a wrong PIN.
pub open spec fn refusal() -> Seq<u8> {
    encode_utf8("HIRMG::2+9910::Pin ung\u{fc}ltig'"@)
}

/// The start of every other answer.
pub open spec fn greeting() -> Seq<u8> {
    encode_utf8("HIRMG::2+0010::Nachricht entgegengenommen'"@)
}

/// `text` where a condition holds, else nothing.
pub open spec fn text_if(condition: bool, text: Seq<char>) -> Seq<u8> {
    if condition {
        encode_utf8(text)
    } else {
        Seq::empty()
    }
}

/// `bytes` where a condition holds, else nothing.
pub open spec fn bytes_if(condition: bool, bytes: Seq<u8>) -> Seq<u8> {
    if condition {
        bytes
    } else {
        Seq::empty()
    }
}

/// A text in its UTF-8 form.
fn text_bytes(s: &str) -> (out: Vec<u8>)
    ensures
        out@ == encode_utf8(s@),
{
    copy_bytes(s.as_bytes())
}

fn push_text_if(out: &mut Vec<u8>, condition: bool, text: &str)
    ensures
        final(out)@ == old(out)@ + text_if(condition, text@),
{
    let ghost before = out@;
    if condition {
        push_text(out, text);
    } else {
        assert(before + Seq::<u8>::empty() =~= before);
    }
}

fn push_bytes_if(out: &mut Vec<u8>, condition: bool, bytes: &[u8])
    ensures
        final(out)@ == old(out)@ + bytes_if(condition, bytes@),
{
    let ghost before = out@;
    if condition {
        push_bytes(out, bytes);
    } else {
        assert(before + Seq::<u8>::empty() =~= before);
    }
}

/// The answer to HKVVB: codes, and the parameters of which the client knows
/// another version than 78 (bank) or 3 (user).
pub open spec fn preparation_reply(
    number: Seq<char>,
    bpd: Seq<char>,
    upd: Seq<char>,
    locked: bool,
    port: int,
) -> Seq<u8> {
    encode_utf8("HIRMS::2:"@) + encode_utf8(number) + text_if(
        bpd != "78"@,
        "+3050::BPD nicht mehr aktuell, aktuelle Version enthalten."@,
    ) + text_if(upd != "3"@, "+3050::UPD nicht mehr aktuell, aktuelle Version enthalten."@)
        + text_if(locked, "+3938::Ihr Zugang ist vor\u{fc}bergehend gesperrt."@) + text_if(
        !locked,
        "+3920::Zugelassene TAN-Verfahren fur den Benutzer:942+0901::*PIN gultig."@,
    ) + encode_utf8("+0020::*Dialoginitialisierung erfolgreich'"@) + bytes_if(
        bpd != "78"@,
        bpd_segments(port),
    ) + bytes_if(upd != "3"@, upd_segments())
}

/// The number of the segment HKVVB.
pub open spec fn preparation_number(message: Seq<u8>) -> Seq<char> {
    match number_version_in(message, "HKVVB"@) {
        Some((number, _)) => number,
        None => "3"@,
    }
}

/// The part of an answer that belongs to HKVVB; `fault` is the error to inject.
pub open spec fn preparation_part(
    message: Seq<u8>,
    locked: bool,
    port: int,
    fault: Option<ErrorType>,
) -> Seq<u8> {
    match known_versions_in(message) {
        Some((bpd, upd)) => match fault {
            Some(t) => error_reply(preparation_number(message), t),
            None => preparation_reply(preparation_number(message), bpd, upd, locked, port),
        },
        None => Seq::empty(),
    }
}

fn build_preparation(
    message: &[u8],
    locked: bool,
    port: u16,
    fault: Option<ErrorType>,
) -> (out: Vec<u8>)
    ensures
        out@ == preparation_part(message@, locked, port as int, fault),
{
    let (bpd, upd) = match extract_hkvvb_versions(message) {
        Some(r) => r,
        None => {
            return Vec::new();
        },
    };
    let number = match extract_seg_num_ver(message, "HKVVB") {
        Some((n, _)) => n,
        None => "3".to_string(),
    };
    if let Some(t) = fault {
        return build_error_reply(number.as_str(), t);
    }
    let new_bpd: bool = !same_text(bpd.as_str(), "78");
    let new_upd: bool = !same_text(upd.as_str(), "3");
    let mut out: Vec<u8> = text_bytes("HIRMS::2:");
    push_text(&mut out, number.as_str());
    push_text_if(
        &mut out,
        new_bpd,
        "+3050::BPD nicht mehr aktuell, aktuelle Version enthalten.",
    );
    push_text_if(
        &mut out,
        new_upd,
        "+3050::UPD nicht mehr aktuell, aktuelle Version enthalten.",
    );
    push_text_if(&mut out, locked, "+3938::Ihr Zugang ist vor\u{fc}bergehend gesperrt.");
    push_text_if(
        &mut out,
        !locked,
        "+3920::Zugelassene TAN-Verfahren fur den Benutzer:942+0901::*PIN gultig.",
    );
    push_text(&mut out, "+0020::*Dialoginitialisierung erfolgreich'");
    push_bytes_if(&mut out, new_bpd, build_bpd(port).as_slice());
    push_bytes_if(&mut out, new_upd, text_bytes(build_upd()).as_slice());
    out
}

/// Whether a message is to be given a system identification: it asks for one and
/// its initialization does not fail.
pub open spec fn synchronizes(message: Seq<u8>, fault: Option<ErrorType>) -> bool {
    mentions(message, "HKSYN"@) && !(known_versions_in(message) is Some && fault is Some)
}

/// Whether a message is to be given a system identification.
pub fn asks_for_system(message: &[u8], fault: Option<ErrorType>) -> (b: bool)
    ensures
        b == synchronizes(message@, fault),
{
    has_segment(message, "HKSYN") && !(extract_hkvvb_versions(message).is_some()
        && fault.is_some())
}

/// The part that belongs to HKSYN: a new system identification.
pub open spec fn sync_part(
    message: Seq<u8>,
    system_id: Seq<char>,
    fault: Option<ErrorType>,
) -> Seq<u8> {
    bytes_if(
        synchronizes(message, fault),
        encode_utf8("HISYN::4:5+"@) + encode_utf8(system_id) + encode_utf8("'"@),
    )
}

/// The part that belongs to HKSPA: one account.
pub open spec fn accounts_part(message: Seq<u8>) -> Seq<u8> {
    text_if(
        mentions(message, "HKSPA"@),
        "HISPA::1:4+J:DE11123456780000000001:GENODE23X42:00001::280:12345678'"@,
    )
}

/// Balance, currency and date of the first account.
pub open spec fn first_balance(f: FixtureData) -> (Seq<char>, Seq<char>, Seq<char>) {
    if f.accounts.len() > 0 {
        let a = f.accounts[0];
        (a.balance, a.currency, a.balance_date)
    } else {
        ("1523,42"@, "EUR"@, "20250115"@)
    }
}

/// The answer to HKSAL.
pub open spec fn balance_reply(
    number: Seq<char>,
    balance: Seq<char>,
    currency: Seq<char>,
    date: Seq<char>,
) -> Seq<u8> {
    encode_utf8("HIRMS::2:"@) + encode_utf8(number) + encode_utf8("+0010::Saldo ermittelt'"@)
        + encode_utf8("HISAL::7:"@) + encode_utf8(number) + encode_utf8(
        "+1::280:12345678+Girokonto+"@,
    ) + encode_utf8(currency) + encode_utf8("+C:"@) + encode_utf8(balance) + encode_utf8(":"@)
        + encode_utf8(currency) + encode_utf8(":"@) + encode_utf8(date) + encode_utf8("'"@)
}

/// The part that belongs to HKSAL: the balance of the first account, or the error
/// to inject.
pub open spec fn balance_part(
    message: Seq<u8>,
    f: FixtureData,
    fault: Option<ErrorType>,
) -> Seq<u8> {
    match number_version_in(message, "HKSAL"@) {
        Some((number, _)) => match fault {
            Some(t) => error_reply(number, t),
            None => {
                let (balance, currency, date) = first_balance(f);
                balance_reply(number, balance, currency, date)
            },
        },
        None => Seq::empty(),
    }
}

fn build_balance_reply(number: &str, balance: &str, currency: &str, date: &str) -> (out: Vec<u8>)
    ensures
        out@ == balance_reply(number@, balance@, currency@, date@),
{
    let mut out: Vec<u8> = text_bytes("HIRMS::2:");
    push_text(&mut out, number);
    push_text(&mut out, "+0010::Saldo ermittelt'");
    push_text(&mut out, "HISAL::7:");
    push_text(&mut out, number);
    push_text(&mut out, "+1::280:12345678+Girokonto+");
    push_text(&mut out, currency);
    push_text(&mut out, "+C:");
    push_text(&mut out, balance);
    push_text(&mut out, ":");
    push_text(&mut out, currency);
    push_text(&mut out, ":");
    push_text(&mut out, date);
    push_text(&mut out, "'");
    out
}

fn build_balance(message: &[u8], fixtures: &Fixtures, fault: Option<ErrorType>) -> (out: Vec<u8>)
    ensures
        out@ == balance_part(message@, fixtures@, fault),
{
    match extract_seg_num_ver(message, "HKSAL") {
        Some((number, _)) => {
            if let Some(t) = fault {
                return build_error_reply(number.as_str(), t);
            }
            if fixtures.accounts.len() > 0 {
                let a = &fixtures.accounts[0];
                assert(fixtures@.accounts[0] == a@);
                build_balance_reply(
                    number.as_str(),
                    a.balance.as_str(),
                    a.currency.as_str(),
                    a.balance_date.as_str(),
                )
            } else {
                build_balance_reply(number.as_str(), "1523,42", "EUR", "20250115")
            }
        },
        None => Vec::new(),
    }
}

/// The page to deliver from a point on, and the point of the next page.
pub open spec fn page_at(start: int, pages: int) -> (int, Option<int>) {
    (
        if start < pages {
            start
        } else {
            pages - 1
        },
        if start + 1 < pages {
            Some(start + 1)
        } else {
            None
        },
    )
}

/// The code that comes with a page: 3040 and the point of the next page, where
/// there is one.
pub open spec fn paging_code(next: Option<int>) -> Seq<u8> {
    match next {
        Some(n) => encode_utf8("+3040::Es liegen weitere Informationen vor:"@) + encode_utf8(
            decimal(n as nat),
        ) + encode_utf8("'"@),
        None => encode_utf8("+0010::Umsaetze geliefert'"@),
    }
}

/// The answer to HKKAZ: one page with its code.
pub open spec fn transactions_reply(number: Seq<char>, start: int) -> Seq<u8> {
    let pages = transaction_pages();
    let (shown, next) = page_at(start, pages.len() as int);
    encode_utf8("HIRMS::2:"@) + encode_utf8(number) + paging_code(next) + encode_utf8(
        "HIKAZ::7:"@,
    ) + encode_utf8(number) + encode_utf8("+@"@) + encode_utf8(decimal(pages[shown].len()))
        + encode_utf8("@"@) + pages[shown] + encode_utf8("'"@)
}

/// The part that belongs to HKKAZ: a page, or the error to inject.
pub open spec fn transactions_part(message: Seq<u8>, fault: Option<ErrorType>) -> Seq<u8> {
    match number_version_in(message, "HKKAZ"@) {
        Some((number, _)) => match fault {
            Some(t) => error_reply(number, t),
            None => transactions_reply(
                number,
                match touchdown_in(message) {
                    Some(t) => t,
                    None => 0,
                },
            ),
        },
        None => Seq::empty(),
    }
}

fn build_paging_code(next: Option<usize>) -> (out: Vec<u8>)
    ensures
        out@ == paging_code(
            match next {
                Some(n) => Some(n as int),
                None => None,
            },
        ),
{
    match next {
        Some(n) => {
            let mut out: Vec<u8> = text_bytes("+3040::Es liegen weitere Informationen vor:");
            push_text(&mut out, decimal_string(n as u128).as_str());
            push_text(&mut out, "'");
            out
        },
        None => text_bytes("+0010::Umsaetze geliefert'"),
    }
}

fn build_transactions(message: &[u8], fault: Option<ErrorType>) -> (out: Vec<u8>)
    ensures
        out@ == transactions_part(message@, fault),
{
    let number = match extract_seg_num_ver(message, "HKKAZ") {
        Some((n, _)) => n,
        None => {
            return Vec::new();
        },
    };
    if let Some(t) = fault {
        return build_error_reply(number.as_str(), t);
    }
    let start: u32 = match extract_hkkaz_touchdown(message) {
        Some(t) => t,
        None => 0,
    };
    let pages = build_transaction_pages();
    assert(pages@.len() == views(pages@).len());
    let count: usize = pages.len();
    let next: Option<usize> = if (start as u64) + 1 < count as u64 {
        Some(start as usize + 1)
    } else {
        None
    };
    let shown: usize = if (start as u64) < count as u64 {
        start as usize
    } else {
        count - 1
    };
    let page = &pages[shown];
    assert(page@ == transaction_pages()[shown as int]);
    let mut out: Vec<u8> = text_bytes("HIRMS::2:");
    push_text(&mut out, number.as_str());
    push_bytes(&mut out, build_paging_code(next).as_slice());
    push_text(&mut out, "HIKAZ::7:");
    push_text(&mut out, number.as_str());
    push_text(&mut out, "+@");
    push_text(&mut out, decimal_string(page.len() as u128).as_str());
    push_text(&mut out, "@");
    push_bytes(&mut out, page.as_slice());
    push_text(&mut out, "'");
    out
}

/// A text with `?` in front of characters that have a meaning of their own.
pub open spec fn escaped(s: Seq<char>) -> Seq<char>
    decreases s.len(),
{
    if s.len() == 0 {
        Seq::empty()
    } else {
        let c = s.last();
        let before = escaped(s.drop_last());
        if c == '?' || c == '+' || c == ':' || c == '\'' || c == '@' {
            before.push('?').push(c)
        } else {
            before.push(c)
        }
    }
}

fn escape(s: &str) -> (r: String)
    ensures
        r@ == escaped(s@),
{
    let cs: Vec<char> = chars_of(s);
    let mut r = String::new();
    let mut i: usize = 0;
    assert(r@ =~= escaped(s@.take(0)));
    while i < cs.len()
        invariant
            i <= cs@.len(),
            cs@ == s@,
            r@ == escaped(s@.take(i as int)),
        decreases cs@.len() - i,
    {
        let c: char = cs[i];
        proof {
            assert(s@.take(i + 1).drop_last() =~= s@.take(i as int));
            assert(s@.take(i + 1).last() == c);
        }
        if c == '?' || c == '+' || c == ':' || c == '\'' || c == '@' {
            push_char(&mut r, '?');
        }
        push_char(&mut r, c);
        i += 1;
    }
    assert(s@.take(i as int) =~= s@);
    r
}

/// One position as a DEG, with the `+` in front.
pub open spec fn holding_deg(h: HoldingData) -> Seq<u8> {
    encode_utf8("+"@) + encode_utf8(h.isin) + encode_utf8(":"@) + encode_utf8(h.wkn) + encode_utf8(
        ":"@,
    ) + encode_utf8(escaped(h.name)) + encode_utf8(":"@) + encode_utf8(h.quantity) + encode_utf8(
        ":"@,
    ) + encode_utf8(h.price) + encode_utf8(":"@) + encode_utf8(h.price_currency) + encode_utf8(
        ":"@,
    ) + encode_utf8(h.price_date) + encode_utf8(":"@) + encode_utf8(h.market_value)
}

/// Positions as DEGs.
pub open spec fn holding_degs(hs: Seq<HoldingData>) -> Seq<u8>
    decreases hs.len(),
{
    if hs.len() == 0 {
        Seq::empty()
    } else {
        holding_degs(hs.drop_last()) + holding_deg(hs.last())
    }
}

/// The account that positions belong to: the first one, unless there is none or
/// nothing to deliver.
pub open spec fn holdings_account(f: FixtureData) -> Seq<u8> {
    if f.holdings.len() > 0 && f.accounts.len() > 0 {
        encode_utf8(f.accounts[0].iban) + encode_utf8(":"@) + encode_utf8(f.accounts[0].bic)
    } else {
        encode_utf8("DE89370400440532013000:GENODE23X42"@)
    }
}

/// The answer to HKWPD.
pub open spec fn holdings_reply(number: Seq<char>, f: FixtureData) -> Seq<u8> {
    encode_utf8("HIRMS::2:"@) + encode_utf8(number) + encode_utf8(
        "+0010::Depot abgerufen'HIWPD::6:"@,
    ) + encode_utf8(number) + encode_utf8("+"@) + holdings_account(f) + holding_degs(f.holdings)
        + encode_utf8("'"@)
}

/// The part that belongs to HKWPD: all positions, or the error to inject.
pub open spec fn holdings_part(
    message: Seq<u8>,
    f: FixtureData,
    fault: Option<ErrorType>,
) -> Seq<u8> {
    match number_version_in(message, "HKWPD"@) {
        Some((number, _)) => match fault {
            Some(t) => error_reply(number, t),
            None => holdings_reply(number, f),
        },
        None => Seq::empty(),
    }
}

fn build_holding(h: &MockHolding) -> (out: Vec<u8>)
    ensures
        out@ == holding_deg(h@),
{
    let mut out: Vec<u8> = text_bytes("+");
    push_text(&mut out, h.isin.as_str());
    push_text(&mut out, ":");
    push_text(&mut out, h.wkn.as_str());
    push_text(&mut out, ":");
    push_text(&mut out, escape(h.name.as_str()).as_str());
    push_text(&mut out, ":");
    push_text(&mut out, h.quantity.as_str());
    push_text(&mut out, ":");
    push_text(&mut out, h.price.as_str());
    push_text(&mut out, ":");
    push_text(&mut out, h.price_currency.as_str());
    push_text(&mut out, ":");
    push_text(&mut out, h.price_date.as_str());
    push_text(&mut out, ":");
    push_text(&mut out, h.market_value.as_str());
    out
}

fn build_holding_degs(holdings: &Vec<MockHolding>) -> (out: Vec<u8>)
    ensures
        out@ == holding_degs(views(holdings@)),
{
    let ghost hs = views(holdings@);
    let mut out: Vec<u8> = Vec::new();
    let mut i: usize = 0;
    while i < holdings.len()
        invariant
            i <= holdings@.len(),
            hs == views(holdings@),
            out@ == holding_degs(hs.take(i as int)),
        decreases holdings@.len() - i,
    {
        proof {
            assert(hs.take(i + 1).drop_last() =~= hs.take(i as int));
            assert(hs.take(i + 1).last() == holdings@[i as int]@);
        }
        push_bytes(&mut out, build_holding(&holdings[i]).as_slice());
        i += 1;
    }
    assert(hs.take(i as int) =~= hs);
    out
}

fn build_holdings_account(fixtures: &Fixtures) -> (out: Vec<u8>)
    ensures
        out@ == holdings_account(fixtures@),
{
    if fixtures.holdings.len() > 0 && fixtures.accounts.len() > 0 {
        let a = &fixtures.accounts[0];
        assert(fixtures@.accounts[0] == a@);
        let mut out: Vec<u8> = text_bytes(a.iban.as_str());
        push_text(&mut out, ":");
        push_text(&mut out, a.bic.as_str());
        out
    } else {
        text_bytes("DE89370400440532013000:GENODE23X42")
    }
}

fn build_holdings(message: &[u8], fixtures: &Fixtures, fault: Option<ErrorType>) -> (out: Vec<u8>)
    ensures
        out@ == holdings_part(message@, fixtures@, fault),
{
    let number = match extract_seg_num_ver(message, "HKWPD") {
        Some((n, _)) => n,
        None => {
            return Vec::new();
        },
    };
    if let Some(t) = fault {
        return build_error_reply(number.as_str(), t);
    }
    let mut out: Vec<u8> = text_bytes("HIRMS::2:");
    push_text(&mut out, number.as_str());
    push_text(&mut out, "+0010::Depot abgerufen'HIWPD::6:");
    push_text(&mut out, number.as_str());
    push_text(&mut out, "+");
    push_bytes(&mut out, build_holdings_account(fixtures).as_slice());
    push_bytes(&mut out, build_holding_degs(&fixtures.holdings).as_slice());
    push_text(&mut out, "'");
    out
}

/// The part that belongs to HKEND.
pub open spec fn end_part(message: Seq<u8>) -> Seq<u8> {
    text_if(mentions(message, "HKEND"@), "HIRMS::2+0010::Dialog beendet'"@)
}

/// The answer to a message with an accepted PIN. `system_id` is the one to
/// assign where the message asks for one. The operation `error_on` is answered
/// with the error `error_type`. HKTAN is accepted in silence.
pub open spec fn accepted_answer(
    message: Seq<u8>,
    f: FixtureData,
    locked: bool,
    port: int,
    system_id: Seq<char>,
    error_on: Option<ErrorOn>,
    error_type: ErrorType,
) -> Seq<u8> {
    let init = fault_on(error_on, error_type, ErrorOn::Init);
    greeting() + preparation_part(message, locked, port, init) + sync_part(message, system_id, init)
        + accounts_part(message) + balance_part(
        message,
        f,
        fault_on(error_on, error_type, ErrorOn::Balance),
    ) + transactions_part(message, fault_on(error_on, error_type, ErrorOn::Transactions))
        + holdings_part(message, f, fault_on(error_on, error_type, ErrorOn::Holdings)) + end_part(
        message,
    )
}

/// Writes the answer to a message with an accepted PIN.
pub fn build_accepted_answer(
    message: &[u8],
    fixtures: &Fixtures,
    locked: bool,
    port: u16,
    system_id: &str,
    error_on: Option<ErrorOn>,
    error_type: ErrorType,
) -> (out: Vec<u8>)
    ensures
        out@ == accepted_answer(
            message@,
            fixtures@,
            locked,
            port as int,
            system_id@,
            error_on,
            error_type,
        ),
{
    let init = find_fault(error_on, error_type, ErrorOn::Init);
    let balance = find_fault(error_on, error_type, ErrorOn::Balance);
    let transactions = find_fault(error_on, error_type, ErrorOn::Transactions);
    let holdings = find_fault(error_on, error_type, ErrorOn::Holdings);
    let mut sync: Vec<u8> = text_bytes("HISYN::4:5+");
    push_text(&mut sync, system_id);
    push_text(&mut sync, "'");
    let mut out: Vec<u8> = text_bytes("HIRMG::2+0010::Nachricht entgegengenommen'");
    push_bytes(&mut out, build_preparation(message, locked, port, init).as_slice());
    push_bytes_if(&mut out, asks_for_system(message, init), sync.as_slice());
    push_text_if(
        &mut out,
        has_segment(message, "HKSPA"),
        "HISPA::1:4+J:DE11123456780000000001:GENODE23X42:00001::280:12345678'",
    );
    push_bytes(&mut out, build_balance(message, fixtures, balance).as_slice());
    push_bytes(&mut out, build_transactions(message, transactions).as_slice());
    push_bytes(&mut out, build_holdings(message, fixtures, holdings).as_slice());
    push_text_if(&mut out, has_segment(message, "HKEND"), "HIRMS::2+0010::Dialog beendet'");
    out
}

/// The answer to a wrong PIN.
pub fn build_refusal() -> (out: Vec<u8>)
    ensures
        out@ == refusal(),
{
    text_bytes("HIRMG::2+9910::Pin ung\u{fc}ltig'")
}

// ---- Laws ----

/// The pages that are delivered from a point on, where each request states the
/// point of the answer before.
pub open spec fn page_walk(start: int, pages: int) -> Seq<int>
    decreases pages - start,
{
    let (shown, next) = page_at(start, pages);
    match next {
        Some(n) => seq![shown] + page_walk(n, pages),
        None => seq![shown],
    }
}

/// Going from page to page by the points that the answers state delivers every
/// page once, in order, and ends behind the last one.
pub proof fn law_pages_in_order(pages: int)
    requires
        pages > 0,
    ensures
        page_walk(0, pages) == Seq::new(pages as nat, |i: int| i),
{
    lemma_page_walk(0, pages);
}

proof fn lemma_page_walk(start: int, pages: int)
    requires
        0 <= start < pages,
    ensures
        page_walk(start, pages) == Seq::new((pages - start) as nat, |i: int| start + i),
    decreases pages - start,
{
    if start + 1 < pages {
        lemma_page_walk(start + 1, pages);
    }
    assert(page_walk(start, pages) =~= Seq::new((pages - start) as nat, |i: int| start + i));
}

} // verus!
