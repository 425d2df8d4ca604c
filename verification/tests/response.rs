use std::str::FromStr;

use fints::codes::ResponseCode;
use fints::dates::Date;
use fints::decimal::Decimal;
use fints::element::RawSegment;
use fints::parser;
use fints::segments::response::{
    extract_allowed_security_functions, extract_mt940_data, find_error,
    find_highest_segment_version, find_touchdown, hiwpd_payloads, looks_like_bic, looks_like_iban,
    looks_like_isin, looks_like_wkn, parse_hibpa_version, parse_hipins, parse_hisal,
    parse_hisal_on, parse_hispa, parse_hisyn_system_id, parse_hitab, parse_hitan, parse_hitans,
    parse_hiupa_version, parse_hiupd, parse_hiwpd, parse_hiwpd_checked,
};
use fints::{SecurityFunction, SegmentType, TanProcess, TouchdownPoint};

fn parse_segment(s: &str) -> RawSegment {
    let segments = parser::parse_message(s.as_bytes()).unwrap();
    segments.into_iter().next().unwrap()
}

fn value(d: &Decimal) -> rust_decimal::Decimal {
    let mut v = rust_decimal::Decimal::from_i128_with_scale(d.magnitude() as i128, d.scale());
    v.set_sign_negative(d.is_negative());
    v
}

// ---- What texts look like ----

#[test]
fn test_looks_like_iban_valid() {
    assert!(looks_like_iban("DE89370400440532013000"));
    assert!(looks_like_iban("GB29NWBK60161331926819"));
    assert!(looks_like_iban("FR7630006000011234567890189"));
}

#[test]
fn test_looks_like_iban_invalid() {
    assert!(!looks_like_iban(""));
    assert!(!looks_like_iban("DE89"));
    assert!(!looks_like_iban("1234567890123456"));
    assert!(!looks_like_iban("de89370400440532013000"));
}

#[test]
fn test_looks_like_bic_valid() {
    assert!(looks_like_bic("COBADEFF"));
    assert!(looks_like_bic("COBADEFFXXX"));
    assert!(looks_like_bic("BYLADEM1001"));
}

#[test]
fn test_looks_like_bic_invalid() {
    assert!(!looks_like_bic(""));
    assert!(!looks_like_bic("COBADE"));
    assert!(!looks_like_bic("COBADEFF1"));
    assert!(!looks_like_bic("12BADEFFXXX"));
}

#[test]
fn test_looks_like_isin_valid() {
    assert!(looks_like_isin("DE0005140008"));
    assert!(looks_like_isin("US0378331005"));
    assert!(looks_like_isin("IE00B4L5Y983"));
    assert!(looks_like_isin("LU0274208692"));
}

#[test]
fn test_looks_like_isin_invalid() {
    assert!(!looks_like_isin(""));
    assert!(!looks_like_isin("DE000514000"));
    assert!(!looks_like_isin("DE00051400089"));
    assert!(!looks_like_isin("1E0005140008"));
    assert!(!looks_like_isin("de0005140008"));
}

#[test]
fn isins_end_with_a_check_digit() {
    assert!(!looks_like_isin("DE000514000X"));
}

#[test]
fn test_looks_like_wkn_valid() {
    assert!(looks_like_wkn("514000"));
    assert!(looks_like_wkn("A1JMDF"));
    assert!(looks_like_wkn("DBX1MW"));
}

#[test]
fn test_looks_like_wkn_invalid() {
    assert!(!looks_like_wkn(""));
    assert!(!looks_like_wkn("51400"));
    assert!(!looks_like_wkn("5140001"));
    assert!(!looks_like_wkn("514-00"));
}

// ---- Simple segments ----

#[test]
fn test_parse_hibpa_version() {
    let seg = parse_segment("HIBPA:5:3:4+42+280+0+1+1+0'");
    assert_eq!(parse_hibpa_version(&seg), 42);
}

#[test]
fn test_parse_hiupa_version() {
    let seg = parse_segment("HIUPA:6:4:4+test1+7+0'");
    assert_eq!(parse_hiupa_version(&seg), 0);
}

#[test]
fn test_parse_hisyn_system_id() {
    let seg = parse_segment("HISYN:173:4:6+MYSYSID123'");
    assert_eq!(parse_hisyn_system_id(&seg), "MYSYSID123");
}

// ---- Response codes ----

#[test]
fn test_extract_allowed_security_functions_empty() {
    let codes = vec![ResponseCode::new("0020", "OK")];
    assert!(extract_allowed_security_functions(&codes).is_empty());
}

#[test]
fn test_extract_allowed_security_functions() {
    let codes = vec![ResponseCode::with_params(
        "3920",
        "Zugelassene Verfahren",
        vec!["912".into(), "940".into()],
    )];
    let sfs = extract_allowed_security_functions(&codes);
    assert_eq!(sfs.len(), 2);
    assert_eq!(sfs[0], SecurityFunction::new("912"));
    assert_eq!(sfs[1], SecurityFunction::new("940"));
}

#[test]
fn test_find_touchdown() {
    let codes = vec![
        ResponseCode::new("0020", "OK"),
        ResponseCode::with_params("3040", "Aufsetzpunkt", vec!["TOUCH123".into()]),
    ];
    let td = find_touchdown(&codes);
    assert_eq!(td, Some(TouchdownPoint::new("TOUCH123")));
}

#[test]
fn test_find_touchdown_none() {
    let codes = vec![ResponseCode::new("0020", "OK")];
    assert!(find_touchdown(&codes).is_none());
}

#[test]
fn test_find_error_present() {
    let codes = vec![
        ResponseCode::new("0020", "OK"),
        ResponseCode::new("9010", "General error"),
    ];
    let err = find_error(&codes);
    assert!(err.is_some());
    assert!(err.unwrap().is_error());
}

#[test]
fn test_find_error_absent() {
    let codes = vec![ResponseCode::new("0020", "OK")];
    assert!(find_error(&codes).is_none());
}

// ---- HIPINS ----

#[test]
fn test_parse_hipins() {
    let seg = parse_segment("HIPINS:6:1:4+1+1+0+HKSAL:N+HKKAZ:N+HKCCS:J+HKTAN:N'");
    let map = parse_hipins(&seg);
    assert_eq!(map.get(&SegmentType::new("HKSAL")), Some(&false));
    assert_eq!(map.get(&SegmentType::new("HKKAZ")), Some(&false));
    assert_eq!(map.get(&SegmentType::new("HKCCS")), Some(&true));
    assert_eq!(map.get(&SegmentType::new("HKTAN")), Some(&false));
}

#[test]
fn hipins_rules_may_stand_in_one_deg() {
    let seg = parse_segment("HIPINS:54:1:4+1+1+1+5:20:6:Benutzer ID::HKSPA:N:HKKAZ:J:HKKAZ:N:HKTAN'");
    let map = parse_hipins(&seg);
    assert_eq!(map.get(&SegmentType::new("HKSPA")), Some(&false));
    assert_eq!(map.get(&SegmentType::new("HKKAZ")), Some(&false));
    assert_eq!(map.get(&SegmentType::new("HKTAN")), None);
}

// ---- Segment versions ----

#[test]
fn test_find_highest_segment_version() {
    let seg_v5 = parse_segment("HISALS:10:5:4+1+1'");
    let seg_v7 = parse_segment("HISALS:11:7:4+1+1'");
    let segments = vec![seg_v5, seg_v7];
    assert_eq!(find_highest_segment_version(&segments, "HISALS", 7), 7);
    assert_eq!(find_highest_segment_version(&segments, "HISALS", 6), 5);
    assert_eq!(find_highest_segment_version(&segments, "HIXXXS", 7), 0);
}

#[test]
fn test_find_highest_segment_version_hiwpds() {
    let seg_v1 = parse_segment("HIWPDS:10:1:4+1+1'");
    let seg_v6 = parse_segment("HIWPDS:11:6:4+1+1'");
    let segments = vec![seg_v1, seg_v6];
    assert_eq!(find_highest_segment_version(&segments, "HIWPDS", 7), 6);
    assert_eq!(find_highest_segment_version(&segments, "HIWPDS", 5), 1);
}

// ---- HIWPD ----

#[test]
fn test_parse_hiwpd_basic() {
    let seg = parse_segment(
        "HIWPD:5:6:3+DE04120300001084174299:BYLADEM1001+DE0005140008:514000:DEUTSCHE BANK AG:100,00:42,50:EUR:20260315'",
    );
    let holdings = parse_hiwpd(&[seg]);
    assert_eq!(holdings.len(), 1);

    let h = &holdings[0];
    assert_eq!(h.isin.as_ref().unwrap().as_str(), "DE0005140008");
    assert_eq!(h.wkn.as_ref().unwrap().as_str(), "514000");
    assert_eq!(h.name, "DEUTSCHE BANK AG");
    assert_eq!(value(&h.quantity), rust_decimal::Decimal::new(10000, 2));
    assert_eq!(h.price.as_ref().map(value), Some(rust_decimal::Decimal::new(4250, 2)));
    assert_eq!(h.price_currency.as_ref().unwrap().as_str(), "EUR");
    assert_eq!(h.price_date, Some(Date::from_ymd_opt(2026, 3, 15).unwrap()));
}

#[test]
fn test_parse_hiwpd_multiple_positions() {
    let seg = parse_segment(
        "HIWPD:5:6:3+DE04120300001084174299:BYLADEM1001+DE0005140008:514000:DEUTSCHE BANK:100,00:42,50:EUR:20260315+US0378331005:865985:APPLE INC:25,00:178,30:USD:20260314'",
    );
    let holdings = parse_hiwpd(&[seg]);
    assert_eq!(holdings.len(), 2);

    assert_eq!(holdings[0].isin.as_ref().unwrap().as_str(), "DE0005140008");
    assert_eq!(holdings[0].name, "DEUTSCHE BANK");

    assert_eq!(holdings[1].isin.as_ref().unwrap().as_str(), "US0378331005");
    assert_eq!(holdings[1].wkn.as_ref().unwrap().as_str(), "865985");
    assert_eq!(holdings[1].name, "APPLE INC");
    assert_eq!(value(&holdings[1].quantity), rust_decimal::Decimal::new(2500, 2));
}

#[test]
fn test_parse_hiwpd_empty() {
    let seg = parse_segment("HIWPD:5:6:3+DE04120300001084174299:BYLADEM1001'");
    let holdings = parse_hiwpd(&[seg]);
    assert!(holdings.is_empty());
}

#[test]
fn test_hiwpd_payloads_collect_the_binary_deg() {
    let seg = parse_segment("HIWPD:4:6:3+@5@hello'");
    assert_eq!(hiwpd_payloads(&[seg]), vec![b"hello".to_vec()]);
}

#[test]
fn test_hiwpd_payloads_ignore_structured_positions() {
    let seg = parse_segment(
        "HIWPD:5:6:3+DE04120300001084174299:BYLADEM1001+DE0005140008:514000:DEUTSCHE BANK AG:100,00:42,50:EUR:20260315'",
    );
    assert!(hiwpd_payloads(&[seg]).is_empty());
}

#[test]
fn test_parse_hiwpd_multiple_segments() {
    let seg1 = parse_segment(
        "HIWPD:5:6:3+DE04120300001084174299:BYLADEM1001+DE0005140008:514000:DEUTSCHE BANK:100,00:42,50:EUR:20260315'",
    );
    let seg2 = parse_segment(
        "HIWPD:6:6:3+DE04120300001084174299:BYLADEM1001+US0378331005:865985:APPLE INC:25,00:178,30:USD:20260314'",
    );
    let holdings = parse_hiwpd(&[seg1, seg2]);
    assert_eq!(holdings.len(), 2);
}

#[test]
fn test_parse_hiwpd_ignores_non_hiwpd() {
    let seg =
        parse_segment("HISAL:5:7:3+DE04120300001084174299:BYLADEM1001+C:1234,56:EUR:20260315'");
    let holdings = parse_hiwpd(&[seg]);
    assert!(holdings.is_empty());
}

#[test]
fn test_parse_hiwpd_market_value_computed() {
    let seg = parse_segment(
        "HIWPD:5:6:3+DE04120300001084174299:BYLADEM1001+DE0005140008:514000:DEUTSCHE BANK:10,00:100,00:EUR:20260315'",
    );
    let holdings = parse_hiwpd(&[seg]);
    assert_eq!(holdings.len(), 1);
    let h = &holdings[0];
    assert_eq!(h.market_value.as_ref().map(value), Some(rust_decimal::Decimal::new(100000, 2)));
}

#[test]
fn test_parse_hiwpd_isin_only() {
    let seg = parse_segment(
        "HIWPD:5:6:3+DE04120300001084174299:BYLADEM1001+IE00B4L5Y983:ISHARES MSCI WORLD:50,00:85,20:EUR:20260315'",
    );
    let holdings = parse_hiwpd(&[seg]);
    assert_eq!(holdings.len(), 1);
    assert_eq!(holdings[0].isin.as_ref().unwrap().as_str(), "IE00B4L5Y983");
    assert!(holdings[0].wkn.is_none());
}

#[test]
fn positions_keep_what_was_read() {
    let seg = parse_segment(
        "HIWPD:5:6:3+A+DE0005140008:514000:DEUTSCHE BANK:10,00:100,00:EUR:20260315:1000,00:XETRA'",
    );
    let holdings = parse_hiwpd(&[seg]);
    let h = &holdings[0];
    assert_eq!(h.exchange.as_deref(), Some("XETRA"));
    assert_eq!(h.market_value_currency.as_ref().unwrap().as_str(), "EUR");
    assert!(h.acquisition_value.is_none() && h.profit_loss.is_none() && h.depot_id.is_none());
    let raw: Vec<(&str, Option<&str>)> =
        h.raw.iter().map(|f| (f.key.as_str(), f.value.as_deref())).collect();
    assert_eq!(
        raw,
        vec![
            ("isin", Some("DE0005140008")),
            ("wkn", Some("514000")),
            ("name", Some("DEUTSCHE BANK")),
            ("quantity", Some("10.00")),
            ("price", Some("100.00")),
            ("price_currency", Some("EUR")),
            ("price_date", Some("2026-03-15")),
            ("market_value", Some("1000.00")),
            ("exchange", Some("XETRA")),
        ]
    );
}

#[test]
fn positions_without_isin_and_wkn_are_dropped() {
    let seg = parse_segment("HIWPD:5:6:3+A+NAME ONLY:10,00:100,00:EUR'");
    assert!(parse_hiwpd(&[seg]).is_empty());
}

#[test]
fn a_position_without_amounts_has_quantity_zero() {
    let seg = parse_segment("HIWPD:5:6:3+A+DE0005140008:514000:DEUTSCHE BANK'");
    let holdings = parse_hiwpd(&[seg]);
    assert_eq!(holdings[0].quantity.to_text(), "0");
    assert!(holdings[0].price.is_none() && holdings[0].market_value.is_none());
}

#[test]
fn market_values_that_are_too_large_are_noticed() {
    let large = parse_segment(
        "HIWPD:5:6:3+A+DE0005140008:514000:BANK:79228162514264337593543950335,:10,00'",
    );
    assert!(parse_hiwpd_checked(&[large]).is_none());
    let small = parse_segment("HIWPD:5:6:3+A+DE0005140008:514000:BANK:2,00:10,50'");
    let holdings = parse_hiwpd_checked(&[small]).unwrap();
    assert_eq!(holdings[0].market_value.as_ref().unwrap().to_text(), "21.0000");
}

#[test]
fn an_impossible_date_is_an_amount() {
    let seg = parse_segment("HIWPD:5:6:3+A+DE0005140008:514000:BANK:20269999'");
    let holdings = parse_hiwpd(&[seg]);
    assert!(holdings[0].price_date.is_none());
    assert_eq!(holdings[0].quantity.to_text(), "20269999");
}

// ---- HISAL ----

#[test]
fn balances_with_all_fields() {
    let seg = parse_segment(
        "HISAL:5:7:3+1::280:12345678+Girokonto+EUR+D:1234,56:EUR:20260315+C:10,5:EUR:20260316+1000,+2234,56'",
    );
    let b = parse_hisal(&seg).unwrap();
    assert_eq!(b.amount.to_text(), "-1234.56");
    assert_eq!(b.date, Date::from_ymd_opt(2026, 3, 15).unwrap());
    assert_eq!(b.currency.as_str(), "EUR");
    assert_eq!(b.pending_amount.as_ref().unwrap().to_text(), "10.5");
    assert_eq!(b.pending_date, Date::from_ymd_opt(2026, 3, 16));
    assert_eq!(b.credit_line.as_ref().unwrap().to_text(), "1000");
    assert_eq!(b.available.as_ref().unwrap().to_text(), "2234.56");
}

#[test]
fn balances_with_defaults() {
    let seg = parse_segment("HISAL:5:7:3+A+Girokonto+USD+C:1,00'");
    assert!(parse_hisal(&seg).is_none());
    let day = Date::from_ymd_opt(2020, 2, 29).unwrap();
    let seg = parse_segment("HISAL:5:7:3+A+Girokonto+USD+C:1,00::2026'");
    let b = parse_hisal_on(&seg, day).unwrap();
    assert_eq!(b.currency.as_str(), "USD");
    assert_eq!(b.date, day);
    assert!(b.credit_line.is_none() && b.available.is_none() && b.pending_amount.is_none());
    let seg = parse_segment("HISAL:5:7:3+A+Girokonto++C:1,00::20260315'");
    assert_eq!(parse_hisal(&seg).unwrap().currency.as_str(), "EUR");
    let seg = parse_segment("HISAL:5:7:3+A+Girokonto+EUR+C:viel:EUR:20260315'");
    assert!(parse_hisal(&seg).is_none());
}

#[test]
fn today_stands_in_for_a_missing_date() {
    let seg = parse_segment("HISAL:5:7:3+A+Girokonto+EUR+C:1,00:EUR'");
    let b = parse_hisal(&seg).unwrap();
    assert!(b.date.year() >= 2020);
}

// ---- TAN methods, challenges and media ----

#[test]
fn tan_methods_by_version() {
    let seg = parse_segment(
        "HITANS:169:7:4+1+1+1+912:2:x:chipTAN:5:6:7:8:9:10:11:12:13:2:14:15:16:17:18:19:20:J:30:10:3+:2:3+940:S:::::::'",
    );
    let methods = parse_hitans(&seg);
    assert_eq!(methods.len(), 2);
    let m = &methods[0];
    assert_eq!(m.security_function.as_str(), "912");
    assert_eq!(m.tan_process, TanProcess::Process2);
    assert_eq!(m.name, "chipTAN");
    assert!(m.needs_tan_medium && m.is_decoupled);
    assert_eq!(
        (m.decoupled_max_polls, m.wait_before_first_poll, m.wait_before_next_poll),
        (30, 10, 3)
    );
    assert_eq!(m.hktan_version, 7);
    let m = &methods[1];
    assert_eq!(m.tan_process, TanProcess::ProcessS);
    assert_eq!(m.name, "TAN-940");
    assert_eq!(m.decoupled_max_polls, -1);
    assert!(!m.is_decoupled && !m.needs_tan_medium);

    let codes = parse_segment("HITANS:169:7:4+1+1+1+901:1:x+903:3:x+904:4:x+905:5:x+906::x'");
    let processes: Vec<TanProcess> =
        parse_hitans(&codes).iter().map(|m| m.tan_process.clone()).collect();
    assert_eq!(
        processes,
        vec![
            TanProcess::Process1,
            TanProcess::Process3,
            TanProcess::Process4,
            TanProcess::Other("5".to_string()),
            TanProcess::Other(String::new()),
        ]
    );

    let old = parse_segment("HITANS:169:5:4+1+1+1+900:2:iTAN:x'");
    assert_eq!(parse_hitans(&old)[0].name, "iTAN");
    let short = parse_segment("HITANS:169:5:4+1+1'");
    assert!(parse_hitans(&short).is_empty());
}

#[test]
fn challenges_by_version() {
    let seg = parse_segment("HITAN:5:7:4+4++ref+Bitte bestaetigen+@2@hh'");
    let (task, challenge, hhduc) = parse_hitan(&seg);
    assert_eq!((task.as_str(), challenge.as_str()), ("ref", "Bitte bestaetigen"));
    assert_eq!(hhduc, Some(b"hh".to_vec()));
    let seg = parse_segment("HITAN:5:5:4+4+ref+Text'");
    let (task, challenge, hhduc) = parse_hitan(&seg);
    assert_eq!((task.as_str(), challenge.as_str(), hhduc), ("ref", "Text", None));
}

#[test]
fn active_media_are_listed() {
    let seg = parse_segment("HITAB:5:4:3+0+A:M:Handy+I:M:Alt+1:G:Karte+A:M:'");
    assert_eq!(parse_hitab(&seg), vec!["Handy".to_string(), "Karte".to_string()]);
}

// ---- Accounts ----

#[test]
fn sepa_accounts_with_and_without_flag() {
    let seg = parse_segment(
        "HISPA:5:1:3+J:DE11123456780000000001:GENODE23X42:1:2:280:12345678+DE11123456780000000002:GENODE23X42:3:4:280:12345678+J::X'",
    );
    let accounts = parse_hispa(&seg);
    assert_eq!(accounts.len(), 2);
    for (a, iban, number, sub) in [
        (&accounts[0], "DE11123456780000000001", "1", "2"),
        (&accounts[1], "DE11123456780000000002", "3", "4"),
    ] {
        assert_eq!(a.iban.as_str(), iban);
        assert_eq!(a.bic.as_str(), "GENODE23X42");
        assert_eq!(a.account_number, number);
        assert_eq!(a.sub_account, sub);
        assert_eq!(a.blz.as_str(), "12345678");
    }
}

#[test]
fn user_parameters_of_an_account() {
    let seg = parse_segment(
        "HIUPD:58:6:4+1::280:12345678+DE11123456780000000001+GENODE23X42+test1+EUR++Zweiter++Girokonto'",
    );
    let a = parse_hiupd(&seg).unwrap();
    assert_eq!(a.iban.as_str(), "DE11123456780000000001");
    assert_eq!(a.bic.as_str(), "GENODE23X42");
    assert_eq!(a.account_number, "1");
    assert_eq!(a.blz.as_str(), "12345678");
    assert_eq!(a.owner.as_deref(), Some("Zweiter"));
    assert_eq!(a.product_name.as_deref(), Some("Girokonto"));
    assert_eq!(a.currency.as_ref().unwrap().as_str(), "EUR");
    assert!(parse_hiupd(&parse_segment("HIUPD:58:6:4+1'")).is_none());
}

// ---- HIKAZ ----

#[test]
fn mt940_data_is_collected_over_segments() {
    let segments =
        parser::parse_message(b"HIKAZ:5:7:3+@2@ab+@1@p'HISAL:6:7:3+@1@x'HIKAZ:7:7:3+@1@c'").unwrap();
    let data = extract_mt940_data(&segments);
    assert_eq!(data.booked, b"abc".to_vec());
    assert_eq!(data.pending, b"p".to_vec());
}

// ---- Amounts and dates against their crates ----

#[test]
fn amounts_are_written_as_rust_decimal_writes_them() {
    for text in [
        "0", "0.0", "1523.42", "-1523.42", "0.05", "-0.05", "100.00", "1e3", "+7.5", "1_000",
        "79228162514264337593543950335", ".5", "5.", "-0",
    ] {
        let ours = fints::decimal::parse_amount(text);
        let theirs = rust_decimal::Decimal::from_str(text);
        assert_eq!(ours.is_some(), theirs.is_ok(), "{}", text);
        if let (Some(a), Ok(b)) = (ours, theirs) {
            assert_eq!(a.to_text(), b.to_string());
            assert_eq!(a.negate().to_text(), (-b).to_string());
        }
    }
    assert!(fints::decimal::parse_amount("").is_none());
    assert!(fints::decimal::parse_amount("abc").is_none());
}

#[test]
fn products_are_those_of_rust_decimal() {
    for (x, y) in [
        ("10.00", "100.00"),
        ("-2.5", "0.4"),
        ("0", "-3.1"),
        ("0.0000000000000000000000000001", "0.5"),
        ("79228162514264337593543950335", "10"),
        ("1.2345678901234567890123456789", "9.8765432109876543210987654321"),
    ] {
        let a = fints::decimal::parse_amount(x).unwrap();
        let b = fints::decimal::parse_amount(y).unwrap();
        let theirs = rust_decimal::Decimal::from_str(x)
            .unwrap()
            .checked_mul(rust_decimal::Decimal::from_str(y).unwrap());
        assert_eq!(
            a.checked_mul(&b).map(|p| p.to_text()),
            theirs.map(|p| p.to_string()),
            "{} * {}",
            x,
            y
        );
    }
}

#[test]
fn dates_are_those_of_chrono() {
    for (y, m, d) in [
        (2024, 2, 29),
        (2023, 2, 29),
        (1900, 2, 29),
        (2000, 2, 29),
        (2026, 4, 31),
        (2026, 13, 1),
        (2026, 0, 1),
        (-5, 3, 1),
        (12345, 3, 1),
        (262142, 12, 31),
        (262143, 1, 1),
        (-262143, 1, 1),
        (-262144, 12, 31),
    ] {
        let ours = Date::from_ymd_opt(y, m, d);
        let theirs = chrono::NaiveDate::from_ymd_opt(y, m, d);
        assert_eq!(ours.is_some(), theirs.is_some(), "{} {} {}", y, m, d);
        if let (Some(a), Some(b)) = (ours, theirs) {
            assert_eq!(a.iso(), b.to_string());
            assert_eq!(a.compact(), b.format("%Y%m%d").to_string());
        }
    }
    for text in ["20260315", "20260230", "2026 315", "+2026031", "2026031", "abcdefgh"] {
        let ours = fints::dates::parse_compact(text);
        let theirs = chrono::NaiveDate::parse_from_str(text, "%Y%m%d").ok();
        assert_eq!(ours.map(|d| d.iso()), theirs.map(|d| d.to_string()), "{}", text);
    }
}

#[test]
fn positions_of_two_pages_one_behind_the_other() {
    let page = |text: &str| parser::parse_message(text.as_bytes()).unwrap();
    let names = |segments: &[RawSegment]| -> Vec<String> {
        parse_hiwpd(segments).iter().map(|h| h.isin.as_ref().unwrap().as_str().to_string()).collect()
    };
    let a = "HIWPD:5:6:3+DE04120300001084174299:BYLADEM1001+DE0005140008:514000:DEUTSCHE BANK:100,00:42,50:EUR:20260315'";
    let b = "HIRMS:4:2+0010::ok'HIWPD:6:6:3+DE04120300001084174299:BYLADEM1001+US0378331005:865985:APPLE INC:25,00:178,30:USD:20260314'";
    assert_eq!(names(&page(a)), vec!["DE0005140008"]);
    assert_eq!(names(&page(b)), vec!["US0378331005"]);
    assert_eq!(names(&page(&format!("{}{}", a, b))), vec!["DE0005140008", "US0378331005"]);
    assert_eq!(names(&page(&format!("{}{}", b, a))), vec!["US0378331005", "DE0005140008"]);
    let bare = "HIWPD:5:6:3+DE04120300001084174299:BYLADEM1001'";
    assert_eq!(names(&page(&format!("{}{}{}", bare, a, bare))), vec!["DE0005140008"]);
    assert!(names(&page(bare)).is_empty());
}
