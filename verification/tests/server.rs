//! The mock bank.

use fints::server::answer::{build_bpd, build_upd};
use fints::server::codec::{decode_body, encode_body, hex_dump, hex_prefix};
use fints::server::faults::{ErrorOn, ErrorType};
use fints::server::fixtures::{build_mt940_block, build_transaction_pages, Fixtures};
use fints::server::scan::{
    extract_dialog_id, extract_hkkaz_touchdown, extract_hkvvb_versions, extract_hnvsd,
    extract_pin_tan, extract_seg_num_ver, has_segment,
};
use fints::server::state::{build_envelope, BodyOutcome, ServerState};

fn bank() -> ServerState {
    ServerState::new(Fixtures::default(), "dlg", "sys", 8080)
}

fn text(bytes: &[u8]) -> String {
    String::from_utf8(bytes.to_vec()).unwrap()
}

// ---- Scanning ----

#[test]
fn dialog_identifications_are_found() {
    assert_eq!(
        extract_dialog_id(b"HNHBK:1:3+000000000123+300+abc;1+2'"),
        Some("abc;1".to_string())
    );
    assert_eq!(extract_dialog_id(b"HNHBK:1:3+000000000123+300+abc"), None);
    assert_eq!(extract_dialog_id(b"HNHBK:1:2+0+300+abc+2'"), None);
    assert_eq!(extract_dialog_id(b"\xffHNHBK:1:3+0+300+abc+2'"), None, "no UTF-8");
}

#[test]
fn containers_are_found() {
    assert_eq!(extract_hnvsd(b"xHNVSD:999:1+@3@a'b'y"), Some(b"a'b".to_vec()));
    assert_eq!(extract_hnvsd(b"HNVSD:999:1+@4@a'b"), None);
    assert_eq!(extract_hnvsd(b"HNVSD:999:1+3@a'b"), None);
    assert_eq!(extract_hnvsd(b"HNVSD:999:1+@-3@a'b"), None);
    assert_eq!(extract_hnvsd(b"HNVSD:999:1+@+3@a'b"), Some(b"a'b".to_vec()));
    assert_eq!(extract_hnvsd(b"HNVSD:999:1+@18446744073709551615@a'b"), None);
    assert_eq!(extract_hnvsd(b"HNVSD:998:1+@3@a'b"), None);
}

#[test]
fn pins_and_tans_are_found() {
    let pair = |a: &str, b: &str| (Some(a.to_string()), Some(b.to_string()));
    assert_eq!(extract_pin_tan(b"HNSHA:5:2+47++1234'"), (Some("1234".to_string()), None));
    assert_eq!(extract_pin_tan(b"HNSHA:5:2+47++1234:99'"), pair("1234", "99"));
    assert_eq!(extract_pin_tan(b"HNSHA:5:2+47++1234:'"), (Some("1234".to_string()), None));
    assert_eq!(extract_pin_tan(b"HNSHA:5:2+47++1234"), (Some("1234".to_string()), None));
    assert_eq!(extract_pin_tan(b"HNSHA:5:2+47'++1234'"), (None, None));
    assert_eq!(extract_pin_tan(b"HNSHA:5:2+47++\xff:99'"), (None, Some("99".to_string())));
    assert_eq!(
        extract_pin_tan(b"HNSHA:1:2+++out'HNVSD:999:1+@15@HNSHA:5:2+++in''"),
        (Some("in".to_string()), None)
    );
    assert_eq!(extract_pin_tan(b""), (None, None));
}

#[test]
fn segments_are_found() {
    assert!(has_segment(b"xHKSYN:5:3+0'", "HKSYN"));
    assert!(!has_segment(b"HKSYN", "HKSYN"));
    let both = |a: &str, b: &str| Some((a.to_string(), b.to_string()));
    assert_eq!(extract_seg_num_ver(b"HKSAL:3:7+x'", "HKSAL"), both("3", "7"));
    assert_eq!(extract_seg_num_ver(b"HKSAL:3:7'", "HKSAL"), both("3", "7"));
    assert_eq!(extract_seg_num_ver(b"HKSAL:3:7", "HKSAL"), None);
    assert_eq!(extract_seg_num_ver(b"HKSAL:3", "HKSAL"), None);
    assert_eq!(extract_hkvvb_versions(b"HKVVB:4:3+78+3+1+P+1.0'"), both("78", "3"));
    assert_eq!(extract_hkvvb_versions(b"HKVVB:4:3+78+3'"), both("78", "3"));
    assert_eq!(extract_hkvvb_versions(b"HKVVB:4:3+78"), None);
}

#[test]
fn touchdown_points_are_found() {
    assert_eq!(extract_hkkaz_touchdown(b"HKKAZ:3:7+a+N+1+2++1'"), Some(1));
    assert_eq!(extract_hkkaz_touchdown(b"HKKAZ:3:7+a+N+1+2++ 1 '"), Some(1));
    assert_eq!(extract_hkkaz_touchdown(b"HKKAZ:3:7+a+N+1+2++x'"), None);
    assert_eq!(extract_hkkaz_touchdown(b"HKKAZ:3:7+a+N+1+2++4294967296'"), None);
    assert_eq!(extract_hkkaz_touchdown(b"HKKAZ:3:7+a+N+1+2'"), None);
    assert_eq!(extract_hkkaz_touchdown(b"HKKAZ:3:7+a+N+1+2++1"), None);
}

// ---- Answers ----

#[test]
fn parameters_state_the_port() {
    let bpd = text(&build_bpd(8080));
    assert!(bpd.starts_with("HIBPA:6:3:4+78+280:12345678+Test Bank+1+1+300+500'HIKOM:7:4:4+280:12345678+1+3:http?://127.0.0.1?:8080/'HIKAZS:10:7:4"));
    assert!(bpd.ends_with("5:20:6:Benutzer ID::HKSPA:N:HKKAZ:N:HKSAL:N:HKTAN:N'"));
    assert!(build_upd().starts_with("HIUPA:57:4:4+test1+3+0'HIUPD:58:6:4+1::280:12345678+DE11"));
}

#[test]
fn statements_are_lines_between_line_ends() {
    assert_eq!(build_mt940_block(&[&b"a"[..], b"b"]), b"\r\na\r\nb\r\n".to_vec());
    assert_eq!(build_mt940_block(&[]), b"\r\n\r\n".to_vec());
    let pages = build_transaction_pages();
    assert_eq!(pages.len(), 2);
    assert!(text(&pages[0]).starts_with("\r\n-\r\n:20:STARTUMS\r\n:25:12345678/0000000001\r\n"));
    assert!(text(&pages[0]).ends_with(":62F:C150101EUR1223,57\r\n-\r\n"));
    assert!(text(&pages[1]).ends_with(":62F:C150101EUR1423,60\r\n-\r\n"));
}

#[test]
fn envelopes_state_their_size() {
    let e = build_envelope("dlg;00001", 2, b"HIRMG:2:2'");
    let t = text(&e);
    assert!(t.starts_with(&format!("HNHBK:1:3+{:012}+300+dlg;00001+2'HNVSK:998:3+", e.len())));
    assert!(t.ends_with("HNVSD:999:1+@10@HIRMG:2:2''HNHBS:5:1+2'"));
    assert_eq!(extract_hnvsd(&e), Some(b"HIRMG:2:2'".to_vec()));
    assert_eq!(extract_dialog_id(&e), Some("dlg;00001".to_string()));
}

#[test]
fn answers_to_single_segments() {
    let mut b = bank();
    let mut ask = |s: &str| text(&b.make_answer(format!("HNSHA:5:2+++1234'{}", s).as_bytes()));
    let hello = "HIRMG::2+0010::Nachricht entgegengenommen'";
    assert_eq!(ask(""), hello);
    assert_eq!(ask("HKTAN:3:7+4'"), hello);
    assert_eq!(ask("HKSYN:5:3+0'"), format!("{}HISYN::4:5+sys;00001'", hello));
    assert_eq!(ask("HKSYN:5:3+0'"), format!("{}HISYN::4:5+sys;00002'", hello));
    assert_eq!(
        ask("HKSPA:3:1'"),
        format!("{}HISPA::1:4+J:DE11123456780000000001:GENODE23X42:00001::280:12345678'", hello)
    );
    assert_eq!(
        ask("HKSAL:3:7+x'"),
        format!("{}HIRMS::2:3+0010::Saldo ermittelt'HISAL::7:3+1::280:12345678+Girokonto+EUR+C:1523,42:EUR:20250115'", hello)
    );
    assert_eq!(ask("HKEND:3:1+x'"), format!("{}HIRMS::2+0010::Dialog beendet'", hello));
    let page = build_transaction_pages().remove(0);
    assert_eq!(
        ask("HKKAZ:3:7+x'"),
        format!(
            "{}HIRMS::2:3+3040::Es liegen weitere Informationen vor:1'HIKAZ::7:3+@{}@{}'",
            hello,
            page.len(),
            text(&page)
        )
    );
    assert_eq!(
        ask("HKVVB:4:3+78+3+1'"),
        format!("{}HIRMS::2:4+3920::Zugelassene TAN-Verfahren fur den Benutzer:942+0901::*PIN gultig.+0020::*Dialoginitialisierung erfolgreich'", hello)
    );
    let full = ask("HKVVB:4:3+0+0+1'");
    assert!(full.contains("HIRMS::2:4+3050::BPD nicht mehr aktuell, aktuelle Version enthalten.+3050::UPD nicht mehr aktuell, aktuelle Version enthalten.+3920"));
    assert!(full.contains("HIBPA:6:3:4+78") && full.ends_with("HKSPA:1'"));
}

#[test]
fn holdings_are_escaped() {
    let mut b = bank();
    b.fixtures.holdings.truncate(1);
    b.fixtures.holdings[0].name = "A?B+C:D'E@F".to_string();
    let t = text(&b.make_answer(b"HNSHA:5:2+++1234'HKWPD:3:6+x'"));
    assert!(t.ends_with("HIRMS::2:3+0010::Depot abgerufen'HIWPD::6:3+DE89370400440532013000:GENODE23X42+DE0005140008:514000:A??B?+C?:D?'E?@F:100,000:14,20:EUR:20260330:1420,00'"));
    b.fixtures.holdings.clear();
    let t = text(&b.make_answer(b"HNSHA:5:2+++1234'HKWPD:3:6+x'"));
    assert!(t.ends_with("HIWPD::6:3+DE89370400440532013000:GENODE23X42'"));
}

#[test]
fn wrong_pins_are_refused() {
    let mut b = bank();
    assert_eq!(
        text(&b.make_answer(b"HNSHA:5:2+++9999'HKSYN:5:3+0'")),
        "HIRMG::2+9910::Pin ung\u{fc}ltig'"
    );
    assert_eq!(b.system_counter, 0);
    let t = text(&b.make_answer(b"HNSHA:5:2+++3938'HKVVB:4:3+78+3+1'"));
    assert!(t.ends_with("HIRMS::2:4+3938::Ihr Zugang ist vor\u{fc}bergehend gesperrt.+0020::*Dialoginitialisierung erfolgreich'"));
}

// ---- State ----

#[test]
fn dialogs_are_counted() {
    let mut b = bank();
    let first = b.handle(b"HNHBK:1:3+0+300+0+1'HNSHA:5:2+++1234'").response;
    assert_eq!(extract_dialog_id(&first), Some("dlg;00001".to_string()));
    assert!(text(&first).ends_with("HNHBS:5:1+1'"));
    let again = b.handle(b"HNHBK:1:3+0+300+dlg;00001+2'HNSHA:5:2+++1234'").response;
    assert_eq!(extract_dialog_id(&again), Some("dlg;00001".to_string()));
    assert!(text(&again).ends_with("HNHBS:5:1+2'"));
    let other = b.handle(b"HNHBK:1:3+0+300+unknown+9'HNSHA:5:2+++1234'").response;
    assert!(text(&other).ends_with("HNHBS:5:1+1'"), "unknown dialogs are taken up");
    let second = b.handle(b"no header").response;
    assert_eq!(extract_dialog_id(&second), Some("dlg;00002".to_string()));
    assert_eq!(b.dialogs.get("dlg;00001"), Some(&2));
    assert_eq!(b.dialog_counter, 2);
}

#[test]
fn counters_that_ran_out_stop_the_bank() {
    let mut b = bank();
    b.dialog_counter = u32::MAX;
    assert!(!b.can_handle(b"HNHBK:1:3+0+300+0+1'"));
    assert!(b.can_handle(b"HNHBK:1:3+0+300+x+1'"));
    b.system_counter = u32::MAX;
    assert!(!b.can_handle(b"HNHBK:1:3+0+300+x+1'HNSHA:5:2+++1234'HKSYN:5:3+0'"));
    assert!(b.can_handle(b"HNHBK:1:3+0+300+x+1'HNSHA:5:2+++wrong'HKSYN:5:3+0'"));
    b.dialogs.insert("x", u32::MAX);
    assert!(!b.can_handle(b"HNHBK:1:3+0+300+x+1'"));
    let body = encode_body(b"HNHBK:1:3+0+300+x+1'");
    assert!(matches!(b.handle_body(body.as_bytes()), BodyOutcome::Exhausted));
}

#[test]
fn bodies_carry_base64() {
    let mut b = bank();
    assert!(matches!(b.handle_body(b"no base64!"), BodyOutcome::BadRequest));
    let message = b"HNHBK:1:3+0+300+0+1'HNSHA:5:2+++1234'";
    let expected = bank().handle(message).response;
    match b.handle_body(encode_body(message).as_bytes()) {
        BodyOutcome::Reply(text) => assert_eq!(decode_body(text.as_bytes()), Some(expected)),
        _ => panic!("no reply"),
    }
    assert_eq!(encode_body(b"Hallo"), "SGFsbG8=");
    assert_eq!(decode_body(b"SGFsbG8="), Some(b"Hallo".to_vec()));
    assert_eq!(decode_body(b"SGFsbG8"), None, "padding is part of it");
    assert_eq!(decode_body(b""), Some(vec![]));
}

#[test]
fn bytes_in_hex() {
    assert_eq!(hex_prefix(&[0x00, 0xff, 0x3b]), "00ff3b");
    assert_eq!(hex_dump(&[0x00, 0xff, 0x3b]), "00 ff 3b");
    assert_eq!(hex_dump(&[]), "");
    assert_eq!(hex_dump(&[7u8; 200]).len(), 128 * 3 - 1);
}

// ---- Fixtures and errors on demand ----

#[test]
fn the_ibans_of_the_fixtures_pass_the_checksum() {
    let f = Fixtures::default();
    assert_eq!(f.accounts[0].iban, "DE89370400440532013000");
    assert_eq!(f.accounts[1].iban, "DE67200400600526370400");
    for a in &f.accounts {
        assert_eq!(a.iban.len(), 22);
        assert!(a.iban.starts_with("DE"));
        let n: u128 = format!("{}1314{}", &a.iban[4..], &a.iban[2..4]).parse().unwrap();
        assert_eq!(n % 97, 1);
        assert!(a.iban.ends_with(&a.account_number));
    }
}

#[test]
fn errors_stand_in_place_of_what_was_asked_for() {
    let hello = "HIRMG::2+0010::Nachricht entgegengenommen'";
    let mut b = bank();
    for (on, segment, reply) in [
        (ErrorOn::Balance, "HKSAL:3:7+x'", "HIRMS::2:3+9010::Auftrag abgelehnt'"),
        (ErrorOn::Transactions, "HKKAZ:4:7+x'", "HIRMS::2:4+9010::Auftrag abgelehnt'"),
        (ErrorOn::Holdings, "HKWPD:5:6+x'", "HIRMS::2:5+9010::Auftrag abgelehnt'"),
        (ErrorOn::Init, "HKVVB:4:3+0+0+1'HKSYN:5:3+0'", "HIRMS::2:4+9010::Auftrag abgelehnt'"),
    ] {
        let message = format!("HNSHA:5:2+++1234'{}", segment);
        b.inject_error(Some(on), ErrorType::BankError);
        assert_eq!(text(&b.make_answer(message.as_bytes())), format!("{}{}", hello, reply));
        assert!(b.systems.is_empty(), "a failed initialization assigns nothing");
    }
    b.inject_error(Some(ErrorOn::Balance), ErrorType::BankError);
    let page = text(&b.make_answer(b"HNSHA:5:2+++1234'HKKAZ:4:7+x'"));
    assert!(page.contains("HIKAZ::7:4+@"), "other operations go on");
    assert_eq!(
        text(&b.make_answer(b"HNSHA:5:2+++wrong'HKSAL:3:7+x'")),
        "HIRMG::2+9910::Pin ung\u{fc}ltig'",
        "a wrong PIN comes first"
    );
    b.inject_error(None, ErrorType::BankError);
    assert!(text(&b.make_answer(b"HNSHA:5:2+++1234'HKSAL:3:7+x'")).contains("HISAL::7:3"));
}

// ---- Histories ----

#[test]
fn messages_that_are_cut_off_hold_no_container() {
    let inner = b"HIRMG:2:2+0010::a@b\xff'";
    let whole = build_envelope("dlg;00001", 1, inner);
    let end = whole.len() - "'HNHBS:5:1+1'".len();
    for n in 0..whole.len() + 1 {
        let expected = if n < end { None } else { Some(inner.to_vec()) };
        assert_eq!(extract_hnvsd(&whole[..n]), expected, "{}", n);
    }
}

#[test]
fn answers_are_numbered_by_dialog() {
    let mut b = bank();
    let mut ask = |id: &str| {
        let message = format!("HNHBK:1:3+0+300+{}+1'HNSHA:5:2+++1234'", id);
        let answer = text(&b.handle(message.as_bytes()).response);
        let header: Vec<String> =
            answer.split('\'').next().unwrap().split('+').map(|s| s.to_string()).collect();
        (header[3].clone(), header[4].clone())
    };
    let pair = |id: &str, n: &str| (id.to_string(), n.to_string());
    assert_eq!(ask("0"), pair("dlg;00001", "1"));
    assert_eq!(ask("0"), pair("dlg;00002", "1"));
    assert_eq!(ask("dlg;00001"), pair("dlg;00001", "2"));
    assert_eq!(ask("other"), pair("other", "1"));
    assert_eq!(ask("dlg;00001"), pair("dlg;00001", "3"));
    assert_eq!(ask("dlg;00002"), pair("dlg;00002", "2"));
    assert_eq!(ask("other"), pair("other", "2"));
    assert_eq!(ask("dlg;00003"), pair("dlg;00003", "1"), "taken up before it is issued");
    assert_eq!(ask("0"), pair("dlg;00003", "1"), "and counted anew when it is");
}
