//! Parameters, answers and dialog states.

use fints::codes::{ResponseCode, ResponseCodeKind};
use fints::dates::{Date, Timestamp};
use fints::dialog::balance_outcome_on;
use fints::element::{DataElement, RawSegment};
use fints::message::{build_message_at, MessageSender};
use fints::parser::parse_message;
use fints::protocol::{
    balance_outcome, holdings_outcome, holdings_outcome_checked, parse_response,
    transactions_outcome, Account, BalanceResult, BankParams, Dialog, HoldingsResult, InitResult,
    New, PollResult, Response, Segment, TanPending, TransactionResult,
};
use fints::segments::builder::hksyn;
use fints::{
    Blz, DialogId, FinTSError, Pin, ProductId, SecurityFunction, SegmentType, SystemId,
    TanMediumName, TaskReference, TouchdownPoint, UserId,
};

fn answer(text: &str) -> Response {
    parse_response(text.as_bytes(), 1).unwrap().0
}

fn now() -> Timestamp {
    Timestamp { date: "20260315".to_string(), time: "081500".to_string() }
}

fn new_dialog() -> Dialog<New> {
    Dialog::new(
        "https://bank.invalid/",
        &Blz::new("12345678"),
        &UserId::new("test1"),
        &Pin::new("1234"),
        &ProductId::new("TEST-123"),
    )
    .unwrap()
}

fn learned(text: &str) -> (BankParams, SystemId) {
    let mut params = BankParams::new();
    let mut id = SystemId::unassigned();
    params.ingest_response(&answer(text), &mut id);
    (params, id)
}

const METHODS: &str = "HITANS:1:6:4+1+1+1+912:2:x:chipTAN:5:6:7:8:9:10:11:12:13:1'HITANS:2:7:4+1+1+1+940:S:x:pushTAN:5:6:7:8:9:10:11:12:13:0:14:15:16:17:18:19:20:J:30:10:-3'";

// ---- Answers ----

#[test]
fn codes_by_number() {
    let p = || vec!["a".to_string(), "b".to_string()];
    for (code, kind) in [
        ("0010", ResponseCodeKind::Success),
        ("0030", ResponseCodeKind::TanRequired),
        ("3955", ResponseCodeKind::DecoupledInitiated),
        ("3956", ResponseCodeKind::DecoupledPending),
        ("3076", ResponseCodeKind::ScaExemption),
        ("3040", ResponseCodeKind::Touchdown(TouchdownPoint::new("a"))),
        (
            "3920",
            ResponseCodeKind::AllowedSecurityFunctions(vec![
                SecurityFunction::new("a"),
                SecurityFunction::new("b"),
            ]),
        ),
        ("3938", ResponseCodeKind::AccountLocked),
        ("9340", ResponseCodeKind::PinWrong),
        ("9910", ResponseCodeKind::PinWrong),
        ("3050", ResponseCodeKind::Warning("3050".to_string())),
        ("9010", ResponseCodeKind::Error("9010".to_string())),
        ("1234", ResponseCodeKind::Other("1234".to_string())),
    ] {
        assert_eq!(ResponseCode::with_params(code, "t", p()).kind, kind, "{}", code);
    }
    let bare = ResponseCode::new("3040", "t");
    assert_eq!(bare.kind, ResponseCodeKind::Warning("3040".to_string()));
    assert!(bare.is_warning() && !bare.is_error() && !bare.is_success());
    assert!(ResponseCode::new("3938", "t").is_error());
    assert!(!ResponseCode::new("3938", "t").is_warning());
    assert_eq!(ResponseCode::new("0010", "t").code(), "0010");
}

#[test]
fn answers_are_opened_and_their_codes_sorted() {
    let inner = "HIRMG:2:2+0010::ok'HIRMS:3:2:4+3040::mehr:TD+:leer'HISAL:4:7:3'";
    let text = format!(
        "HNHBK:1:3+000000000999+300+dlg+7'HNVSD:999:1+@{}@{}'HNVSD:999:1+@4@?oh)'HNHBS:5:1+7'",
        inner.len(),
        inner
    );
    let (r, stated) = parse_response(text.as_bytes(), 7).unwrap();
    assert_eq!(stated, None);
    let types: Vec<&str> = r.segments.iter().map(|s| s.segment_type()).collect();
    assert_eq!(types, vec!["HNHBK", "HIRMG", "HIRMS", "HISAL", "HNHBS"]);
    assert_eq!(r.global_codes.len(), 1);
    assert_eq!(r.segment_codes.len(), 1, "a code without number is none");
    assert_eq!(r.touchdown(), Some(TouchdownPoint::new("TD")));
    assert_eq!(r.all_codes().len(), 2);
    let (_, stated) = parse_response(text.as_bytes(), 8).unwrap();
    assert_eq!(stated, Some("7".to_string()));
    assert!(matches!(parse_response(b"HNHBK:1", 1), Err(FinTSError::Parse(_))));
}

#[test]
fn the_touchdown_of_a_segment_comes_first() {
    let r = answer("HIRMG:2:2+3040::mehr:G'HIRMS:3:2+3040::mehr:S'");
    assert_eq!(r.touchdown(), Some(TouchdownPoint::new("S")));
    let r = answer("HIRMG:2:2+3040::mehr:G'");
    assert_eq!(r.touchdown(), Some(TouchdownPoint::new("G")));
}

#[test]
fn allowed_functions_of_segments_then_of_the_message() {
    let r = answer("HIRMG:2:2+3920::x:900'HIRMS:3:2+3920::x:912:940'");
    let fs: Vec<String> =
        r.allowed_security_functions().iter().map(|f| f.as_str().to_string()).collect();
    assert_eq!(fs, vec!["912", "940", "900"]);
}

#[test]
fn what_answers_demand() {
    let r = answer("HIRMS:3:2+0030::x'");
    assert!(r.needs_tan() && !r.is_decoupled() && !r.is_decoupled_pending());
    let r = answer("HIRMS:3:2+3955::x'");
    assert!(r.needs_tan() && r.is_decoupled() && r.is_decoupled_pending());
    let r = answer("HIRMS:3:2+3956::x'");
    assert!(!r.needs_tan() && !r.is_decoupled() && r.is_decoupled_pending());
    assert!(answer("HIRMG:3:2+3076::x'").has_sca_exemption());
    assert!(!answer("HIRMG:3:2+0010::x'").has_sca_exemption());
}

#[test]
fn the_first_error_counts() {
    assert!(answer("HIRMG:2:2+0010::ok+3050::alt'").check_errors().is_ok());
    match answer("HIRMG:2:2+0010::ok'HIRMS:3:2+9010::Fehler+9910::PIN'").check_errors() {
        Err(FinTSError::BankError { kind, message }) => {
            assert_eq!(kind, ResponseCodeKind::Error("9010".to_string()));
            assert_eq!(message, "Fehler");
        }
        other => panic!("{:?}", other),
    }
    assert!(matches!(
        answer("HIRMG:2:2+9910::PIN'HIRMS:3:2+9010::F'").check_errors(),
        Err(FinTSError::PinWrong)
    ));
    assert!(matches!(
        answer("HIRMG:2:2+3938::zu'").check_errors(),
        Err(FinTSError::AccountLocked)
    ));
}

#[test]
fn challenges_need_a_text_or_a_reference() {
    assert!(answer("HIRMS:3:2+0030::x'").get_tan_challenge().is_none());
    assert!(answer("HIRMS:3:2+0030::x'HITAN:4:7:3+4'").get_tan_challenge().is_none());
    let c = answer("HIRMS:3:2+3955::x'HITAN:4:7:3+4++ref+Text+@1@h'").get_tan_challenge().unwrap();
    assert_eq!(c.task_reference.as_str(), "ref");
    assert_eq!(c.challenge.as_str(), "Text");
    assert_eq!(c.challenge_hhduc.unwrap().0, b"h".to_vec());
    assert!(c.decoupled);
}

// ---- Parameters ----

#[test]
fn nothing_is_known_at_first() {
    let p = BankParams::new();
    assert!(p.needs_tan(&SegmentType::new("HKSAL")), "TAN by default");
    assert!(!p.reads_are_pin_only());
    assert_eq!(p.selected_security_function, SecurityFunction::pin_only());
    assert_eq!(p.selected_security_function.as_str(), "999");
    assert_eq!(p.hktan_version(), 7);
    assert_eq!(p.supported_version("HISALS", 7), 7);
    assert_eq!(p.decoupled_params(), (5, 5, 20));
    assert!(!p.is_decoupled() && !p.needs_tan_medium());
}

#[test]
fn parameters_are_taken_from_answers() {
    let text = format!(
        "{}HIBPA:3:3:4+42+280:1'HIUPA:4:4:4+u+1+7'HIPINS:5:1:4+1+1+0+HKSAL:N+HKKAZ:J'HISALS:6:6:4+1'HISAL:7:7:4'HIS:8:1:4'HIUPD:9:6:4+1::280:12345678+DE11123456780000000001'HISYN:10:4:6+sys'HIRMS:11:2+3920::x:912:940'",
        METHODS
    );
    let (p, id) = learned(&text);
    assert_eq!((p.bpd_version, p.upd_version), (42, 7));
    assert_eq!(p.tan_methods.len(), 2);
    assert!(!p.needs_tan(&SegmentType::new("HKSAL")));
    assert!(p.needs_tan(&SegmentType::new("HKKAZ")));
    let stored: Vec<&str> = p.bpd_segments.iter().map(|s| s.segment_type()).collect();
    assert_eq!(stored, vec!["HISALS", "HIRMS"]);
    assert_eq!(p.supported_version("HISALS", 7), 6);
    assert_eq!(p.supported_version("HISALS", 5), 5);
    assert_eq!(p.accounts_from_upd[0].iban.as_str(), "DE11123456780000000001");
    assert_eq!(id.as_str(), "sys");
    assert_eq!(p.allowed_security_functions.len(), 2);
}

#[test]
fn an_answer_without_news_changes_nothing() {
    let (mut p, mut id) = learned("HISYN:10:4:6+sys'HIRMS:11:2+3920::x:912'");
    p.ingest_response(&answer("HISYN:10:4:6'HIRMG:2:2+0010::ok'"), &mut id);
    assert_eq!(id.as_str(), "sys");
    assert_eq!(p.allowed_security_functions, vec![SecurityFunction::new("912")]);
}

#[test]
fn the_best_function_is_selected() {
    let (mut p, _) = learned(&format!("{}HIRMS:11:2+3920::x:999:930:940:912'", METHODS));
    p.select_security_function();
    assert_eq!(p.selected_security_function.as_str(), "940", "decoupled methods come first");
    assert!(p.is_decoupled());
    assert_eq!(p.hktan_version(), 7);
    assert_eq!(p.decoupled_params(), (10, 5, 30));

    p.preferred_security_function = Some(SecurityFunction::new("912"));
    p.select_security_function();
    assert_eq!(p.selected_security_function.as_str(), "912");
    assert!(p.needs_tan_medium());
    assert_eq!(p.hktan_version(), 6);

    p.preferred_security_function = Some(SecurityFunction::new("900"));
    p.select_security_function();
    assert_eq!(p.selected_security_function.as_str(), "940", "what is not allowed is not taken");

    let (mut p, _) = learned("HIRMS:11:2+3920::x:930:931:999'");
    p.select_security_function();
    assert_eq!(p.selected_security_function.as_str(), "931", "the last of equals");

    let (mut p, _) = learned("HIRMS:11:2+3920::x:999'");
    p.select_security_function();
    assert_eq!(p.selected_security_function.as_str(), "999");
}

#[test]
fn banks_that_read_with_the_pin_alone_keep_it() {
    let (mut p, _) = learned(&format!(
        "{}HIPINS:5:1:4+1+1+0+HKSAL:N:HKKAZ:N:HKWPD:N'HIRMS:11:2+3920::x:940'",
        METHODS
    ));
    assert!(p.reads_are_pin_only());
    p.select_security_function();
    assert_eq!(p.selected_security_function.as_str(), "999");
    let d = new_dialog().with_params(&p);
    assert_eq!(d.init_segments().len(), 2);
    match d.init_finish(answer("HIRMS:3:2+0030::TAN'HITAN:4:7:3+4++ref+Text'")).unwrap() {
        InitResult::Opened(..) => {}
        InitResult::TanRequired(..) => panic!("no challenge was asked for"),
    }
}

// ---- Dialogs ----

#[test]
fn a_dialog_starts_with_nothing() {
    let d = new_dialog();
    assert_eq!(d.url().as_str(), "https://bank.invalid/");
    assert_eq!(d.message_number(), 1);
    assert!(!d.system_id().is_assigned());
    assert_eq!(d.pin().as_str(), "1234");
    let d = d.with_system_id(&SystemId::new("sys")).with_tan_medium(&TanMediumName::new("Handy"));
    assert_eq!(d.system_id().as_str(), "sys");
    assert_eq!(d.bank_params().selected_tan_medium, Some(TanMediumName::new("Handy")));
    let mut d = d;
    d.bank_params_mut().bpd_version = 9;
    assert_eq!(d.bank_params().bpd_version, 9);
}

#[test]
fn a_message_states_its_size_and_holds_the_orders() {
    let mut d = new_dialog();
    let segments = d.sync_segments();
    let message = d.request_at(&segments, None, 4711, &now()).unwrap();
    assert_eq!(d.message_number(), 2);
    let text = String::from_utf8(message.clone()).unwrap();
    let head = format!("HNHBK:1:3+{:012}+300+0+1'", message.len());
    assert!(text.starts_with(&head), "{}", text);
    assert!(text.ends_with("HNHBS:7:1+1'"), "{}", text);
    assert!(text.contains("HNSHK:2:4+PIN:1+999+4711+"));
    assert!(text.contains("'HKIDN:3:2+280:12345678+test1+0+1'HKVVB:4:3+0+0+1+TEST-123+1.0'HKSYN:5:3+0'HNSHA:6:2+4711++1234'"));
    let outer = parse_message(&message).unwrap();
    let types: Vec<&str> = outer.iter().map(|s| s.segment_type()).collect();
    assert_eq!(types, vec!["HNHBK", "HNVSK", "HNVSD", "HNHBS"]);
    let inner = match outer[2].element(1, 0) {
        DataElement::Binary(b) => parse_message(b).unwrap(),
        other => panic!("{:?}", other),
    };
    let types: Vec<&str> = inner.iter().map(|s| s.segment_type()).collect();
    assert_eq!(types, vec!["HNSHK", "HKIDN", "HKVVB", "HKSYN", "HNSHA"]);
}

#[test]
fn a_tan_stands_in_the_signature() {
    let mut d = waiting();
    let segments = d.submit_tan_segments(&TaskReference::new("ref"));
    let message = d.request_at(&segments, Some("998877"), 4711, &now()).unwrap();
    let text = String::from_utf8(message).unwrap();
    assert!(text.contains("HKTAN:3:7+2++++ref+N'HNSHA:4:2+4711++1234:998877'"), "{}", text);
}

#[test]
fn what_cannot_be_written_is_refused() {
    let mut d = Dialog::new(
        "u",
        &Blz::new("12345678"),
        &UserId::new("\u{20ac}"),
        &Pin::new("1234"),
        &ProductId::new("P"),
    )
    .unwrap();
    let segments = d.sync_segments();
    assert!(matches!(
        d.request_at(&segments, None, 1, &now()),
        Err(FinTSError::Encoding(_))
    ));
    assert_eq!(d.message_number(), 1, "nothing was sent");
}

#[test]
fn messages_are_built_without_a_dialog() {
    let sender = MessageSender {
        dialog_id: &DialogId::new("d+1"),
        message_number: 3,
        blz: &Blz::new("12345678"),
        user_id: &UserId::new("u"),
        system_id: &SystemId::new("s"),
        pin: &Pin::new("p'in"),
        security_function: &SecurityFunction::new("912"),
    };
    let segments = [Segment::End { dialog_id: DialogId::new("d+1") }];
    let message =
        build_message_at(&sender, None, 1, &now(), &segments, &BankParams::new()).unwrap();
    let text = String::from_utf8(message).unwrap();
    assert!(text.contains("+300+d?+1+3'"), "{}", text);
    assert!(text.contains("HKEND:3:1+d?+1'HNSHA:4:2+1++p?'in'"), "{}", text);
}

fn waiting() -> Dialog<TanPending> {
    let r = answer("HNHBK:1:3+1+300+dlg+1'HIRMS:3:2+0030::TAN'HITAN:4:7:3+4++ref+Text'");
    match new_dialog().init_finish(r).unwrap() {
        InitResult::TanRequired(d, c, r) => {
            assert_eq!(c.task_reference.as_str(), "ref");
            assert!(!c.decoupled);
            assert_eq!(r.segments.len(), 3);
            d
        }
        InitResult::Opened(..) => panic!("no TAN demanded"),
    }
}

#[test]
fn initialization_by_the_answer() {
    waiting();
    assert!(matches!(
        new_dialog().init_finish(answer("HIRMG:2:2+0010::ok'")).unwrap(),
        InitResult::Opened(..)
    ));
    assert!(matches!(
        new_dialog().init_finish(answer("HIRMG:2:2+9910::PIN'")),
        Err(FinTSError::PinWrong)
    ));
    let text = format!("{}HIRMS:3:2+0030::TAN+3920::x:940'HITAN:4:7:3+4++ref+Text'", METHODS);
    match new_dialog().init_finish(answer(&text)).unwrap() {
        InitResult::TanRequired(d, c, _) => {
            assert!(c.decoupled, "the selected method is decoupled");
            assert_eq!(d.bank_params().selected_security_function.as_str(), "940");
        }
        InitResult::Opened(..) => panic!("no TAN demanded"),
    }
}

#[test]
fn synchronization_overlooks_errors_where_a_tan_is_demanded() {
    assert!(new_dialog().sync_finish(answer("HIRMG:2:2+9010::x+0030::TAN'")).is_ok());
    assert!(new_dialog().sync_finish(answer("HIRMG:2:2+9010::x'")).is_err());
}

#[test]
fn polls_by_the_answer() {
    match waiting().poll_finish(answer("HIRMS:3:2+3955::wartet'")).unwrap() {
        PollResult::Pending(d) => assert_eq!(d.message_number(), 1),
        PollResult::Confirmed(..) => panic!("still pending"),
    }
    match waiting().poll_finish(answer("HIRMS:3:2+0020::ok'HISYN:5:4:3+sys'")).unwrap() {
        PollResult::Confirmed(d, _) => assert_eq!(d.system_id().as_str(), "sys"),
        PollResult::Pending(_) => panic!("confirmed"),
    }
    assert!(waiting().poll_finish(answer("HIRMS:3:2+9210::abgelehnt'")).is_err());
    let segments = waiting().poll_segments(&TaskReference::new("ref"));
    assert_eq!(segments.len(), 1);
    assert!(matches!(&segments[0], Segment::TanPollDecoupled { task_reference, .. }
        if task_reference.as_str() == "ref"));
}

#[test]
fn submitted_tans_by_the_answer() {
    assert!(waiting().submit_tan_finish(answer("HIRMS:3:2+0020::ok'")).is_ok());
    assert!(waiting().submit_tan_finish(answer("HIRMS:3:2+9941::TAN falsch'")).is_err());
}

#[test]
fn dialogs_end_once() {
    let mut d = waiting();
    let message = d.end_request(1).unwrap().expect("a message");
    let text = String::from_utf8(message).unwrap();
    assert!(text.contains("HKEND:3:1+dlg'"), "{}", text);
    assert_eq!(d.message_number(), 2);
    assert!(d.end_request(1).unwrap().is_none());
}

// ---- Business ----

#[test]
fn challenges_are_asked_for_on_the_first_page() {
    let open = new_dialog().init_no_tan_finish(answer("HIRMG:2:2+0010::ok'")).unwrap().0;
    let account = Account::new("DE89370400440532013000", "COBADEFFXXX").unwrap();
    let day = Date::from_ymd_opt(2026, 3, 15).unwrap();
    assert_eq!(open.balance_segments(&account).len(), 2);
    assert_eq!(open.transactions_segments(&account, day, day, None).len(), 2);
    let td = TouchdownPoint::new("td");
    assert_eq!(open.transactions_segments(&account, day, day, Some(&td)).len(), 1);
    assert_eq!(open.holdings_segments(&account, None, Some(&td)).len(), 1);
    match &open.holdings_segments(&account, None, None)[1] {
        Segment::TanProcess4 { reference_seg, tan_medium } => {
            assert_eq!(reference_seg.as_str(), "HKWPD");
            assert!(tan_medium.is_none());
        }
        other => panic!("{:?}", other),
    }
}

#[test]
fn segments_take_the_version_that_the_bank_knows() {
    let account = Account::new("DE45500105175435780833", "INGDDEFFXXX").unwrap();
    let (p, _) = learned("HISALS:6:5:4+1'HIKAZS:6:5:4+1'HIWPDS:6:6:4+1'");
    let wire = |s: &Segment, p: &BankParams| {
        String::from_utf8(fints::serializer::serialize_segment(&s.to_degs(p)).unwrap()).unwrap()
    };
    let balance = Segment::Balance { account: account.clone() };
    assert_eq!(wire(&balance, &p), "HKSAL:0:5+5435780833::280:50010517+N'");
    assert_eq!(
        wire(&balance, &BankParams::new()),
        "HKSAL:0:7+DE45500105175435780833:INGDDEFFXXX+N'"
    );
    let holdings = Segment::Holdings { account, currency: None, touchdown: None };
    assert_eq!(wire(&holdings, &p), "HKWPD:0:6+5435780833::280:50010517'");
    let (old, _) = learned("HISALS:6:4:4+1'");
    assert_eq!(wire(&balance, &old), "HKSAL:0:5+5435780833::280:50010517+N'");
    assert_eq!(hksyn(0), Segment::Sync.to_degs(&p));
}

const CHALLENGE: &str = "HIRMS:3:2+0030::TAN'HITAN:4:7:3+4++ref+Text'";

#[test]
fn balances_by_the_answer() {
    let hisal = "HISAL:5:7:3+A+Girokonto+EUR+C:1,00:EUR:20260315'";
    let day = Date::from_ymd_opt(2020, 1, 1).unwrap();
    match balance_outcome_on(&answer("HISAL:5:7:3+A+Girokonto+EUR+C:1,00:EUR'"), day).unwrap() {
        BalanceResult::Success(b) => assert_eq!(b.date, day),
        _ => panic!("no balance"),
    }
    match balance_outcome(&answer(hisal)).unwrap() {
        BalanceResult::Success(b) => assert_eq!(b.date.iso(), "2026-03-15"),
        _ => panic!("no balance"),
    }
    let blocked = format!("{}{}", hisal, CHALLENGE);
    assert!(matches!(balance_outcome(&answer(&blocked)).unwrap(), BalanceResult::NeedTan(_)));
    let exempt = format!("{}{}HIRMG:9:2+3076::frei'", hisal, CHALLENGE);
    assert!(matches!(balance_outcome(&answer(&exempt)).unwrap(), BalanceResult::Success(_)));
    assert!(matches!(
        balance_outcome(&answer("HIRMG:2:2+0010::ok'")).unwrap(),
        BalanceResult::Empty
    ));
    assert!(balance_outcome(&answer("HIRMG:2:2+9010::x'")).is_err());
}

#[test]
fn transactions_by_the_answer() {
    match transactions_outcome(&answer("HIKAZ:5:7:3+@2@ab+@1@p'HIRMS:6:2+3040::x:TD'")).unwrap() {
        TransactionResult::Success(page) => {
            assert_eq!(page.booked.0, b"ab".to_vec());
            assert_eq!(page.pending.0, b"p".to_vec());
            assert_eq!(page.touchdown, Some(TouchdownPoint::new("TD")));
        }
        TransactionResult::NeedTan(_) => panic!("no TAN demanded"),
    }
    assert!(matches!(
        transactions_outcome(&answer(CHALLENGE)).unwrap(),
        TransactionResult::NeedTan(_)
    ));
    assert!(transactions_outcome(&answer("HIRMG:2:2+9010::x'")).is_err());
}

#[test]
fn holdings_by_the_answer() {
    let one = "HIWPD:5:6:3+A+DE0005140008:514000:BANK:2,00:10,50'";
    match holdings_outcome(&answer(one)).unwrap() {
        HoldingsResult::Success(page) => assert_eq!(page.holdings.len(), 1),
        _ => panic!("no holdings"),
    }
    match holdings_outcome(&answer("HIRMS:6:2+3040::x:TD'")).unwrap() {
        HoldingsResult::Success(page) => assert!(page.holdings.is_empty()),
        _ => panic!("more is to come"),
    }
    assert!(matches!(
        holdings_outcome(&answer("HIRMG:2:2+0010::ok'")).unwrap(),
        HoldingsResult::Empty
    ));
    assert!(matches!(
        holdings_outcome(&answer(CHALLENGE)).unwrap(),
        HoldingsResult::NeedTan(_)
    ));
    let large = "HIWPD:5:6:3+A+DE0005140008:514000:BANK:79228162514264337593543950335,:10,00'";
    assert!(holdings_outcome_checked(&answer(large)).is_none());
    let refused = format!("{}HIRMG:2:2+9010::x'", large);
    assert!(holdings_outcome_checked(&answer(&refused)).unwrap().is_err());
    assert!(holdings_outcome_checked(&answer(one)).unwrap().is_ok());
}

#[test]
fn segments_without_an_element_read_as_empty() {
    let seg: RawSegment = parse_message(b"HISAL:5:7:3'").unwrap().remove(0);
    assert_eq!(seg.element(4, 0), &DataElement::Empty);
    assert_eq!(seg.deg_len(4), 0);
    assert!(seg.deg(4).is_none());
}

#[test]
fn dialogs_are_written_without_the_pin() {
    let d = new_dialog();
    assert_eq!(
        d.debug_text(),
        "Dialog { blz: Blz(\"12345678\"), user_id: UserId(\"test1\"), system_id: SystemId(\"0\"), dialog_id: DialogId(\"0\"), message_number: 1, state: \"fints::protocol::New\" }"
    );
    assert!(waiting().debug_text().ends_with(
        "dialog_id: DialogId(\"dlg\"), message_number: 1, state: \"fints::protocol::TanPending\" }"
    ));
    let (synced, _) = new_dialog().sync_finish(answer("HIRMG:2:2+0010::ok'")).unwrap();
    assert!(synced.debug_text().ends_with("state: \"fints::protocol::Synced\" }"));
    let (open, _) = new_dialog().init_no_tan_finish(answer("HIRMG:2:2+0010::ok'")).unwrap();
    assert!(open.debug_text().ends_with("state: \"fints::protocol::Open\" }"));
    let other = Dialog::new(
        "https://bank.invalid/",
        &Blz::new("12345678"),
        &UserId::new("test1"),
        &Pin::new("secret"),
        &ProductId::new("TEST-123"),
    )
    .unwrap();
    assert_eq!(other.debug_text(), d.debug_text());
}

#[test]
fn as_many_segments_as_can_be_numbered() {
    let mut d = new_dialog();
    let segments: Vec<Segment> = (0..65531).map(|_| Segment::Sync).collect();
    let message = d.request_at(&segments, None, 1, &now()).unwrap();
    let text = String::from_utf8_lossy(&message).into_owned();
    assert!(text.contains("'HKSYN:65533:3+0'HNSHA:65534:2+1++1234'"));
    assert!(text.ends_with("HNHBS:65535:1+1'"));
}
