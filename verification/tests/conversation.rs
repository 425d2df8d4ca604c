//! A client and the mock bank talk to each other.

use fints::dates::Date;
use fints::protocol::{
    balance_outcome, holdings_outcome, parse_response, transactions_outcome, Account,
    BalanceResult, BankParams, Dialog, HoldingsResult, InitResult, New, Open, Response, Segment,
    Synced, TransactionResult,
};
use fints::server::faults::{ErrorOn, ErrorType};
use fints::server::fixtures::Fixtures;
use fints::server::state::ServerState;
use fints::{Blz, FetchResult, FinTSError, Pin, ProductId, SegmentType, SystemId, TouchdownPoint, UserId};

fn bank() -> ServerState {
    ServerState::new(Fixtures::default(), "d1a109", "5e5e", 3000)
}

fn dialog_with_pin(pin: &str) -> Dialog<New> {
    Dialog::new(
        "http://127.0.0.1:3000/",
        &Blz::new("12345678"),
        &UserId::new("test1"),
        &Pin::new(pin),
        &ProductId::new("TEST-123"),
    )
    .unwrap()
}

fn mock_dialog() -> Dialog<New> {
    dialog_with_pin("1234")
}

fn exchange<S>(bank: &mut ServerState, dialog: &mut Dialog<S>, segments: &[Segment]) -> Response {
    let number = dialog.message_number();
    let message = dialog.request(segments, None, 4711).unwrap();
    assert!(bank.can_handle(&message));
    let answer = bank.handle(&message).response;
    let (response, stated) = parse_response(&answer, number).unwrap();
    assert_eq!(stated, None, "the bank counts the messages as the client does");
    response
}

fn sync(bank: &mut ServerState, dialog: Dialog<New>) -> fints::Result<(Dialog<Synced>, Response)> {
    let mut dialog = dialog;
    let segments = dialog.sync_segments();
    let response = exchange(bank, &mut dialog, &segments);
    dialog.sync_finish(response)
}

fn end<S>(bank: &mut ServerState, dialog: &mut Dialog<S>) {
    if let Some(message) = dialog.end_request(4711).unwrap() {
        bank.handle(&message);
    }
}

fn synced_params(bank: &mut ServerState) -> (BankParams, SystemId) {
    let (mut synced, _) = sync(bank, mock_dialog()).unwrap();
    end(bank, &mut synced);
    synced.into_parts()
}

fn open(bank: &mut ServerState) -> Dialog<Open> {
    let (params, system_id) = synced_params(bank);
    let mut dialog = mock_dialog().with_system_id(&system_id).with_params(&params);
    let segments = dialog.init_no_tan_segments();
    let response = exchange(bank, &mut dialog, &segments);
    dialog.init_no_tan_finish(response).unwrap().0
}

fn account() -> Account {
    Account::new("DE11123456780000000001", "GENODE23X42").unwrap()
}

#[test]
fn test_sync_dialog() {
    let mut bank = bank();
    let (mut synced, response) = sync(&mut bank, mock_dialog()).unwrap();
    assert!(synced.system_id().is_assigned());
    assert_eq!(synced.system_id().as_str(), "5e5e;00001");
    assert!(synced.bank_params().bpd_version > 0);
    assert_eq!(synced.bank_params().bpd_version, 78);
    assert!(!synced.bank_params().tan_methods.is_empty(), "Should have TAN methods");
    assert!(!synced.bank_params().accounts_from_upd.is_empty());
    assert!(synced
        .bank_params()
        .accounts_from_upd
        .iter()
        .any(|a| a.iban.as_str() == "DE11123456780000000001"));
    assert!(!synced.bank_params().operation_tan_required.is_empty());
    assert_eq!(synced.bank_params().needs_tan(&SegmentType::new("HKSAL")), false);
    assert_eq!(synced.bank_params().needs_tan(&SegmentType::new("HKKAZ")), false);
    assert!(response.all_codes().iter().any(|c| c.is_success()));
    end(&mut bank, &mut synced);
    let (params, system_id) = synced.into_parts();
    assert!(system_id.is_assigned());
    assert!(params.bpd_version > 0);
}

#[test]
fn test_init_no_tan_then_business_ops() {
    let mut bank = bank();
    let mut open = open(&mut bank);
    let segments = open.balance_segments(&account());
    let response = exchange(&mut bank, &mut open, &segments);
    match balance_outcome(&response).unwrap() {
        BalanceResult::Success(balance) => {
            assert_eq!(balance.amount.to_text(), "1523.42");
            assert_eq!(balance.currency.as_str(), "EUR");
            assert_eq!(balance.date, Date::from_ymd_opt(2025, 1, 15).unwrap());
        }
        BalanceResult::NeedTan(_) => panic!("Unexpected TAN requirement"),
        BalanceResult::Empty => panic!("No balance data"),
    }
    end(&mut bank, &mut open);
    assert!(open.end_request(1).unwrap().is_none(), "an ended dialog has nothing to end");
}

#[test]
fn test_transactions_with_pagination() {
    let mut bank = bank();
    let mut open = open(&mut bank);
    let start = Date::from_ymd_opt(2015, 1, 1).unwrap();
    let end_date = Date::from_ymd_opt(2015, 12, 31).unwrap();
    let mut pages: Vec<Vec<u8>> = Vec::new();
    let mut touchdown: Option<TouchdownPoint> = None;
    loop {
        let segments = open.transactions_segments(&account(), start, end_date, touchdown.as_ref());
        let response = exchange(&mut bank, &mut open, &segments);
        match transactions_outcome(&response).unwrap() {
            TransactionResult::NeedTan(_) => panic!("Unexpected TAN requirement"),
            TransactionResult::Success(page) => {
                assert!(page.pending.is_empty());
                pages.push(page.booked.as_bytes().to_vec());
                touchdown = page.touchdown;
                if touchdown.is_none() {
                    break;
                }
            }
        }
    }
    assert_eq!(pages, fints::server::fixtures::build_transaction_pages());
    let text = String::from_utf8(pages.concat()).unwrap();
    let lines: Vec<&str> = text.lines().filter(|l| l.starts_with(":61:")).collect();
    assert_eq!(lines.len(), 3, "Expected 3 transactions across pagination");
    assert_eq!(lines[0], ":61:150101C182,34NMSCNONREF");
    end(&mut bank, &mut open);
}

#[test]
fn test_wrong_pin() {
    let mut bank = bank();
    match sync(&mut bank, dialog_with_pin("wrong_pin")) {
        Err(FinTSError::PinWrong) => {}
        Err(e) => panic!("another error: {:?}", e),
        Ok(_) => panic!("sync should fail with wrong PIN"),
    }
    assert!(bank.systems.is_empty(), "a refused message gets no system identification");
}

#[test]
fn a_locked_access_is_told() {
    let mut bank = bank();
    match sync(&mut bank, dialog_with_pin("3938")) {
        Err(FinTSError::AccountLocked) => {}
        Err(e) => panic!("another error: {:?}", e),
        Ok(_) => panic!("sync should fail with a locked PIN"),
    }
}

#[test]
fn test_sepa_accounts_from_upd() {
    let mut bank = bank();
    let (synced, _) = sync(&mut bank, mock_dialog()).unwrap();
    let accounts = &synced.bank_params().accounts_from_upd;
    assert_eq!(accounts.len(), 2);
    assert!(accounts.iter().any(|a| a.iban.as_str() == "DE11123456780000000001"));
    assert!(accounts.iter().all(|a| a.bic.as_str() == "GENODE23X42"));
}

#[test]
fn test_hipins_parsed() {
    let mut bank = bank();
    let (synced, _) = sync(&mut bank, mock_dialog()).unwrap();
    let params = synced.bank_params();
    assert!(!params.operation_tan_required.is_empty());
    assert_eq!(params.needs_tan(&SegmentType::new("HKSAL")), false);
    assert_eq!(params.needs_tan(&SegmentType::new("HKKAZ")), false);
    assert_eq!(params.needs_tan(&SegmentType::new("HKSPA")), false);
    assert_eq!(params.needs_tan(&SegmentType::new("HKCCS")), true);
}

#[test]
fn test_rust_server_sync_dialog() {
    let mut bank = bank();
    let (synced, _) = sync(&mut bank, mock_dialog()).unwrap();
    assert!(synced.system_id().is_assigned());
    assert!(synced.bank_params().bpd_version > 0);
}

#[test]
fn test_rust_server_balance() {
    let mut bank = bank();
    let mut open = open(&mut bank);
    let segments = open.balance_segments(&account());
    let response = exchange(&mut bank, &mut open, &segments);
    match balance_outcome(&response).unwrap() {
        BalanceResult::Success(balance) => assert_eq!(balance.amount.to_text(), "1523.42"),
        _ => panic!("Expected balance success"),
    }
}

#[test]
fn holdings_of_the_mock_bank() {
    let mut bank = bank();
    let mut open = open(&mut bank);
    let segments = open.holdings_segments(&account(), None, None);
    assert_eq!(segments.len(), 2, "the mock bank says nothing of HKWPD, so a TAN is asked for");
    let response = exchange(&mut bank, &mut open, &segments);
    match holdings_outcome(&response).unwrap() {
        HoldingsResult::Success(page) => {
            assert_eq!(page.holdings.len(), 3);
            assert_eq!(page.holdings[2].name, "ISHARES CORE MSCI WORLD ETF");
            assert_eq!(page.holdings[2].isin.as_ref().unwrap().as_str(), "IE00B4L5Y983");
            assert_eq!(page.holdings[1].market_value.as_ref().unwrap().to_text(), "1725.00");
            assert!(page.touchdown.is_none());
        }
        _ => panic!("no holdings"),
    }
    bank.fixtures.holdings.clear();
    let segments = open.holdings_segments(&account(), None, None);
    let response = exchange(&mut bank, &mut open, &segments);
    assert!(matches!(holdings_outcome(&response).unwrap(), HoldingsResult::Empty));
}

#[test]
fn a_known_bank_sends_no_parameters_again() {
    let mut bank = bank();
    let (params, system_id) = synced_params(&mut bank);
    assert_eq!(params.upd_version, 0, "HIUPA states its version behind the user");
    let mut dialog = mock_dialog().with_system_id(&system_id).with_params(&params);
    let segments = dialog.init_segments();
    assert_eq!(segments.len(), 3, "HKWPD may need a TAN");
    let response = exchange(&mut bank, &mut dialog, &segments);
    assert!(response.find_segment("HIBPA").is_none());
    assert_eq!(response.find_segments("HIUPD").len(), 2);
    match dialog.init_finish(response).unwrap() {
        InitResult::Opened(d, _) => assert_eq!(d.message_number(), 2),
        InitResult::TanRequired(..) => panic!("no TAN demanded"),
    }
}

#[test]
fn pages_come_in_order_whatever_the_start() {
    let mut bank = bank();
    let mut open = open(&mut bank);
    let day = Date::from_ymd_opt(2015, 1, 1).unwrap();
    let pages = fints::server::fixtures::build_transaction_pages();
    for (start, page) in [("0", 0), ("1", 1), ("2", 1), ("999", 1), ("x", 0)] {
        let point = TouchdownPoint::new(start);
        let segments = open.transactions_segments(&account(), day, day, Some(&point));
        let response = exchange(&mut bank, &mut open, &segments);
        match transactions_outcome(&response).unwrap() {
            TransactionResult::Success(p) => {
                assert_eq!(p.booked.0, pages[page]);
                assert_eq!(p.touchdown.map(|t| t.as_str().to_string()),
                    if page == 0 { Some("1".to_string()) } else { None });
            }
            TransactionResult::NeedTan(_) => panic!("no TAN demanded"),
        }
    }
}

#[test]
fn the_bank_finds_what_the_client_states() {
    let mut bank = bank();
    let mut open = open(&mut bank);
    let segments = open.balance_segments(&account());
    let message = open.request(&segments, Some("998877"), 4711).unwrap();
    assert_eq!(
        fints::server::scan::extract_pin_tan(&message),
        (Some("1234".to_string()), Some("998877".to_string()))
    );
    assert_eq!(
        fints::server::scan::extract_dialog_id(&message),
        Some("d1a109;00002".to_string())
    );
    let message = open.request(&segments, Some(""), 4711).unwrap();
    assert_eq!(
        fints::server::scan::extract_pin_tan(&message),
        (Some("1234".to_string()), None),
        "an empty TAN counts as none"
    );
}

#[test]
fn a_dialog_identification_with_a_separator_is_not_read_back() {
    let answer = fints::server::state::build_envelope("a'b", 1, b"HIRMG:2:2+0010::ok'");
    let (response, _) = parse_response(&answer, 1).unwrap();
    let types: Vec<&str> = response.segments.iter().map(|s| s.segment_type()).collect();
    assert_eq!(types, vec!["HNHBK", "b", "HNVSK", "HIRMG", "HNHBS"]);
    let answer = fints::server::state::build_envelope("ab", 1, b"HIRMG:2:2+0010::ok'");
    let (response, stated) = parse_response(&answer, 1).unwrap();
    assert_eq!(stated, None);
    let types: Vec<&str> = response.segments.iter().map(|s| s.segment_type()).collect();
    assert_eq!(types, vec!["HNHBK", "HNVSK", "HIRMG", "HNHBS"]);
}

#[test]
fn errors_on_demand_reach_the_client() {
    for (kind, code) in [
        (ErrorType::WrongPin, "9910"),
        (ErrorType::Locked, "3938"),
        (ErrorType::BankError, "9010"),
        (ErrorType::Timeout, "9800"),
    ] {
        let mut bank = bank();
        let mut open = open(&mut bank);
        bank.inject_error(Some(ErrorOn::Balance), kind);
        let segments = open.balance_segments(&account());
        let response = exchange(&mut bank, &mut open, &segments);
        assert!(response.find_segment("HISAL").is_none());
        assert_eq!(response.segment_codes[0].code(), code);
        match (kind, balance_outcome(&response)) {
            (ErrorType::WrongPin, Err(FinTSError::PinWrong)) => {}
            (ErrorType::Locked, Err(FinTSError::AccountLocked)) => {}
            (_, Err(FinTSError::BankError { message, .. })) => assert_eq!(message, kind.text()),
            _ => panic!("no error for {:?}", kind),
        }
        bank.inject_error(Some(ErrorOn::Init), kind);
        assert!(sync(&mut bank, mock_dialog()).is_err());
    }
}

#[test]
fn an_account_is_fetched_page_by_page() {
    let mut bank = bank();
    let mut open = open(&mut bank);
    let mut result = FetchResult::new();
    let segments = open.balance_segments(&account());
    let response = exchange(&mut bank, &mut open, &segments);
    result.take_balance(balance_outcome(&response).unwrap()).unwrap();
    assert_eq!(result.balance.as_ref().unwrap().amount.to_text(), "1523.42");
    let (start, end) =
        (Date::from_ymd_opt(2024, 1, 1).unwrap(), Date::from_ymd_opt(2025, 1, 15).unwrap());
    let mut expected = Vec::new();
    let mut pages = 0;
    let mut next: Option<TouchdownPoint> = None;
    loop {
        let segments = open.transactions_segments(&account(), start, end, next.as_ref());
        let response = exchange(&mut bank, &mut open, &segments);
        let page = transactions_outcome(&response).unwrap();
        if let TransactionResult::Success(p) = &page {
            expected.extend_from_slice(p.booked.as_bytes());
        }
        pages += 1;
        next = result.take_transactions(page).unwrap();
        if next.is_none() {
            break;
        }
    }
    assert!(pages > 1);
    assert_eq!(result.booked, expected);
    assert!(!result.booked.is_empty());
    let segments = open.holdings_segments(&account(), None, None);
    let response = exchange(&mut bank, &mut open, &segments);
    assert!(result.take_holdings(holdings_outcome(&response).unwrap()).unwrap().is_none());
    let count = result.holdings.len();
    assert!(result.take_holdings(holdings_outcome(&response).unwrap()).unwrap().is_none());
    assert_eq!(result.holdings.len(), 2 * count, "pages add up");
    assert!(result.take_holdings(HoldingsResult::Empty).unwrap().is_none());
    assert_eq!(result.holdings.len(), 2 * count);
    result.take_balance(BalanceResult::Empty).unwrap();
    assert!(result.balance.is_none());
}

#[test]
fn fetching_stops_where_a_tan_is_demanded() {
    let (response, _) = parse_response(
        b"HIRMS:3:2+0030::TAN'HITAN:4:7:3+4++ref+Text'HNHBS:5:1+1'",
        1,
    )
    .unwrap();
    let mut result = FetchResult::new();
    let told = |e: FinTSError| match e {
        FinTSError::Dialog(s) => s,
        _ => panic!("another error"),
    };
    let text = "The bank demands a TAN for this operation";
    assert_eq!(told(result.take_balance(balance_outcome(&response).unwrap()).unwrap_err()), text);
    let page = transactions_outcome(&response).unwrap();
    assert_eq!(told(result.take_transactions(page).err().unwrap()), text);
    let page = holdings_outcome(&response).unwrap();
    assert_eq!(told(result.take_holdings(page).err().unwrap()), text);
    assert!(result.balance.is_none() && result.booked.is_empty() && result.holdings.is_empty());
}
