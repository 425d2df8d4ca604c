use fints::dialog::PollResult;
use fints::dkb::Session;
use fints::protocol::Account;
use fints::{
    Blz, ChallengeText, Currency, Dialog, Dkb, FinTSError, HhdUcData, InitiateNoTanResult,
    InitiateOutcome, InitiateResult, Pin, ProductId, SystemId, TanChallenge, TaskReference, UserId,
};

#[test]
fn dkb_new_uses_registered_config() {
    let dkb = Dkb::new();
    assert_eq!(dkb.config().blz.as_str(), "12030000");
    assert_eq!(dkb.config().bic.as_str(), "BYLADEM1001");
    assert!(!dkb.config().url.as_str().is_empty());
}

#[test]
fn account_validation_requires_iban_and_bic() {
    assert!(Account::new("DE89370400440532013000", "COBADEFFXXX").is_ok());
    assert!(Account::new("", "COBADEFFXXX").is_err());
    assert!(Account::new("DE89370400440532013000", "").is_err());
}

#[test]
fn currency_conversion_and_display() {
    let eur = Currency::new("EUR");
    assert_eq!(eur.as_str(), "EUR");
    assert_eq!(eur.to_string(), "EUR");
}

// ---- Accounts ----

#[test]
fn printed_ibans_are_accepted() {
    let acc = Account::new("DE89 3704 0044 0532 0130 00", "COBADEFFXXX").unwrap();
    assert_eq!(acc.iban(), "DE89370400440532013000");
    assert_eq!(acc.bic(), "COBADEFFXXX");
    let again = Account::new(acc.iban(), acc.bic()).unwrap();
    assert_eq!(again.iban(), acc.iban());
    let lower = Account::new("\tde89370400440532\u{2009}013000\n", "COBADEFFXXX").unwrap();
    assert_eq!(lower.iban(), acc.iban());
}

fn refusal(iban: &str, bic: &str) -> String {
    match Account::new(iban, bic) {
        Err(FinTSError::Dialog(s)) => s,
        other => panic!("no refusal: {:?}", other.map(|a| a.iban().to_string())),
    }
}

#[test]
fn refused_accounts_say_why() {
    assert_eq!(
        refusal("FR1420041010050500013M02606", "BNPAFRPP"),
        "IBAN must be a 22-character German IBAN, got \"FR1420041010050500013M02606\""
    );
    assert_eq!(
        refusal("\"x\\", ""),
        "IBAN must be a 22-character German IBAN, got \"\\\"X\\\\\""
    );
    assert_eq!(
        refusal("DE89370400440532013000", ""),
        "BIC must not be empty. Please set the BIC in the account settings."
    );
    assert!(Account::new("DE8937040044053201300-", "X").is_err());
    assert!(Account::new("DE893704004405320130000", "X").is_err());
}

// ---- Sessions ----

fn new_dialog() -> Dialog<fints::New> {
    Dialog::new(
        "https://bank.invalid/",
        &Blz::new("12345678"),
        &UserId::new("test1"),
        &Pin::new("1234"),
        &ProductId::new("TEST-123"),
    )
    .unwrap()
}

fn response(text: &str) -> fints::Response {
    fints::reply::parse_response(text.as_bytes(), 1).unwrap().0
}

fn pending() -> Dialog<fints::TanPending> {
    let answer = response("HIRMS:3:2+0030::TAN'HITAN:5:7:4+4++ref+Bitte'");
    match new_dialog().init_finish(answer).unwrap() {
        fints::InitResult::TanRequired(d, _, _) => d,
        fints::InitResult::Opened(..) => panic!("no TAN demanded"),
    }
}

fn open() -> Dialog<fints::Open> {
    new_dialog().init_no_tan_finish(response("HIRMG:3:2+0010::ok'")).unwrap().0
}

#[test]
fn a_session_that_waits_tells_the_challenge() {
    let outcome = InitiateOutcome::NeedTan(InitiateResult {
        dialog: pending(),
        challenge: TanChallenge {
            challenge: ChallengeText::new("Bitte"),
            challenge_hhduc: Some(HhdUcData(vec![1, 2])),
            task_reference: TaskReference::new("ref"),
            decoupled: true,
        },
        system_id: SystemId::new("sys"),
    });
    let (session, challenge) = Session::begin(outcome, Dkb::new());
    assert_eq!(session.system_id().as_str(), "sys");
    assert_eq!(challenge.challenge.as_str(), "Bitte");
    assert_eq!(challenge.challenge_hhduc.unwrap().0, vec![1, 2]);
    assert!(challenge.decoupled && !challenge.no_tan_required);
    match session {
        Session::WaitingForTan { task_reference, bank, .. } => {
            assert_eq!(task_reference.as_str(), "ref");
            assert_eq!(bank.config().blz.as_str(), "12030000");
        }
        Session::Ready { .. } => panic!("not waiting"),
    }
}

#[test]
fn a_ready_session_has_nothing_to_confirm() {
    let outcome = InitiateOutcome::Authenticated(InitiateNoTanResult {
        dialog: open(),
        system_id: SystemId::new("sys"),
    });
    let (session, challenge) = Session::begin(outcome, Dkb::new());
    assert_eq!(session.system_id().as_str(), "sys");
    assert_eq!(challenge.challenge.as_str(), "");
    assert!(challenge.challenge_hhduc.is_none());
    assert!(!challenge.decoupled && challenge.no_tan_required);
    assert!(matches!(session, Session::Ready { .. }));
}

#[test]
fn a_poll_that_is_pending_is_an_error() {
    let answer = response("HIRMS:3:2+3956::noch offen'");
    let result = pending().poll_finish(answer).unwrap();
    assert!(matches!(result, PollResult::Pending(_)));
    match Session::polled(result) {
        Err(FinTSError::Dialog(s)) => {
            assert_eq!(s, "TAN still pending: user has not yet confirmed in banking app")
        }
        _ => panic!("no error"),
    }
    let answer = response("HIRMS:3:2+0020::ok'");
    let result = pending().poll_finish(answer).unwrap();
    assert!(Session::polled(result).is_ok());
}
