//! The state of the mock bank, and how it handles a message.

use vstd::prelude::*;
use vstd::string::*;
use vstd::utf8::*;

use crate::element::{group_views, views};
use crate::map::TextMap;
use crate::numbers::{decimal, decimal_string, padded, padded_string};
use crate::server::answer::{
    accepted_answer, asks_for_system, build_accepted_answer, build_refusal, refusal, synchronizes,
};
use crate::server::codec::{base64_decoded, base64_encoded, decode_body, encode_body};
use crate::server::faults::{fault_on, find_fault, ErrorOn, ErrorType};
use crate::server::fixtures::{list_contains, FixtureData, Fixtures};
use crate::server::scan::{dialog_id_in, extract_dialog_id, extract_pin_tan, pin_tan_in};
use crate::text::{copy_bytes, push_bytes, push_text, same_text};

verus! {

// ---- Envelopes ----

/// The encryption header of every answer.
pub open spec fn encryption_header() -> Seq<u8> {
    encode_utf8(
        "HNVSK:998:3+PIN:1+998+1+2::0+1+2:2:13:@8@\x00\x00\x00\x00\x00\x00\x00\x00:5:1+280:12345678:0:S:0:0+0'"@,
    )
}

/// The container around the inner segments of an answer.
pub open spec fn envelope_container(inner: Seq<u8>) -> Seq<u8> {
    encode_utf8("HNVSD:999:1+"@) + encode_utf8("@"@) + encode_utf8(decimal(inner.len()))
        + encode_utf8("@"@) + inner + encode_utf8("'"@)
}

/// The trailer of an answer.
pub open spec fn envelope_trailer(message_number: int) -> Seq<u8> {
    encode_utf8("HNHBS:5:1+"@) + encode_utf8(decimal(message_number as nat)) + encode_utf8("'"@)
}

/// What follows the header of an answer: encryption header, container, trailer.
pub open spec fn envelope_body(message_number: int, inner: Seq<u8>) -> Seq<u8> {
    encryption_header() + envelope_container(inner) + envelope_trailer(message_number)
}

/// The header of an answer of a size.
pub open spec fn envelope_header(size: int, dialog_id: Seq<char>, message_number: int) -> Seq<u8> {
    encode_utf8("HNHBK:1:3+"@) + encode_utf8(padded(size as nat, 12)) + encode_utf8("+300+"@)
        + encode_utf8(dialog_id) + encode_utf8("+"@) + encode_utf8(decimal(message_number as nat))
        + encode_utf8("'"@)
}

/// The size that the header of an answer states.
pub open spec fn envelope_size(dialog_id: Seq<char>, message_number: int, inner: Seq<u8>) -> int {
    (envelope_header(0, dialog_id, message_number).len() + envelope_body(
        message_number,
        inner,
    ).len()) as int
}

/// An answer: the inner segments in their envelope.
pub open spec fn envelope(dialog_id: Seq<char>, message_number: int, inner: Seq<u8>) -> Seq<u8> {
    envelope_header(
        envelope_size(dialog_id, message_number, inner),
        dialog_id,
        message_number,
    ) + envelope_body(message_number, inner)
}

fn build_header(size: u128, dialog_id: &str, message_number: u32) -> (out: Vec<u8>)
    ensures
        out@ == envelope_header(size as int, dialog_id@, message_number as int),
{
    let mut out: Vec<u8> = copy_bytes("HNHBK:1:3+".as_bytes());
    push_text(&mut out, padded_string(size, 12).as_str());
    push_text(&mut out, "+300+");
    push_text(&mut out, dialog_id);
    push_text(&mut out, "+");
    push_text(&mut out, decimal_string(message_number as u128).as_str());
    push_text(&mut out, "'");
    out
}

fn build_container(inner: &[u8]) -> (out: Vec<u8>)
    ensures
        out@ == envelope_container(inner@),
{
    let mut out: Vec<u8> = copy_bytes("HNVSD:999:1+".as_bytes());
    push_text(&mut out, "@");
    push_text(&mut out, decimal_string(inner.len() as u128).as_str());
    push_text(&mut out, "@");
    push_bytes(&mut out, inner);
    push_text(&mut out, "'");
    out
}

fn build_body(message_number: u32, inner: &[u8]) -> (out: Vec<u8>)
    ensures
        out@ == envelope_body(message_number as int, inner@),
{
    let mut trailer: Vec<u8> = copy_bytes("HNHBS:5:1+".as_bytes());
    push_text(&mut trailer, decimal_string(message_number as u128).as_str());
    push_text(&mut trailer, "'");
    let mut out: Vec<u8> = copy_bytes(
        "HNVSK:998:3+PIN:1+998+1+2::0+1+2:2:13:@8@\x00\x00\x00\x00\x00\x00\x00\x00:5:1+280:12345678:0:S:0:0+0'".as_bytes(),
    );
    push_bytes(&mut out, build_container(inner).as_slice());
    push_bytes(&mut out, trailer.as_slice());
    out
}

/// Puts the inner segments of an answer in their envelope.
pub fn build_envelope(dialog_id: &str, message_number: u32, inner: &[u8]) -> (out: Vec<u8>)
    ensures
        out@ == envelope(dialog_id@, message_number as int, inner@),
{
    let body = build_body(message_number, inner);
    let blank = build_header(0, dialog_id, message_number);
    let total: u128 = blank.len() as u128 + body.len() as u128;
    let mut out = build_header(total, dialog_id, message_number);
    push_bytes(&mut out, body.as_slice());
    out
}

// ---- State ----

/// The mock bank.
#[derive(Debug)]
pub struct ServerState {
    pub fixtures: Fixtures,
    /// How many messages of each dialog have been answered.
    pub dialogs: TextMap<u32>,
    /// The system identifications that have been assigned.
    pub systems: Vec<String>,
    pub dialog_counter: u32,
    pub system_counter: u32,
    pub dialog_prefix: String,
    pub system_prefix: String,
    pub port: u16,
    /// The operation to answer with an error, if any.
    pub error_on: Option<ErrorOn>,
    /// The error to answer it with.
    pub error_type: ErrorType,
}

/// The mock bank as a value.
pub struct BankState {
    pub fixtures: FixtureData,
    pub dialogs: Map<Seq<char>, u32>,
    pub systems: Seq<Seq<char>>,
    pub dialog_counter: int,
    pub system_counter: int,
    pub dialog_prefix: Seq<char>,
    pub system_prefix: Seq<char>,
    pub port: int,
    pub error_on: Option<ErrorOn>,
    pub error_type: ErrorType,
}

impl View for ServerState {
    type V = BankState;

    open spec fn view(&self) -> BankState {
        BankState {
            fixtures: self.fixtures@,
            dialogs: self.dialogs@,
            systems: views(self.systems@),
            dialog_counter: self.dialog_counter as int,
            system_counter: self.system_counter as int,
            dialog_prefix: self.dialog_prefix@,
            system_prefix: self.system_prefix@,
            port: self.port as int,
            error_on: self.error_on,
            error_type: self.error_type,
        }
    }
}

/// A prefix and a number of at least five digits.
pub open spec fn generated_id(prefix: Seq<char>, n: int) -> Seq<char> {
    prefix + ";"@ + padded(n as nat, 5)
}

fn generate_id(prefix: &str, n: u32) -> (id: String)
    ensures
        id@ == generated_id(prefix@, n as int),
{
    let mut id = prefix.to_string();
    id.append(";");
    id.append(padded_string(n as u128, 5).as_str());
    id
}

/// The PIN of a message; empty where it has none.
pub open spec fn message_pin(message: Seq<u8>) -> Seq<char> {
    match pin_tan_in(message).0 {
        Some(pin) => pin,
        None => Seq::empty(),
    }
}

fn read_pin(message: &[u8]) -> (pin: String)
    ensures
        pin@ == message_pin(message@),
{
    match extract_pin_tan(message).0 {
        Some(pin) => pin,
        None => String::new(),
    }
}

/// Whether the PIN of a message is neither valid nor locked.
pub open spec fn refused(b: BankState, message: Seq<u8>) -> bool {
    let pin = message_pin(message);
    !b.fixtures.valid_pins.contains(pin) && !b.fixtures.temp_locked_pins.contains(pin)
}

/// The error on initializations, if one is set.
pub open spec fn init_fault(b: BankState) -> Option<ErrorType> {
    fault_on(b.error_on, b.error_type, ErrorOn::Init)
}

/// The inner segments of the answer to a message. The operation that is set to
/// fail is answered with its error, without data and without a code of success.
pub open spec fn answer_of(b: BankState, message: Seq<u8>) -> Seq<u8> {
    if refused(b, message) {
        refusal()
    } else {
        accepted_answer(
            message,
            b.fixtures,
            b.fixtures.temp_locked_pins.contains(message_pin(message)),
            b.port,
            generated_id(b.system_prefix, b.system_counter + 1),
            b.error_on,
            b.error_type,
        )
    }
}

/// A system identification stands in an answer only where one is assigned.
proof fn lemma_system_id_unused(
    message: Seq<u8>,
    b: BankState,
    locked: bool,
    id: Seq<char>,
    other: Seq<char>,
)
    requires
        !synchronizes(message, init_fault(b)),
    ensures
        accepted_answer(message, b.fixtures, locked, b.port, id, b.error_on, b.error_type)
            == accepted_answer(
            message,
            b.fixtures,
            locked,
            b.port,
            other,
            b.error_on,
            b.error_type,
        ),
{
}

/// The bank after it has made an answer: a system identification is assigned
/// where an accepted message asks for one.
pub open spec fn after_answer(b: BankState, message: Seq<u8>) -> BankState {
    if assigns_system(b, message) {
        BankState {
            system_counter: b.system_counter + 1,
            systems: b.systems.push(generated_id(b.system_prefix, b.system_counter + 1)),
            ..b
        }
    } else {
        b
    }
}

/// The dialog identification that a message states; 0 where it states none.
pub open spec fn requested_dialog(message: Seq<u8>) -> Seq<char> {
    match dialog_id_in(message) {
        Some(id) => id,
        None => "0"@,
    }
}

/// The dialog that a message belongs to: a new one where it states 0.
pub open spec fn dialog_for(b: BankState, message: Seq<u8>) -> Seq<char> {
    let id = requested_dialog(message);
    if id == "0"@ {
        generated_id(b.dialog_prefix, b.dialog_counter + 1)
    } else {
        id
    }
}

/// How many messages of that dialog have been answered.
pub open spec fn answered(b: BankState, message: Seq<u8>) -> int {
    let id = dialog_for(b, message);
    if requested_dialog(message) != "0"@ && b.dialogs.contains_key(id) {
        b.dialogs[id] as int
    } else {
        0
    }
}

/// The bank after it has counted a message. Dialogs that it does not know are
/// taken up.
pub open spec fn counted(b: BankState, message: Seq<u8>) -> BankState {
    BankState {
        dialog_counter: if requested_dialog(message) == "0"@ {
            b.dialog_counter + 1
        } else {
            b.dialog_counter
        },
        dialogs: b.dialogs.insert(
            dialog_for(b, message),
            (answered(b, message) + 1) as u32,
        ),
        ..b
    }
}

/// Whether a message is answered with a new system identification.
pub open spec fn assigns_system(b: BankState, message: Seq<u8>) -> bool {
    !refused(b, message) && synchronizes(message, init_fault(b))
}

/// Whether no counter overflows over a message.
pub open spec fn has_room(b: BankState, message: Seq<u8>) -> bool {
    &&& requested_dialog(message) == "0"@ ==> b.dialog_counter < u32::MAX
    &&& assigns_system(b, message) ==> b.system_counter < u32::MAX
    &&& answered(b, message) < u32::MAX
}

/// The answer to a message, with the number that it has in its dialog.
pub open spec fn reply_to(b: BankState, message: Seq<u8>) -> Seq<u8> {
    envelope(
        dialog_for(b, message),
        answered(b, message) + 1,
        answer_of(counted(b, message), message),
    )
}

/// The bank after a message. One that would make a counter run over is not
/// answered and changes nothing.
pub open spec fn after_message(b: BankState, message: Seq<u8>) -> BankState {
    if has_room(b, message) {
        after_answer(counted(b, message), message)
    } else {
        b
    }
}

/// A mock bank that has not talked to anyone yet.
pub open spec fn new_bank(
    fixtures: FixtureData,
    dialog_prefix: Seq<char>,
    system_prefix: Seq<char>,
    port: int,
) -> BankState {
    BankState {
        fixtures,
        dialogs: Map::empty(),
        systems: Seq::empty(),
        dialog_counter: 0,
        system_counter: 0,
        dialog_prefix,
        system_prefix,
        port,
        error_on: None,
        error_type: ErrorType::BankError,
    }
}

/// What handling a message gives: the inner segments and the whole answer.
pub struct Exchange {
    pub inner: Vec<u8>,
    pub response: Vec<u8>,
}

/// What handling the body of a request gives.
pub enum BodyOutcome {
    /// The body of the answer.
    Reply(String),
    /// The body is no Base64.
    BadRequest,
    /// A counter of the mock bank has run out.
    Exhausted,
}

impl ServerState {
    /// A mock bank that has not talked to anyone yet.
    pub fn new(
        fixtures: Fixtures,
        dialog_prefix: &str,
        system_prefix: &str,
        port: u16,
    ) -> (b: ServerState)
        ensures
            b@ == new_bank(fixtures@, dialog_prefix@, system_prefix@, port as int),
    {
        broadcast use group_views;

        ServerState {
            fixtures,
            dialogs: TextMap::new(),
            systems: Vec::new(),
            dialog_counter: 0,
            system_counter: 0,
            dialog_prefix: dialog_prefix.to_string(),
            system_prefix: system_prefix.to_string(),
            port,
            error_on: None,
            error_type: ErrorType::BankError,
        }
    }

    /// Sets the operation to answer with an error, and the error.
    pub fn inject_error(&mut self, error_on: Option<ErrorOn>, error_type: ErrorType)
        ensures
            final(self)@ == (BankState { error_on, error_type, ..old(self)@ }),
    {
        self.error_on = error_on;
        self.error_type = error_type;
    }

    /// The inner segments of the answer to a message.
    pub fn make_answer(&mut self, message: &[u8]) -> (inner: Vec<u8>)
        requires
            assigns_system(old(self)@, message@) ==> old(self)@.system_counter < u32::MAX,
        ensures
            inner@ == answer_of(old(self)@, message@),
            final(self)@ == after_answer(old(self)@, message@),
    {
        broadcast use group_views;

        let pin = read_pin(message);
        let valid: bool = list_contains(&self.fixtures.valid_pins, pin.as_str());
        let locked: bool = list_contains(&self.fixtures.temp_locked_pins, pin.as_str());
        if !valid && !locked {
            return build_refusal();
        }
        let init = find_fault(self.error_on, self.error_type, ErrorOn::Init);
        if !asks_for_system(message, init) {
            proof {
                lemma_system_id_unused(
                    message@,
                    self@,
                    locked,
                    ""@,
                    generated_id(self@.system_prefix, self@.system_counter + 1),
                );
            }
            return build_accepted_answer(
                message,
                &self.fixtures,
                locked,
                self.port,
                "",
                self.error_on,
                self.error_type,
            );
        }
        self.system_counter = self.system_counter + 1;
        let system_id = generate_id(self.system_prefix.as_str(), self.system_counter);
        let inner = build_accepted_answer(
            message,
            &self.fixtures,
            locked,
            self.port,
            system_id.as_str(),
            self.error_on,
            self.error_type,
        );
        self.systems.push(system_id);
        inner
    }

    /// Finds the dialog of a message and counts the message. Gives the dialog
    /// identification and the number of the answer.
    fn count_message(&mut self, message: &[u8]) -> (res: (String, u32))
        requires
            has_room(old(self)@, message@),
        ensures
            res.0@ == dialog_for(old(self)@, message@),
            res.1 as int == answered(old(self)@, message@) + 1,
            final(self)@ == counted(old(self)@, message@),
    {
        let requested = match extract_dialog_id(message) {
            Some(id) => id,
            None => "0".to_string(),
        };
        let fresh: bool = same_text(requested.as_str(), "0");
        let id = if fresh {
            self.dialog_counter = self.dialog_counter + 1;
            generate_id(self.dialog_prefix.as_str(), self.dialog_counter)
        } else {
            requested
        };
        let known: u32 = if fresh {
            0
        } else {
            match self.dialogs.get(id.as_str()) {
                Some(n) => *n,
                None => 0,
            }
        };
        self.dialogs.insert(id.as_str(), known + 1);
        (id, known + 1)
    }

    /// Whether a message can be handled without a counter running over.
    pub fn can_handle(&self, message: &[u8]) -> (b: bool)
        ensures
            b == has_room(self@, message@),
    {
        let requested = match extract_dialog_id(message) {
            Some(id) => id,
            None => "0".to_string(),
        };
        let fresh: bool = same_text(requested.as_str(), "0");
        let known: u32 = if fresh {
            0
        } else {
            match self.dialogs.get(requested.as_str()) {
                Some(n) => *n,
                None => 0,
            }
        };
        let pin = read_pin(message);
        let accepted: bool = list_contains(&self.fixtures.valid_pins, pin.as_str())
            || list_contains(&self.fixtures.temp_locked_pins, pin.as_str());
        let init = find_fault(self.error_on, self.error_type, ErrorOn::Init);
        let assigns: bool = accepted && asks_for_system(message, init);
        (!fresh || self.dialog_counter < u32::MAX) && (!assigns || self.system_counter < u32::MAX)
            && known < u32::MAX
    }

    /// Handles a message: finds or opens its dialog, makes the answer and puts
    /// it in its envelope.
    pub fn handle(&mut self, message: &[u8]) -> (res: Exchange)
        requires
            has_room(old(self)@, message@),
        ensures
            res.inner@ == answer_of(counted(old(self)@, message@), message@),
            res.response@ == reply_to(old(self)@, message@),
            final(self)@ == after_message(old(self)@, message@),
    {
        let (dialog_id, number) = self.count_message(message);
        let inner = self.make_answer(message);
        let response = build_envelope(dialog_id.as_str(), number, inner.as_slice());
        Exchange { inner, response }
    }

    /// Handles the body of a request, which carries a message as Base64. Where
    /// that is no Base64, or a counter would run over, nothing changes.
    pub fn handle_body(&mut self, body: &[u8]) -> (res: BodyOutcome)
        ensures
            match base64_decoded(body@) {
                Some(message) => {
                    &&& has_room(old(self)@, message) ==> (res matches BodyOutcome::Reply(text)
                        && text@ == base64_encoded(reply_to(old(self)@, message)))
                    &&& !has_room(old(self)@, message) ==> res is Exhausted
                    &&& final(self)@ == after_message(old(self)@, message)
                },
                None => res is BadRequest && final(self)@ == old(self)@,
            },
    {
        match decode_body(body) {
            Some(message) => {
                if !self.can_handle(message.as_slice()) {
                    return BodyOutcome::Exhausted;
                }
                let exchange = self.handle(message.as_slice());
                BodyOutcome::Reply(encode_body(exchange.response.as_slice()))
            },
            None => BodyOutcome::BadRequest,
        }
    }
}

} // verus!
