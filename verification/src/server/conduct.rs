//! How the mock bank conducts itself: what it remembers, whom it serves, and what
//! it answers to which request.

use vstd::prelude::*;
use vstd::utf8::*;

use crate::message::{message_failure, message_wire, signed_segments, Seal, Sender};
use crate::params::Params;
use crate::request::Order;
use crate::serializer::segments_wire;
use crate::server::answer::{
    accounts_part, balance_part, end_part, greeting, holdings_part, preparation_number,
    preparation_part, preparation_reply, refusal, sync_part, transactions_part,
};
use crate::server::faults::ErrorType;
use crate::server::fixtures::FixtureData;
use crate::server::laws::lemma_ascii;
use crate::server::reading::plain;
use crate::server::scan::{
    dialog_id_in, find_from, known_versions_in, mentions, number_version_in, pin_tan_in,
};
use crate::server::signing::{before_container, before_trailer, law_signature_found, plain_tan};
use crate::server::state::{
    after_answer, after_message, answer_of, answered, assigns_system, counted, dialog_for,
    envelope, generated_id, has_room, message_pin, new_bank, refused, reply_to, BankState,
};

verus! {

// ---- Dialogs ----

/// A message that states no dialog, or dialog 0, opens one: its identification is
/// made from how many were opened before, and its first answer is number 1.
pub proof fn law_dialog_opened(b: BankState, message: Seq<u8>)
    requires
        match dialog_id_in(message) {
            Some(id) => id == "0"@,
            None => true,
        },
    ensures
        ({
            let id = generated_id(b.dialog_prefix, b.dialog_counter + 1);
            let after = counted(b, message);
            &&& reply_to(b, message) == envelope(id, 1, answer_of(after, message))
            &&& after.dialog_counter == b.dialog_counter + 1
            &&& after.dialogs == b.dialogs.insert(id, 1)
        }),
{
}

/// A message of a dialog is answered in that dialog. A dialog that the bank does
/// not know is taken up; in one that it knows the answers are numbered on. Other
/// dialogs are left alone.
pub proof fn law_dialog_continued(b: BankState, message: Seq<u8>, id: Seq<char>, other: Seq<char>)
    requires
        dialog_id_in(message) == Some(id),
        id != "0"@,
    ensures
        ({
            let after = counted(b, message);
            let number = if b.dialogs.contains_key(id) {
                b.dialogs[id] + 1
            } else {
                1
            };
            &&& reply_to(b, message) == envelope(id, number, answer_of(after, message))
            &&& after.dialog_counter == b.dialog_counter
            &&& after.dialogs.contains_key(id)
            &&& number <= u32::MAX ==> after.dialogs[id] == number
            &&& other != id ==> {
                &&& after.dialogs.contains_key(other) == b.dialogs.contains_key(other)
                &&& b.dialogs.contains_key(other) ==> after.dialogs[other] == b.dialogs[other]
            }
        }),
{
}

/// Counting a message changes nothing but the dialogs, and answering it nothing
/// but the systems.
pub proof fn law_bank_kept(b: BankState, message: Seq<u8>)
    ensures
        ({
            let after = after_message(b, message);
            &&& after.fixtures == b.fixtures
            &&& after.dialog_prefix == b.dialog_prefix && after.system_prefix == b.system_prefix
            &&& after.port == b.port
            &&& after.error_on == b.error_on && after.error_type == b.error_type
            &&& after.systems.len() >= b.systems.len()
            &&& after.systems.take(b.systems.len() as int) == b.systems
            &&& after.systems.len() == b.systems.len() + (after.system_counter - b.system_counter)
            &&& !has_room(b, message) ==> after == b
        }),
{
    let after = after_message(b, message);
    assert(after.systems.take(b.systems.len() as int) =~= b.systems);
}

/// A new bank has opened no dialog, assigned no system and is to fail nowhere.
pub proof fn law_new_bank(
    fixtures: FixtureData,
    dialog_prefix: Seq<char>,
    system_prefix: Seq<char>,
    port: int,
    message: Seq<u8>,
)
    ensures
        ({
            let b = new_bank(fixtures, dialog_prefix, system_prefix, port);
            &&& b.fixtures == fixtures && b.port == port
            &&& b.dialog_prefix == dialog_prefix && b.system_prefix == system_prefix
            &&& b.systems.len() == 0
            &&& b.error_on is None
            &&& has_room(b, message)
            &&& dialog_id_in(message) is None ==> dialog_for(b, message) == generated_id(
                dialog_prefix,
                1,
            )
            &&& answered(b, message) == 0
        }),
{
}

// ---- PINs ----

/// A message whose PIN is neither valid nor locked is answered with the refusal,
/// whatever else it asks for, and no system is assigned.
pub proof fn law_refused_served_nothing(b: BankState, message: Seq<u8>)
    requires
        ({
            let pin = match pin_tan_in(message).0 {
                Some(pin) => pin,
                None => Seq::empty(),
            };
            !b.fixtures.valid_pins.contains(pin) && !b.fixtures.temp_locked_pins.contains(pin)
        }),
    ensures
        answer_of(b, message) == refusal(),
        after_answer(b, message) == b,
        !assigns_system(b, message),
{
    assert(message_pin(message) == match pin_tan_in(message).0 {
        Some(pin) => pin,
        None => Seq::empty(),
    });
}

/// A client that initializes with a locked PIN is told that it is locked, and one
/// with a valid PIN what it may sign with.
pub proof fn law_lock_decides(
    b: BankState,
    s: Sender,
    seal: Seal,
    orders: Seq<Order>,
    p: Params,
    bpd: Seq<char>,
    upd: Seq<char>,
)
    requires
        message_failure(s, seal, orders, p) is None,
        0 <= seal.reference,
        plain_tan(seal.tan),
        plain(s.pin),
        s.pin.len() > 0,
        ({
            let front = before_container(s, seal, orders, p);
            let marker = encode_utf8("HNVSD:999:1+"@);
            find_from(front + marker, marker, 0) == Some(front.len() as int)
        }),
        ({
            let front = before_trailer(s, seal, orders, p);
            let marker = encode_utf8("HNSHA:"@);
            find_from(front + marker, marker, 0) == Some(front.len() as int)
        }),
        segments_wire(signed_segments(s, seal, orders, p)).len() <= usize::MAX,
        b.fixtures.valid_pins.contains(s.pin) || b.fixtures.temp_locked_pins.contains(s.pin),
        b.error_on is None,
        known_versions_in(message_wire(s, seal, orders, p)) == Some((bpd, upd)),
    ensures
        ({
            let message = message_wire(s, seal, orders, p);
            let told = greeting() + preparation_reply(
                preparation_number(message),
                bpd,
                upd,
                b.fixtures.temp_locked_pins.contains(s.pin),
                b.port,
            );
            &&& answer_of(b, message).len() >= told.len()
            &&& answer_of(b, message).take(told.len() as int) == told
        }),
{
    law_signature_found(s, seal, orders, p);
    let message = message_wire(s, seal, orders, p);
    let told = greeting() + preparation_reply(
        preparation_number(message),
        bpd,
        upd,
        b.fixtures.temp_locked_pins.contains(s.pin),
        b.port,
    );
    assert(answer_of(b, message).take(told.len() as int) =~= told);
}

/// The answer to HKVVB refers to the number of that segment, and to 3 where the
/// segment states none.
pub proof fn law_preparation_number(message: Seq<u8>)
    ensures
        match number_version_in(message, "HKVVB"@) {
            Some((number, version)) => preparation_number(message) == number,
            None => preparation_number(message) == "3"@,
        },
{
}

// ---- Requests ----

/// Each part of an answer is there where its segment is asked for, and only
/// there.
pub proof fn law_parts_asked_for(
    message: Seq<u8>,
    f: FixtureData,
    locked: bool,
    port: int,
    system_id: Seq<char>,
    fault: Option<ErrorType>,
)
    ensures
        preparation_part(message, locked, port, fault).len() > 0 <==> known_versions_in(
            message,
        ) is Some,
        sync_part(message, system_id, None).len() > 0 <==> mentions(message, "HKSYN"@),
        sync_part(message, system_id, fault).len() > 0 <==> mentions(message, "HKSYN"@) && (
        known_versions_in(message) is None || fault is None),
        accounts_part(message).len() > 0 <==> mentions(message, "HKSPA"@),
        balance_part(message, f, fault).len() > 0 <==> number_version_in(
            message,
            "HKSAL"@,
        ) is Some,
        transactions_part(message, fault).len() > 0 <==> number_version_in(
            message,
            "HKKAZ"@,
        ) is Some,
        holdings_part(message, f, fault).len() > 0 <==> number_version_in(
            message,
            "HKWPD"@,
        ) is Some,
        end_part(message).len() > 0 <==> mentions(message, "HKEND"@),
{
    reveal_strlit("HIRMS::2:");
    reveal_strlit("HISYN::4:5+");
    reveal_strlit("HISPA::1:4+J:DE11123456780000000001:GENODE23X42:00001::280:12345678'");
    reveal_strlit("HIRMS::2+0010::Dialog beendet'");
    lemma_ascii("HIRMS::2:"@);
    lemma_ascii("HISYN::4:5+"@);
    lemma_ascii(
        "HISPA::1:4+J:DE11123456780000000001:GENODE23X42:00001::280:12345678'"@,
    );
    lemma_ascii("HIRMS::2+0010::Dialog beendet'"@);
}

/// A message that asks for nothing is greeted.
pub proof fn law_greeted(b: BankState, message: Seq<u8>)
    requires
        !refused(b, message),
        known_versions_in(message) is None,
        !mentions(message, "HKSYN"@) && !mentions(message, "HKSPA"@) && !mentions(
            message,
            "HKEND"@,
        ),
        number_version_in(message, "HKSAL"@) is None,
        number_version_in(message, "HKKAZ"@) is None,
        number_version_in(message, "HKWPD"@) is None,
    ensures
        answer_of(b, message) == greeting(),
{
    assert(answer_of(b, message) =~= greeting());
}

} // verus!
