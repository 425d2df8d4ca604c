//! What the request segments state, and where.

use vstd::prelude::*;

use crate::dates::{calendar_date, compact_text, digits_ymd, law_compact_date_read, Moment, Ymd};
use crate::element::{bytes_at, element_text, text_at, text_element, Element, Group};
use crate::numbers::{decimal, digits_value};
use crate::segments::builder::{
    account_group, header_ref_group, hkend_model, hkidn_model, hkkaz_model, hksal_model,
    hkspa_model, hksyn_model, hktab_model, hktan_process4_model, hktan_task_model, hkvvb_model,
    hkwpd_model, hnhbk_model, hnhbs_model, hnsha_model, hnshk_model, hnvsd_model, hnvsk_model,
};

verus! {

/// A text is stated as it is, an empty one by an element that states nothing.
pub broadcast proof fn lemma_stated_text(s: Seq<char>)
    ensures
        #[trigger] element_text(text_element(s)) == s,
{
    assert(element_text(text_element(s)) =~= s);
}

/// A segment that starts with its type, its number and its version.
pub open spec fn headed(seg: Seq<Group>, seg_type: Seq<char>, number: int, version: int) -> bool {
    &&& seg.len() > 0
    &&& seg[0].len() == 3
    &&& text_at(seg, 0, 0) == seg_type
    &&& text_at(seg, 0, 1) == decimal(number as nat)
    &&& text_at(seg, 0, 2) == decimal(version as nat)
}

// ---- The frame of a message ----

/// The message header states the size of the message with twelve digits at
/// least, version 300, the dialog and the number of the message.
pub proof fn law_message_header(size: int, dialog_id: Seq<char>, message_number: int)
    requires
        0 <= size,
    ensures
        ({
            let seg = hnhbk_model(size, dialog_id, message_number);
            &&& headed(seg, "HNHBK"@, 1, 3)
            &&& seg.len() == 5
            &&& digits_value(text_at(seg, 1, 0)) == size
            &&& text_at(seg, 1, 0).len() >= 12
            &&& text_at(seg, 2, 0) == "300"@
            &&& text_at(seg, 3, 0) == dialog_id
            &&& text_at(seg, 4, 0) == decimal(message_number as nat)
        }),
{
    broadcast use lemma_stated_text;

    crate::numbers::lemma_padded_number(size as nat, 12);
    reveal_strlit("HNHBK");
    reveal_strlit("300");
}

/// The message trailer states the number of the message.
pub proof fn law_message_trailer(number: int, message_number: int)
    ensures
        ({
            let seg = hnhbs_model(number, message_number);
            &&& headed(seg, "HNHBS"@, number, 1)
            &&& seg.len() == 2
            &&& text_at(seg, 1, 0) == decimal(message_number as nat)
        }),
{
    broadcast use lemma_stated_text;

}

/// The encryption header states the profile, the system, the moment, the bank
/// and the user.
pub proof fn law_encryption_header(
    blz: Seq<char>,
    user_id: Seq<char>,
    system_id: Seq<char>,
    m: Moment,
)
    ensures
        ({
            let seg = hnvsk_model(blz, user_id, system_id, m);
            &&& headed(seg, "HNVSK"@, 998, 3)
            &&& seg.len() == 9
            &&& text_at(seg, 1, 0) == "PIN"@ && text_at(seg, 1, 1) == "1"@
            &&& text_at(seg, 2, 0) == "998"@
            &&& text_at(seg, 3, 0) == "1"@
            &&& text_at(seg, 4, 0) == "2"@ && text_at(seg, 4, 2) == system_id
            &&& text_at(seg, 5, 0) == "1"@ && text_at(seg, 5, 1) == m.date && text_at(seg, 5, 2)
                == m.time
            &&& bytes_at(seg, 6, 3) matches Some(key) && key.len() == 8 && forall|i: int|
                0 <= i < 8 ==> key[i] == 0
            &&& text_at(seg, 7, 0) == "280"@ && text_at(seg, 7, 1) == blz && text_at(seg, 7, 2)
                == user_id && text_at(seg, 7, 3) == "V"@
            &&& text_at(seg, 8, 0) == "0"@
        }),
{
    broadcast use lemma_stated_text;

}

/// The container carries the bytes that it is made of.
pub proof fn law_container(inner: Seq<u8>)
    ensures
        ({
            let seg = hnvsd_model(inner);
            &&& headed(seg, "HNVSD"@, 999, 1)
            &&& seg.len() == 2
            &&& bytes_at(seg, 1, 0) == Some(inner)
        }),
{
    broadcast use lemma_stated_text;

}

/// The signature header states the security function that the message is signed
/// with, the reference of the signature, the system, the moment, the bank and
/// the user.
pub proof fn law_signature_header(
    number: int,
    security_function: Seq<char>,
    reference: int,
    blz: Seq<char>,
    user_id: Seq<char>,
    system_id: Seq<char>,
    m: Moment,
)
    ensures
        ({
            let seg = hnshk_model(
                number,
                security_function,
                reference,
                blz,
                user_id,
                system_id,
                m,
            );
            &&& headed(seg, "HNSHK"@, number, 4)
            &&& seg.len() == 12
            &&& text_at(seg, 1, 0) == "PIN"@ && text_at(seg, 1, 1) == "1"@
            &&& text_at(seg, 2, 0) == security_function
            &&& text_at(seg, 3, 0) == decimal(reference as nat)
            &&& text_at(seg, 4, 0) == "1"@ && text_at(seg, 5, 0) == "1"@
            &&& text_at(seg, 6, 0) == "2"@ && text_at(seg, 6, 2) == system_id
            &&& text_at(seg, 7, 0) == "1"@
            &&& text_at(seg, 8, 0) == "1"@ && text_at(seg, 8, 1) == m.date && text_at(seg, 8, 2)
                == m.time
            &&& text_at(seg, 9, 0) == "1"@ && text_at(seg, 9, 1) == "999"@ && text_at(seg, 9, 2)
                == "1"@
            &&& text_at(seg, 10, 0) == "6"@ && text_at(seg, 10, 1) == "10"@ && text_at(seg, 10, 2)
                == "16"@
            &&& text_at(seg, 11, 0) == "280"@ && text_at(seg, 11, 1) == blz && text_at(seg, 11, 2)
                == user_id && text_at(seg, 11, 3) == "S"@
        }),
{
    broadcast use lemma_stated_text;

}

/// The signature trailer states the reference of the signature, the PIN and,
/// where there is one, the TAN, even if that is empty.
pub proof fn law_signature_trailer(
    number: int,
    reference: int,
    pin: Seq<char>,
    tan: Option<Seq<char>>,
)
    ensures
        ({
            let seg = hnsha_model(number, reference, pin, tan);
            &&& headed(seg, "HNSHA"@, number, 2)
            &&& seg.len() == 4
            &&& text_at(seg, 1, 0) == decimal(reference as nat)
            &&& text_at(seg, 2, 0).len() == 0
            &&& text_at(seg, 3, 0) == pin
            &&& match tan {
                Some(t) => seg[3].len() == 2 && seg[3][1] == Element::Text(t),
                None => seg[3].len() == 1,
            }
        }),
{
    broadcast use lemma_stated_text;

}

/// A header with a reference states type, number, version and reference.
pub proof fn law_reference_header(seg_type: Seq<char>, number: int, version: int, reference: int)
    ensures
        ({
            let g = header_ref_group(seg_type, number, version, reference);
            &&& g.len() == 4
            &&& element_text(g[0]) == seg_type
            &&& element_text(g[1]) == decimal(number as nat)
            &&& element_text(g[2]) == decimal(version as nat)
            &&& element_text(g[3]) == decimal(reference as nat)
        }),
{
    broadcast use lemma_stated_text;

}

// ---- Starting and ending a dialog ----

/// The identification states the bank, the user and the system that are its
/// own.
pub proof fn law_identification(
    number: int,
    blz: Seq<char>,
    user_id: Seq<char>,
    system_id: Seq<char>,
)
    ensures
        ({
            let seg = hkidn_model(number, blz, user_id, system_id);
            &&& headed(seg, "HKIDN"@, number, 2)
            &&& seg.len() == 5
            &&& text_at(seg, 1, 0) == "280"@ && text_at(seg, 1, 1) == blz
            &&& text_at(seg, 2, 0) == user_id
            &&& text_at(seg, 3, 0) == system_id
            &&& text_at(seg, 4, 0) == "1"@
        }),
{
    broadcast use lemma_stated_text;

}

/// The preparation states the versions of the parameters that are known, and the
/// product.
pub proof fn law_preparation(number: int, bpd: int, upd: int, product_id: Seq<char>)
    ensures
        ({
            let seg = hkvvb_model(number, bpd, upd, product_id);
            &&& headed(seg, "HKVVB"@, number, 3)
            &&& seg.len() == 6
            &&& text_at(seg, 1, 0) == decimal(bpd as nat)
            &&& text_at(seg, 2, 0) == decimal(upd as nat)
            &&& text_at(seg, 3, 0) == "1"@
            &&& text_at(seg, 4, 0) == product_id
            &&& text_at(seg, 5, 0) == "1.0"@
        }),
{
    broadcast use lemma_stated_text;

}

/// A synchronization asks for a new system identification.
pub proof fn law_synchronization(number: int)
    ensures
        ({
            let seg = hksyn_model(number);
            headed(seg, "HKSYN"@, number, 3) && seg.len() == 2 && text_at(seg, 1, 0) == "0"@
        }),
{
    broadcast use lemma_stated_text;

}

/// The end of a dialog states which dialog ends.
pub proof fn law_dialog_end(number: int, dialog_id: Seq<char>)
    ensures
        ({
            let seg = hkend_model(number, dialog_id);
            headed(seg, "HKEND"@, number, 1) && seg.len() == 2 && text_at(seg, 1, 0) == dialog_id
        }),
{
    broadcast use lemma_stated_text;

}

// ---- TAN segments ----

/// A request for a challenge states process 4, the segment that the challenge is
/// for and the TAN medium, and nothing else.
pub proof fn law_challenge_request(
    number: int,
    version: int,
    seg_type: Seq<char>,
    medium: Option<Seq<char>>,
)
    ensures
        ({
            let seg = hktan_process4_model(number, version, seg_type, medium);
            let place: int = if version >= 6 {
                11
            } else {
                3
            };
            &&& headed(seg, "HKTAN"@, number, version)
            &&& text_at(seg, 1, 0) == "4"@
            &&& text_at(seg, 2, 0) == seg_type
            &&& medium matches Some(name) ==> seg.len() == place + 1 && text_at(seg, place, 0)
                == name
            &&& medium is None ==> seg.len() == (if version >= 6 {
                8int
            } else {
                3int
            })
            &&& forall|i: int|
                3 <= i < seg.len() && i != place ==> #[trigger] seg[i] == seq![Element::Empty]
        }),
{
    broadcast use lemma_stated_text;

}

/// A TAN segment on a task that is under way states the process, the task, that
/// no further TAN follows, and the TAN medium, and nothing else.
pub proof fn law_task_request(
    process: Seq<char>,
    number: int,
    version: int,
    task: Seq<char>,
    medium: Option<Seq<char>>,
)
    ensures
        ({
            let seg = hktan_task_model(process, number, version, task, medium);
            let at: int = if version >= 6 {
                5
            } else {
                4
            };
            let place: int = if version >= 6 {
                11
            } else {
                6
            };
            &&& headed(seg, "HKTAN"@, number, version)
            &&& text_at(seg, 1, 0) == process
            &&& text_at(seg, at, 0) == task
            &&& text_at(seg, at + 1, 0) == "N"@
            &&& medium matches Some(name) ==> seg.len() == place + 1 && text_at(seg, place, 0)
                == name
            &&& medium is None ==> seg.len() == (if version >= 6 {
                8int
            } else {
                6int
            })
            &&& forall|i: int|
                2 <= i < seg.len() && i != at && i != at + 1 && i != place ==> #[trigger] seg[i]
                    == seq![Element::Empty]
        }),
{
    broadcast use lemma_stated_text;

}

/// The requests for TAN media and for SEPA accounts.
pub proof fn law_list_requests(number: int, version: int)
    ensures
        headed(hktab_model(number, version), "HKTAB"@, number, version),
        text_at(hktab_model(number, version), 1, 0) == "A"@,
        hktab_model(number, version).len() == 2,
        headed(hkspa_model(number, version), "HKSPA"@, number, version),
        hkspa_model(number, version).len() == 1,
{
    broadcast use lemma_stated_text;

}

// ---- Business segments ----

/// An account is addressed by IBAN and BIC from a version on. Below it is
/// addressed by the account number and the Bankleitzahl that its IBAN holds.
pub open spec fn addresses(
    g: Group,
    version: int,
    kti_min_version: int,
    iban: Seq<char>,
    bic: Seq<char>,
) -> bool {
    if version >= kti_min_version {
        &&& g.len() == 2
        &&& element_text(g[0]) == iban
        &&& element_text(g[1]) == bic
    } else {
        &&& g.len() == 4
        &&& element_text(g[0]) == iban.subrange(12, 22)
        &&& element_text(g[1]).len() == 0
        &&& element_text(g[2]) == "280"@
        &&& element_text(g[3]) == iban.subrange(4, 12)
    }
}

/// Accounts are addressed as the version of the segment calls for.
pub proof fn law_account_addressed(
    version: int,
    kti_min_version: int,
    iban: Seq<char>,
    bic: Seq<char>,
)
    ensures
        addresses(
            account_group(version, kti_min_version, iban, bic),
            version,
            kti_min_version,
            iban,
            bic,
        ),
{
}

/// A request with a point to go on from is the one without, followed by the
/// point.
pub open spec fn continues(
    first: Seq<Group>,
    next: Seq<Group>,
    point: Seq<char>,
) -> bool {
    &&& next.len() == first.len() + 1
    &&& next.drop_last() == first
    &&& next.last().len() == 1
    &&& element_text(next.last()[0]) == point
}

/// A balance request states the account, and that it is for this account alone.
/// From version 6 on it is addressed internationally.
pub proof fn law_balance_request(
    number: int,
    version: int,
    iban: Seq<char>,
    bic: Seq<char>,
    point: Seq<char>,
)
    ensures
        ({
            let seg = hksal_model(number, version, iban, bic, None);
            &&& headed(seg, "HKSAL"@, number, version)
            &&& seg.len() == 4
            &&& addresses(seg[1], version, 6, iban, bic)
            &&& text_at(seg, 2, 0) == "N"@
            &&& seg[3] == seq![Element::Empty]
            &&& continues(seg, hksal_model(number, version, iban, bic, Some(point)), point)
        }),
{
    broadcast use lemma_stated_text;

    let seg = hksal_model(number, version, iban, bic, None);
    let next = hksal_model(number, version, iban, bic, Some(point));
    assert(next.drop_last() =~= seg);
}

/// A transaction request states the account and the first and the last day of
/// the range. The request for a further page asks for the same range. From
/// version 6 on the account is addressed internationally.
pub proof fn law_transactions_request(
    number: int,
    version: int,
    iban: Seq<char>,
    bic: Seq<char>,
    start: Ymd,
    end: Ymd,
    point: Seq<char>,
)
    requires
        calendar_date(start) && 0 <= start.year <= 9999,
        calendar_date(end) && 0 <= end.year <= 9999,
    ensures
        ({
            let seg = hkkaz_model(number, version, iban, bic, start, end, None);
            &&& headed(seg, "HKKAZ"@, number, version)
            &&& seg.len() == 6
            &&& addresses(seg[1], version, 6, iban, bic)
            &&& text_at(seg, 2, 0) == "N"@
            &&& text_at(seg, 3, 0).len() == 8 && digits_ymd(text_at(seg, 3, 0)) == start
            &&& text_at(seg, 4, 0).len() == 8 && digits_ymd(text_at(seg, 4, 0)) == end
            &&& seg[5] == seq![Element::Empty]
            &&& continues(
                seg,
                hkkaz_model(number, version, iban, bic, start, end, Some(point)),
                point,
            )
        }),
{
    broadcast use lemma_stated_text;

    let seg = hkkaz_model(number, version, iban, bic, start, end, None);
    let next = hkkaz_model(number, version, iban, bic, start, end, Some(point));
    law_compact_date_read(start);
    law_compact_date_read(end);
    assert(next.drop_last() =~= seg);
}

/// The days of a transaction request are those of its range, whatever the years
/// and with or without a point to go on from.
pub proof fn law_transactions_range(
    number: int,
    version: int,
    iban: Seq<char>,
    bic: Seq<char>,
    start: Ymd,
    end: Ymd,
    touchdown: Option<Seq<char>>,
)
    ensures
        ({
            let seg = hkkaz_model(number, version, iban, bic, start, end, touchdown);
            &&& text_at(seg, 3, 0) == compact_text(start)
            &&& text_at(seg, 4, 0) == compact_text(end)
            &&& seg.len() == (if touchdown is Some {
                7int
            } else {
                6int
            })
            &&& touchdown matches Some(td) ==> text_at(seg, 6, 0) == td
        }),
{
    broadcast use lemma_stated_text;

}

/// A holdings request states the account and the currency of the prices, where
/// one is asked for. From version 7 on the account is addressed internationally.
pub proof fn law_holdings_request(
    number: int,
    version: int,
    iban: Seq<char>,
    bic: Seq<char>,
    currency: Option<Seq<char>>,
    point: Seq<char>,
)
    ensures
        ({
            let seg = hkwpd_model(number, version, iban, bic, currency, None);
            &&& headed(seg, "HKWPD"@, number, version)
            &&& seg.len() == 5
            &&& addresses(seg[1], version, 7, iban, bic)
            &&& match currency {
                Some(c) => text_at(seg, 2, 0) == c,
                None => text_at(seg, 2, 0).len() == 0,
            }
            &&& seg[3] == seq![Element::Empty]
            &&& seg[4] == seq![Element::Empty]
            &&& continues(
                seg,
                hkwpd_model(number, version, iban, bic, currency, Some(point)),
                point,
            )
        }),
{
    broadcast use lemma_stated_text;

    let seg = hkwpd_model(number, version, iban, bic, currency, None);
    let next = hkwpd_model(number, version, iban, bic, currency, Some(point));
    assert(next.drop_last() =~= seg);
}

} // verus!
