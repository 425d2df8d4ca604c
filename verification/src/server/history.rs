//! What the mock bank keeps over a history of messages.

use vstd::prelude::*;

use crate::server::laws::law_ids_distinct;
use crate::server::state::{
    after_message, answer_of, answered, counted, dialog_for, envelope, generated_id, has_room,
    reply_to, requested_dialog, BankState,
};

verus! {

/// The bank after messages.
pub open spec fn after_messages(b: BankState, messages: Seq<Seq<u8>>) -> BankState
    decreases messages.len(),
{
    if messages.len() == 0 {
        b
    } else {
        after_message(after_messages(b, messages.drop_last()), messages.last())
    }
}

/// How many of the messages have been answered under a dialog identification.
pub open spec fn answers_under(b: BankState, messages: Seq<Seq<u8>>, id: Seq<char>) -> int
    decreases messages.len(),
{
    if messages.len() == 0 {
        0
    } else {
        let before = after_messages(b, messages.drop_last());
        answers_under(b, messages.drop_last(), id) + if has_room(before, messages.last())
            && dialog_for(before, messages.last()) == id {
            1int
        } else {
            0
        }
    }
}

/// How many of the messages have opened a dialog.
pub open spec fn dialogs_opened(b: BankState, messages: Seq<Seq<u8>>) -> int
    decreases messages.len(),
{
    if messages.len() == 0 {
        0
    } else {
        let before = after_messages(b, messages.drop_last());
        dialogs_opened(b, messages.drop_last()) + if has_room(before, messages.last())
            && requested_dialog(messages.last()) == "0"@ {
            1int
        } else {
            0
        }
    }
}

/// Whether a message states an identification that the bank has yet to issue.
pub open spec fn names_future_dialog(b: BankState, message: Seq<u8>) -> bool {
    exists|n: int|
        n > b.dialog_counter && requested_dialog(message) == #[trigger] generated_id(
            b.dialog_prefix,
            n,
        )
}

/// Whether no message that is answered states a dialog identification before the
/// bank issues it.
pub open spec fn names_no_future_dialog(b: BankState, messages: Seq<Seq<u8>>) -> bool
    decreases messages.len(),
{
    if messages.len() == 0 {
        true
    } else {
        let before = after_messages(b, messages.drop_last());
        &&& names_no_future_dialog(b, messages.drop_last())
        &&& has_room(before, messages.last()) ==> !names_future_dialog(before, messages.last())
    }
}

/// How many answers the bank has counted under a dialog identification.
pub open spec fn known_answers(b: BankState, id: Seq<char>) -> int {
    if b.dialogs.contains_key(id) {
        b.dialogs[id] as int
    } else {
        0
    }
}

/// The counts of a bank after messages.
proof fn lemma_counts(b: BankState, messages: Seq<Seq<u8>>)
    requires
        b.dialogs == Map::<Seq<char>, u32>::empty(),
        b.dialog_counter == 0,
        names_no_future_dialog(b, messages),
    ensures
        ({
            let s = after_messages(b, messages);
            &&& s.dialog_prefix == b.dialog_prefix
            &&& s.dialog_counter == dialogs_opened(b, messages)
            &&& s.dialog_counter >= 0
            &&& forall|id: Seq<char>| #[trigger]
                answers_under(b, messages, id) == known_answers(s, id)
            &&& forall|n: int|
                n > s.dialog_counter ==> !s.dialogs.contains_key(
                    #[trigger] generated_id(b.dialog_prefix, n),
                )
        }),
    decreases messages.len(),
{
    if messages.len() > 0 {
        let before = after_messages(b, messages.drop_last());
        let m = messages.last();
        let s = after_messages(b, messages);
        lemma_counts(b, messages.drop_last());
        assert forall|id: Seq<char>| #[trigger] answers_under(b, messages, id) == known_answers(
            s,
            id,
        ) by {
            assert(answers_under(b, messages.drop_last(), id) == known_answers(before, id));
            if requested_dialog(m) == "0"@ {
                assert(!before.dialogs.contains_key(
                    generated_id(b.dialog_prefix, before.dialog_counter + 1),
                ));
            }
        }
        if has_room(before, m) {
            let d = dialog_for(before, m);
            assert forall|n: int| n > s.dialog_counter implies !s.dialogs.contains_key(
                #[trigger] generated_id(b.dialog_prefix, n),
            ) by {
                if generated_id(b.dialog_prefix, n) == d {
                    if requested_dialog(m) == "0"@ {
                        law_ids_distinct(b.dialog_prefix, n, before.dialog_counter + 1);
                    } else {
                        assert(names_future_dialog(before, m));
                    }
                }
            }
        }
    }
}

/// The number of an answer is one more than the number of earlier answers under
/// its dialog identification, as long as no message states an identification
/// before the bank issues it. That identification is the one that the message
/// states; where it states none, it is made from how many dialogs were opened
/// before.
pub proof fn law_answers_numbered(b: BankState, messages: Seq<Seq<u8>>, message: Seq<u8>)
    requires
        b.dialogs == Map::<Seq<char>, u32>::empty(),
        b.dialog_counter == 0,
        names_no_future_dialog(b, messages),
    ensures
        ({
            let s = after_messages(b, messages);
            let id = if requested_dialog(message) == "0"@ {
                generated_id(b.dialog_prefix, dialogs_opened(b, messages) + 1)
            } else {
                requested_dialog(message)
            };
            reply_to(s, message) == envelope(
                id,
                answers_under(b, messages, id) + 1,
                answer_of(counted(s, message), message),
            )
        }),
{
    lemma_counts(b, messages);
    let s = after_messages(b, messages);
    let id = dialog_for(s, message);
    assert(answers_under(b, messages, id) == answered(s, message)) by {
        if requested_dialog(message) == "0"@ {
            assert(!s.dialogs.contains_key(generated_id(b.dialog_prefix, s.dialog_counter + 1)));
        }
    }
}

} // verus!
