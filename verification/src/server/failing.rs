//! What a client learns of errors that the mock bank answers with on demand.

use vstd::prelude::*;
use vstd::utf8::*;

use crate::codes::{codes_in, group_code, kind_is_error, segment_codes, Code, Kind};
use crate::element::{type_of, Element, Group};
use crate::error::Failure;
use crate::message::lemma_type_read_back;
use crate::parser::parsed_message;
use crate::reply::{
    code_failure, codes_of, flattened, law_failure, reply_codes, reply_failure, reply_of,
};
use crate::roundtrip::{law_read_back, read_back, read_back_group, read_back_segment};
use crate::segments::builder::{hnhbk_model, hnhbs_model};
use crate::serializer::{
    group_encodable, group_parts, group_wire, lemma_joined_push, segment_encodable, segment_parts,
    segment_wire, segments_wire, trimmed_group, trimmed_segment,
};
use crate::server::answer::{greeting, preparation_number};
use crate::server::faults::{error_code, error_reply, error_text, ErrorOn, ErrorType};
use crate::server::laws::lemma_ascii;
use crate::server::reading::{
    encryption_segment, law_answer_read, lemma_full_group, lemma_joined_three, lemma_joined_two,
    lemma_plain_wire, plain, read_as_latin1, without_separators,
};
use crate::server::scan::{known_versions_in, mentions, number_version_in};
use crate::server::state::{answer_of, envelope, envelope_size, refused, BankState};

verus! {

// ---- Answers with an error ----

/// The number of the segment that asks for an operation, where a message does.
pub open spec fn asked(message: Seq<u8>, operation: ErrorOn) -> Option<Seq<char>> {
    let number = |seg_type: Seq<char>|
        match number_version_in(message, seg_type) {
            Some((n, _)) => Some(n),
            None => None,
        };
    match operation {
        ErrorOn::Balance => number("HKSAL"@),
        ErrorOn::Transactions => number("HKKAZ"@),
        ErrorOn::Holdings => number("HKWPD"@),
        ErrorOn::Init => match known_versions_in(message) {
            Some(_) => Some(preparation_number(message)),
            None => None,
        },
    }
}

/// Whether a message asks for one operation and nothing else. An initialization
/// may synchronize.
pub open spec fn asks_only(message: Seq<u8>, operation: ErrorOn) -> bool {
    &&& asked(message, ErrorOn::Balance) is None || operation == ErrorOn::Balance
    &&& asked(message, ErrorOn::Transactions) is None || operation == ErrorOn::Transactions
    &&& asked(message, ErrorOn::Holdings) is None || operation == ErrorOn::Holdings
    &&& asked(message, ErrorOn::Init) is None || operation == ErrorOn::Init
    &&& !mentions(message, "HKSYN"@) || operation == ErrorOn::Init
    &&& !mentions(message, "HKSPA"@)
    &&& !mentions(message, "HKEND"@)
}

/// A message that asks for the operation that is set to fail, and for nothing
/// else, is answered with the error alone. Messages that do not ask for it are
/// answered as if nothing were set.
pub proof fn law_error_injected(b: BankState, message: Seq<u8>, operation: ErrorOn)
    requires
        !refused(b, message),
        b.error_on == Some(operation),
    ensures
        asked(message, operation) is None ==> answer_of(b, message) == answer_of(
            BankState { error_on: None, ..b },
            message,
        ),
        asked(message, operation) matches Some(number) ==> (asks_only(message, operation)
            ==> answer_of(b, message) == greeting() + error_reply(number, b.error_type)),
{
    if let Some(number) = asked(message, operation) {
        if asks_only(message, operation) {
            assert(answer_of(b, message) =~= greeting() + error_reply(number, b.error_type));
        }
    }
}

// ---- How they are read ----

/// The failure that an error stands for.
pub open spec fn error_failure(t: ErrorType) -> Failure {
    match t {
        ErrorType::WrongPin => Failure::PinWrong,
        ErrorType::Locked => Failure::AccountLocked,
        _ => Failure::BankError { kind: Kind::Error(error_code(t)), message: error_text(t) },
    }
}

/// An answer with an error as a segment.
pub open spec fn error_segment(number: Seq<char>, t: ErrorType) -> Seq<Group> {
    seq![
        seq![Element::Text("HIRMS"@), Element::Empty, Element::Text("2"@), Element::Text(number)],
        seq![Element::Text(error_code(t)), Element::Empty, Element::Text(error_text(t))],
    ]
}

/// The start of every accepted answer as a segment.
pub open spec fn greeting_segment() -> Seq<Group> {
    seq![
        seq![Element::Text("HIRMG"@), Element::Empty, Element::Text("2"@)],
        seq![Element::Text("0010"@), Element::Empty, Element::Text("Nachricht entgegengenommen"@)],
    ]
}

proof fn lemma_error_texts(t: ErrorType)
    ensures
        plain(error_code(t)),
        plain(error_text(t)),
        error_code(t).len() == 4,
        error_text(t).len() > 0,
{
    reveal_strlit("9910");
    reveal_strlit("3938");
    reveal_strlit("9010");
    reveal_strlit("9800");
    reveal_strlit("Pin ungueltig");
    reveal_strlit("Zugang gesperrt");
    reveal_strlit("Auftrag abgelehnt");
    reveal_strlit("Zeitueberschreitung");
}

/// A DEG `code::text` as it is written.
proof fn lemma_code_group(code: Seq<char>, text: Seq<char>)
    requires
        plain(code),
        plain(text),
        code.len() > 0,
        text.len() > 0,
    ensures
        ({
            let g = seq![Element::Text(code), Element::Empty, Element::Text(text)];
            &&& group_wire(g) == encode_utf8(code) + seq![0x3au8, 0x3au8] + encode_utf8(text)
            &&& trimmed_group(g) == g
            &&& group_encodable(g)
            &&& read_back_group(g) == g
        }),
{
    let g = seq![Element::Text(code), Element::Empty, Element::Text(text)];
    let none = Seq::<u8>::empty();
    lemma_plain_wire(code);
    lemma_plain_wire(text);
    lemma_full_group(g);
    assert(group_parts(g) =~= seq![encode_utf8(code), none, encode_utf8(text)]);
    lemma_joined_three(encode_utf8(code), none, encode_utf8(text), 0x3a);
    assert(group_wire(g) =~= encode_utf8(code) + seq![0x3au8, 0x3au8] + encode_utf8(text));
    assert(read_back_group(g) =~= g);
}

/// A segment of two DEGs as it is written and read back.
proof fn lemma_two_groups(a: Group, b: Group)
    requires
        trimmed_group(b).len() > 0,
        group_encodable(a),
        group_encodable(b),
        read_back_group(a) == a,
        read_back_group(b) == b,
    ensures
        segment_wire(seq![a, b]) == (group_wire(a) + seq![0x2bu8] + group_wire(b)).push(0x27),
        segment_encodable(seq![a, b]),
        read_back_segment(seq![a, b]) == seq![a, b],
{
    let seg = seq![a, b];
    assert(seg.last() == b);
    assert(trimmed_segment(seg) == seg);
    assert(segment_parts(seg) =~= seq![group_wire(a), group_wire(b)]);
    lemma_joined_two(group_wire(a), group_wire(b), 0x2b);
    assert(read_back_segment(seg) =~= seg);
}

proof fn lemma_greeting_wire()
    ensures
        segment_wire(greeting_segment()) == greeting(),
        segment_encodable(greeting_segment()),
        read_back_segment(greeting_segment()) == greeting_segment(),
{
    reveal_strlit("HIRMG");
    reveal_strlit("2");
    reveal_strlit("0010");
    reveal_strlit("Nachricht entgegengenommen");
    reveal_strlit("HIRMG::2+0010::Nachricht entgegengenommen'");
    assert(plain("HIRMG"@));
    assert(plain("2"@));
    assert(plain("0010"@));
    assert(plain("Nachricht entgegengenommen"@));
    lemma_code_group("HIRMG"@, "2"@);
    lemma_code_group("0010"@, "Nachricht entgegengenommen"@);
    let seg = greeting_segment();
    lemma_two_groups(seg[0], seg[1]);
    assert(seg =~= seq![seg[0], seg[1]]);
    lemma_ascii("HIRMG"@);
    lemma_ascii("2"@);
    lemma_ascii("0010"@);
    lemma_ascii("Nachricht entgegengenommen"@);
    lemma_ascii("HIRMG::2+0010::Nachricht entgegengenommen'"@);
    assert(segment_wire(seg) =~= greeting());
}

/// The header of an answer with an error as it is written.
proof fn lemma_error_header(number: Seq<char>)
    requires
        plain(number),
        number.len() > 0,
    ensures
        ({
            let g = seq![
                Element::Text("HIRMS"@),
                Element::Empty,
                Element::Text("2"@),
                Element::Text(number),
            ];
            &&& group_wire(g) == encode_utf8("HIRMS::2:"@) + encode_utf8(number)
            &&& group_encodable(g)
            &&& read_back_group(g) == g
        }),
{
    let none = Seq::<u8>::empty();
    let a = encode_utf8("HIRMS"@);
    let b = encode_utf8("2"@);
    let c = encode_utf8(number);
    let g = seq![
        Element::Text("HIRMS"@),
        Element::Empty,
        Element::Text("2"@),
        Element::Text(number),
    ];
    reveal_strlit("HIRMS");
    reveal_strlit("2");
    reveal_strlit("HIRMS::2:");
    assert(plain("HIRMS"@));
    assert(plain("2"@));
    lemma_plain_wire("HIRMS"@);
    lemma_plain_wire("2"@);
    lemma_plain_wire(number);
    lemma_full_group(g);
    assert(group_parts(g) =~= seq![a, none, b].push(c));
    lemma_joined_three(a, none, b, 0x3a);
    lemma_joined_push(seq![a, none, b], c, 0x3a);
    lemma_ascii("HIRMS"@);
    lemma_ascii("2"@);
    lemma_ascii("HIRMS::2:"@);
    assert(encode_utf8("HIRMS::2:"@) =~= a + seq![0x3au8] + none + seq![0x3au8] + b + seq![0x3au8]);
    assert(group_wire(g) =~= encode_utf8("HIRMS::2:"@) + c);
    assert(read_back_group(g) =~= g);
}

proof fn lemma_error_wire(number: Seq<char>, t: ErrorType)
    requires
        plain(number),
        number.len() > 0,
    ensures
        segment_wire(error_segment(number, t)) == error_reply(number, t),
        segment_encodable(error_segment(number, t)),
        read_back_segment(error_segment(number, t)) == error_segment(number, t),
{
    let seg = error_segment(number, t);
    lemma_error_texts(t);
    lemma_error_header(number);
    lemma_code_group(error_code(t), error_text(t));
    lemma_two_groups(seg[0], seg[1]);
    assert(seg =~= seq![seg[0], seg[1]]);
    reveal_strlit("+");
    reveal_strlit("::");
    reveal_strlit("'");
    lemma_ascii("+"@);
    lemma_ascii("::"@);
    lemma_ascii("'"@);
    assert(encode_utf8("+"@) =~= seq![0x2bu8]);
    assert(encode_utf8("::"@) =~= seq![0x3au8, 0x3au8]);
    assert(encode_utf8("'"@) =~= seq![0x27u8]);
    assert(segment_wire(seg) =~= error_reply(number, t));
}

/// A greeting and an error are read as two segments.
proof fn lemma_error_read(number: Seq<char>, t: ErrorType)
    requires
        plain(number),
        number.len() > 0,
    ensures
        parsed_message(greeting() + error_reply(number, t)) == Some(
            seq![greeting_segment(), error_segment(number, t)],
        ),
{
    let a = greeting_segment();
    let b = error_segment(number, t);
    let segs = seq![a, b];
    lemma_greeting_wire();
    lemma_error_wire(number, t);
    assert(segs.drop_last() =~= seq![a]);
    assert(seq![a].drop_last() =~= Seq::<Seq<Group>>::empty());
    assert(segments_wire(Seq::<Seq<Group>>::empty()) =~= Seq::<u8>::empty());
    assert(segments_wire(seq![a]) =~= greeting());
    assert(segments_wire(segs) =~= greeting() + error_reply(number, t));
    law_read_back(segs);
    assert(read_back(segs) =~= segs);
}

/// The code of a segment with one code.
proof fn lemma_one_code(seg: Seq<Group>)
    requires
        seg.len() == 2,
        seg[1].len() == 3,
        seg[1][0] matches Element::Text(s) && s.len() > 0,
    ensures
        segment_codes(seg) == seq![group_code(seg[1])],
{
    let rest = seg.skip(1);
    assert(rest =~= seq![seg[1]]);
    assert(rest.drop_last() =~= Seq::<Group>::empty());
    assert(codes_in(rest.drop_last()) =~= Seq::<Code>::empty());
    assert(codes_in(rest) =~= seq![group_code(seg[1])]);
}

proof fn lemma_greeting_code()
    ensures
        segment_codes(greeting_segment()).len() == 1,
        !kind_is_error(segment_codes(greeting_segment())[0].kind),
{
    let seg = greeting_segment();
    reveal_strlit("0010");
    reveal_strlit("0030");
    reveal_strlit("3955");
    reveal_strlit("3956");
    reveal_strlit("3076");
    reveal_strlit("3040");
    reveal_strlit("3920");
    reveal_strlit("3938");
    reveal_strlit("9340");
    reveal_strlit("9910");
    lemma_one_code(seg);
    assert("0010"@[2] != "0030"@[2]);
    assert("0010"@[0] != "3938"@[0]);
    assert("0010"@[0] != "9340"@[0]);
    assert("0010"@[0] != "9910"@[0]);
}

proof fn lemma_error_code(number: Seq<char>, t: ErrorType)
    ensures
        segment_codes(error_segment(number, t)).len() == 1,
        ({
            let c = segment_codes(error_segment(number, t))[0];
            kind_is_error(c.kind) && code_failure(c) == error_failure(t)
        }),
{
    let seg = error_segment(number, t);
    lemma_error_texts(t);
    lemma_one_code(seg);
    reveal_strlit("9910");
    reveal_strlit("3938");
    reveal_strlit("9010");
    reveal_strlit("9800");
    reveal_strlit("0030");
    reveal_strlit("3955");
    reveal_strlit("3956");
    reveal_strlit("3076");
    reveal_strlit("3040");
    reveal_strlit("3920");
    reveal_strlit("9340");
    let code = error_code(t);
    assert(code[0] != '0');
    assert("3938"@[2] != "3955"@[2] && "3938"@[2] != "3956"@[2] && "3938"@[2] != "3076"@[2]);
    assert("3938"@[2] != "3040"@[2] && "3938"@[2] != "3920"@[2]);
    assert("9010"@[1] != "9340"@[1] && "9010"@[1] != "9910"@[1]);
    assert("9800"@[1] != "9340"@[1] && "9800"@[1] != "9910"@[1]);
    assert(code != "0030"@ && code != "3955"@ && code != "3956"@ && code != "3076"@ && code
        != "3040"@ && code != "3920"@) by {
        assert(code[0] == '9' || code == "3938"@);
        assert("0030"@[0] == '0');
    }
}

/// The codes of one type of segment in five of which two state codes.
proof fn lemma_two_code_segments(
    a: Seq<Group>,
    b: Seq<Group>,
    c: Seq<Group>,
    d: Seq<Group>,
    e: Seq<Group>,
    seg_type: Seq<char>,
)
    requires
        type_of(a) != seg_type,
        type_of(b) != seg_type,
        type_of(e) != seg_type,
        type_of(c) != type_of(d),
    ensures
        type_of(c) == seg_type ==> codes_of(seq![a, b] + seq![c, d] + seq![e], seg_type)
            == segment_codes(c),
        type_of(d) == seg_type ==> codes_of(seq![a, b] + seq![c, d] + seq![e], seg_type)
            == segment_codes(d),
{
    let o = Seq::<Seq<Group>>::empty();
    let o1 = o.push(a);
    let o2 = o1.push(b);
    let o3 = o2.push(c);
    let o4 = o3.push(d);
    let o5 = o4.push(e);
    assert(seq![a, b] + seq![c, d] + seq![e] =~= o5);
    assert(o1.drop_last() =~= o);
    assert(o2.drop_last() =~= o1);
    assert(o3.drop_last() =~= o2);
    assert(o4.drop_last() =~= o3);
    assert(o5.drop_last() =~= o4);
    let none = Seq::<Code>::empty();
    assert(codes_of(o, seg_type) =~= none);
    assert(codes_of(o1, seg_type) =~= none);
    assert(codes_of(o2, seg_type) =~= none);
    assert(none + segment_codes(c) =~= segment_codes(c));
    assert(none + segment_codes(d) =~= segment_codes(d));
    assert(o3.last() == c && o4.last() == d && o5.last() == e);
    assert(codes_of(o3, seg_type) == if type_of(c) == seg_type {
        segment_codes(c)
    } else {
        none
    });
    assert(codes_of(o5, seg_type) == codes_of(o4, seg_type));
}

/// A client that is answered with an error alone learns which error it is.
pub proof fn law_error_told(
    dialog_id: Seq<char>,
    message_number: int,
    number: Seq<char>,
    t: ErrorType,
)
    requires
        without_separators(dialog_id),
        0 <= message_number,
        plain(number),
        number.len() > 0,
    ensures
        ({
            let answer = envelope(dialog_id, message_number, greeting() + error_reply(number, t));
            &&& parsed_message(answer) matches Some(outer)
            &&& reply_failure(reply_of(outer)) == Some(error_failure(t))
        }),
{
    let inner = greeting() + error_reply(number, t);
    let size = envelope_size(dialog_id, message_number, inner);
    let model = hnhbk_model(size, read_as_latin1(dialog_id), message_number);
    let head = read_back_segment(model);
    let enc = read_back_segment(encryption_segment());
    let tail = read_back_segment(hnhbs_model(5, message_number));
    let a = greeting_segment();
    let b = error_segment(number, t);
    lemma_error_read(number, t);
    law_answer_read(dialog_id, message_number, inner);
    reveal_strlit("HNHBK");
    reveal_strlit("HNVSK");
    reveal_strlit("HNHBS");
    reveal_strlit("HIRMG");
    reveal_strlit("HIRMS");
    lemma_type_read_back(model, "HNHBK"@, 1, 3);
    lemma_type_read_back(encryption_segment(), "HNVSK"@, 998, 3);
    lemma_type_read_back(hnhbs_model(5, message_number), "HNHBS"@, 5, 1);
    assert("HNHBK"@[1] != "HIRMG"@[1] && "HNHBK"@[1] != "HIRMS"@[1]);
    assert("HNVSK"@[1] != "HIRMG"@[1] && "HNVSK"@[1] != "HIRMS"@[1]);
    assert("HNHBS"@[1] != "HIRMG"@[1] && "HNHBS"@[1] != "HIRMS"@[1]);
    assert("HIRMG"@[4] != "HIRMS"@[4]);
    assert(type_of(a) == "HIRMG"@);
    assert(type_of(b) == "HIRMS"@);
    lemma_two_code_segments(head, enc, a, b, tail, "HIRMG"@);
    lemma_two_code_segments(head, enc, a, b, tail, "HIRMS"@);
    lemma_greeting_code();
    lemma_error_code(number, t);
    let outer = parsed_message(envelope(dialog_id, message_number, inner))->0;
    let r = reply_of(outer);
    assert(flattened(outer) == seq![head, enc] + seq![a, b] + seq![tail]);
    assert(r.global_codes == segment_codes(a));
    assert(r.segment_codes == segment_codes(b));
    assert(reply_codes(r) =~= seq![segment_codes(a)[0], segment_codes(b)[0]]);
    law_failure(r);
    assert(reply_codes(r)[1] == segment_codes(b)[0]);
    assert(!kind_is_error(reply_codes(r)[0].kind));
}

} // verus!
