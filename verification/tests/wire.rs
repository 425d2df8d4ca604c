//! The syntax of messages.

use fints::element::{DataElement, DEG};
use fints::parser::{parse_inner_segments, parse_message};
use fints::serializer::{serialize_deg, serialize_segment};
use fints::FinTSError;

fn text(s: &str) -> DataElement {
    DataElement::Text(s.to_string())
}

#[test]
fn written_segments_are_read_back() {
    let segments = vec![
        vec![
            DEG(vec![text("HKTST"), text("3"), text("1")]),
            DEG(vec![text("a+b:c'd?e@f"), DataElement::Empty, text("\u{fc}")]),
            DEG(vec![DataElement::Empty]),
            DEG(vec![DataElement::Binary(b"'+:@?".to_vec()), text("z")]),
        ],
        vec![DEG(vec![text("HKEND"), text("4"), text("1")])],
    ];
    let mut bytes: Vec<u8> = Vec::new();
    for s in &segments {
        bytes.extend(serialize_segment(s).unwrap());
    }
    assert_eq!(
        bytes,
        b"HKTST:3:1+a?+b?:c?'d??e?@f::\xfc++@5@'+:@?:z'HKEND:4:1'".to_vec()
    );
    let back = parse_message(&bytes).unwrap();
    assert_eq!(back.len(), 2);
    assert_eq!(back[0].degs, segments[0]);
    assert_eq!(back[1].degs, segments[1]);
    assert_eq!(parse_inner_segments(&bytes).unwrap().len(), 2);
}

#[test]
fn trailing_empties_are_not_written() {
    let d = DEG(vec![text("a"), DataElement::Empty, DataElement::Empty]);
    assert_eq!(serialize_deg(&d).unwrap(), b"a".to_vec());
    let d = DEG(vec![text("a"), text("")]);
    assert_eq!(serialize_deg(&d).unwrap(), b"a:".to_vec());
    let s = vec![DEG(vec![text("HKTST")]), DEG(vec![DataElement::Empty]), DEG(vec![])];
    assert_eq!(serialize_segment(&s).unwrap(), b"HKTST'".to_vec());
}

#[test]
fn messages_are_written_in_latin_one() {
    let d = DEG(vec![text("\u{ff}")]);
    assert_eq!(serialize_deg(&d).unwrap(), vec![0xff]);
    let d = DEG(vec![text("\u{100}")]);
    assert!(matches!(serialize_deg(&d), Err(FinTSError::Encoding(_))));
    assert!(matches!(serialize_segment(&vec![d]), Err(FinTSError::Encoding(_))));
}

#[test]
fn malformed_messages_are_refused() {
    for bytes in [
        &b"HKTST:1:1"[..],
        b"HKTST:1:1?",
        b"HKTST+@5@ab'",
        b"HKTST+@x@ab'",
        b"HKTST+@5",
        b"HKTST+@99999999999999999999999@a'",
    ] {
        assert!(
            matches!(parse_message(bytes), Err(FinTSError::Parse(_))),
            "{:?}",
            String::from_utf8_lossy(bytes)
        );
    }
    assert!(parse_message(b"").unwrap().is_empty());
}

#[test]
fn headers_tell_type_and_version() {
    let seg = parse_message(b"HISALS:10:5:4+1+1'").unwrap().remove(0);
    assert_eq!(seg.segment_type(), "HISALS");
    assert_eq!(seg.segment_version(), 5);
    assert_eq!(seg.deg_count(), 3);
    let seg = parse_message(b"HISALS:10:x'").unwrap().remove(0);
    assert_eq!(seg.segment_version(), 0);
    let seg = parse_message(b"HISALS:10:65536'").unwrap().remove(0);
    assert_eq!(seg.segment_version(), 0);
}
