use fints::dates::{Date, Timestamp};
use fints::element::DataElement;
use fints::segments::builder::{
    hkend, hkidn, hkkaz, hksal, hkspa, hksyn, hktab, hktan_process2, hktan_process4,
    hktan_process_s, hkvvb, hkwpd, hnhbk, hnhbs, hnsha, hnshk, hnshk_at, hnvsd, hnvsk, hnvsk_at,
    seg_header, seg_header_ref, Kti, Kto,
};
use fints::serializer::{serialize_deg, serialize_segment};

fn wire(degs: &Vec<fints::element::DEG>) -> String {
    String::from_utf8(serialize_segment(degs).unwrap()).unwrap()
}

#[test]
fn kti_produces_two_data_elements() {
    let kti = Kti::new("DE04120300001084174299", "BYLADEM1001");
    let deg = kti.to_deg();
    assert_eq!(deg.0.len(), 2, "KTI DEG must have exactly 2 data elements");
    assert_eq!(deg.get_str(0), "DE04120300001084174299");
    assert_eq!(deg.get_str(1), "BYLADEM1001");
}

#[test]
fn kti_serializes_as_iban_colon_bic() {
    let kti = Kti::new("DE04120300001084174299", "BYLADEM1001");
    let bytes = serialize_deg(&kti.to_deg()).unwrap();
    let wire = String::from_utf8(bytes).unwrap();
    assert_eq!(wire, "DE04120300001084174299:BYLADEM1001");
}

#[test]
fn hksal_v7_wire_format() {
    let degs = hksal(3, 7, "DE04120300001084174299", "BYLADEM1001", None);
    let bytes = serialize_segment(&degs).unwrap();
    let wire = String::from_utf8(bytes).unwrap();
    assert_eq!(wire, "HKSAL:3:7+DE04120300001084174299:BYLADEM1001+N'");
}

#[test]
fn kto_recovers_account_number_and_blz_from_german_iban() {
    let kto = Kto::from_german_iban("DE45500105175435780833");
    assert_eq!(kto.account_number, "5435780833");
    assert_eq!(kto.blz, "50010517");
}

#[test]
fn kto_serializes_as_account_colon_colon_280_colon_blz() {
    let kto = Kto::from_german_iban("DE45500105175435780833");
    let bytes = serialize_deg(&kto.to_deg()).unwrap();
    let wire = String::from_utf8(bytes).unwrap();
    assert_eq!(wire, "5435780833::280:50010517");
}

#[test]
fn hksal_v5_wire_format_uses_national_account_form() {
    let degs = hksal(3, 5, "DE45500105175435780833", "INGDDEFFXXX", None);
    let bytes = serialize_segment(&degs).unwrap();
    let wire = String::from_utf8(bytes).unwrap();
    assert_eq!(wire, "HKSAL:3:5+5435780833::280:50010517+N'");
}

#[test]
fn hkkaz_v7_wire_format() {
    let start = Date::from_ymd_opt(2025, 3, 29).unwrap();
    let end = Date::from_ymd_opt(2026, 3, 29).unwrap();
    let degs = hkkaz(3, 7, "DE04120300001084174299", "BYLADEM1001", start, end, None);
    let bytes = serialize_segment(&degs).unwrap();
    let wire = String::from_utf8(bytes).unwrap();
    assert_eq!(
        wire,
        "HKKAZ:3:7+DE04120300001084174299:BYLADEM1001+N+20250329+20260329'"
    );
}

#[test]
fn hkkaz_v5_wire_format_uses_national_account_form() {
    let start = Date::from_ymd_opt(2026, 9, 4).unwrap();
    let end = Date::from_ymd_opt(2026, 9, 9).unwrap();
    let degs = hkkaz(3, 5, "DE45500105175435780833", "INGDDEFFXXX", start, end, None);
    let bytes = serialize_segment(&degs).unwrap();
    let wire = String::from_utf8(bytes).unwrap();
    assert_eq!(
        wire,
        "HKKAZ:3:5+5435780833::280:50010517+N+20260904+20260909'"
    );
}

#[test]
fn hkwpd_v6_wire_format_uses_national_account_form() {
    let degs = hkwpd(3, 6, "DE45500105175435780833", "INGDDEFFXXX", None, None);
    let bytes = serialize_segment(&degs).unwrap();
    let wire = String::from_utf8(bytes).unwrap();
    assert_eq!(wire, "HKWPD:3:6+5435780833::280:50010517'");
}

#[test]
fn hkwpd_v7_wire_format() {
    let degs = hkwpd(3, 7, "DE04120300001084174299", "BYLADEM1001", None, None);
    let bytes = serialize_segment(&degs).unwrap();
    let wire = String::from_utf8(bytes).unwrap();
    assert_eq!(wire, "HKWPD:3:7+DE04120300001084174299:BYLADEM1001'");
}

#[test]
fn hkwpd_v7_with_currency() {
    let degs = hkwpd(3, 7, "DE04120300001084174299", "BYLADEM1001", Some("EUR"), None);
    let bytes = serialize_segment(&degs).unwrap();
    let wire = String::from_utf8(bytes).unwrap();
    assert_eq!(wire, "HKWPD:3:7+DE04120300001084174299:BYLADEM1001+EUR'");
}

#[test]
fn hkwpd_v7_with_touchdown() {
    let degs = hkwpd(3, 7, "DE04120300001084174299", "BYLADEM1001", None, Some("TOUCH123"));
    let bytes = serialize_segment(&degs).unwrap();
    let wire = String::from_utf8(bytes).unwrap();
    assert_eq!(
        wire,
        "HKWPD:3:7+DE04120300001084174299:BYLADEM1001++++TOUCH123'"
    );
}

// ---- Further segments ----

#[test]
fn headers_count_number_version_and_reference() {
    assert_eq!(
        String::from_utf8(serialize_deg(&seg_header("HKSAL", 3, 7)).unwrap()).unwrap(),
        "HKSAL:3:7"
    );
    assert_eq!(
        String::from_utf8(serialize_deg(&seg_header_ref("HISAL", 5, 7, 3)).unwrap()).unwrap(),
        "HISAL:5:7:3"
    );
}

#[test]
fn frame_segments() {
    assert_eq!(wire(&hnhbk(123, "0", 1)), "HNHBK:1:3+000000000123+300+0+1'");
    assert_eq!(wire(&hnhbs(6, 2)), "HNHBS:6:1+2'");
    assert_eq!(wire(&hnvsd(b"abc")), "HNVSD:999:1+@3@abc'");
}

#[test]
fn security_headers_at_a_given_time() {
    let now = Timestamp { date: "20260315".to_string(), time: "081500".to_string() };
    assert_eq!(
        wire(&hnvsk_at("12345678", "test1", "0", &now)),
        "HNVSK:998:3+PIN:1+998+1+2::0+1:20260315:081500+2:2:13:@8@\u{0}\u{0}\u{0}\u{0}\u{0}\u{0}\u{0}\u{0}:5:1+280:12345678:test1:V:0:0+0'"
    );
    assert_eq!(
        wire(&hnshk_at(2, "999", 4711, "12345678", "test1", "0", &now)),
        "HNSHK:2:4+PIN:1+999+4711+1+1+2::0+1+1:20260315:081500+1:999:1+6:10:16+280:12345678:test1:S:0:0'"
    );
}

#[test]
fn security_headers_state_the_present() {
    for degs in [hnvsk("12345678", "u", "0"), hnshk(2, "999", 7, "12345678", "u", "0")] {
        let stamp = degs.iter().find(|d| {
            d.0.len() == 3 && d.get_str(0) == "1" && d.get_str(1).len() == 8
        });
        let stamp = stamp.expect("a time stamp");
        assert!(stamp.get_str(1).as_str() >= "20200101");
        assert_eq!(stamp.get_str(2).len(), 6);
        assert!(stamp.get_str(2).chars().all(|c| c.is_ascii_digit()));
    }
}

#[test]
fn signature_trailer_states_an_empty_tan() {
    assert_eq!(wire(&hnsha(5, 4711, "1234", None)), "HNSHA:5:2+4711++1234'");
    assert_eq!(wire(&hnsha(5, 4711, "1234", Some("99"))), "HNSHA:5:2+4711++1234:99'");
    assert_eq!(wire(&hnsha(5, 4711, "1234", Some(""))), "HNSHA:5:2+4711++1234:'");
}

#[test]
fn dialog_segments() {
    assert_eq!(wire(&hkidn(3, "12345678", "test1", "0")), "HKIDN:3:2+280:12345678+test1+0+1'");
    assert_eq!(wire(&hkvvb(4, 0, 0, "TEST-123")), "HKVVB:4:3+0+0+1+TEST-123+1.0'");
    assert_eq!(wire(&hksyn(5)), "HKSYN:5:3+0'");
    assert_eq!(wire(&hkend(3, "d;1")), "HKEND:3:1+d;1'");
    assert_eq!(wire(&hktab(3, 4)), "HKTAB:3:4+A'");
    assert_eq!(wire(&hkspa(3, 1)), "HKSPA:3:1'");
}

#[test]
fn tan_segments_by_version_and_medium() {
    assert_eq!(wire(&hktan_process4(5, 7, "HKIDN", None)), "HKTAN:5:7+4+HKIDN'");
    assert_eq!(
        wire(&hktan_process4(5, 7, "HKIDN", Some("Phone"))),
        "HKTAN:5:7+4+HKIDN+++++++++Phone'"
    );
    assert_eq!(
        wire(&hktan_process4(5, 5, "HKIDN", Some("Phone"))),
        "HKTAN:5:5+4+HKIDN+Phone'"
    );
    assert_eq!(wire(&hktan_process2(3, 6, "ref", None)), "HKTAN:3:6+2++++ref+N'");
    assert_eq!(wire(&hktan_process2(3, 5, "ref", None)), "HKTAN:3:5+2+++ref+N'");
    assert_eq!(
        wire(&hktan_process_s(3, 7, "ref", Some("Phone"))),
        "HKTAN:3:7+S++++ref+N+++++Phone'"
    );
    assert_eq!(
        wire(&hktan_process_s(3, 5, "ref", Some("Phone"))),
        "HKTAN:3:5+S+++ref+N+Phone'"
    );
}

#[test]
fn touchdown_stands_behind_the_number_of_entries() {
    assert_eq!(
        wire(&hksal(3, 7, "DE04120300001084174299", "BYLADEM1001", Some("TD"))),
        "HKSAL:3:7+DE04120300001084174299:BYLADEM1001+N++TD'"
    );
    let day = Date::from_ymd_opt(2026, 9, 4).unwrap();
    assert_eq!(
        wire(&hkkaz(3, 7, "DE04120300001084174299", "BYLADEM1001", day, day, Some("TD"))),
        "HKKAZ:3:7+DE04120300001084174299:BYLADEM1001+N+20260904+20260904++TD'"
    );
}

#[test]
fn the_key_of_the_encryption_header_is_eight_zero_bytes() {
    let degs = hnvsk("1", "u", "0");
    match degs[6].get(3) {
        DataElement::Binary(b) => assert_eq!(b, &vec![0u8; 8]),
        other => panic!("no binary element: {:?}", other),
    }
}
