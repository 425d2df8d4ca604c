//! Request segments: functions that give the DEGs of each segment type.

use vstd::prelude::*;

use crate::dates::{
    compact_text, local_timestamp, well_formed_moment, Date, Moment, Timestamp, Ymd,
};
use crate::element::{
    bool_element, de_binary, de_bool, de_date, de_empty, de_num, de_text, deg, deg1, group_views,
    num_element, text_element, views, DataElement, Element, Group, DEG,
};
use crate::numbers::{padded, padded_string};
use crate::text::{byte_len, chars_of, copy_bytes, has_prefix, opt_str_view, push_char};

verus! {

// ---- Model ----

/// A DEG of one text.
pub open spec fn text_group(s: Seq<char>) -> Group {
    seq![text_element(s)]
}

/// A DEG of one number.
pub open spec fn num_group(n: int) -> Group {
    seq![num_element(n)]
}

/// A DEG that states nothing.
pub open spec fn blank_group() -> Group {
    seq![Element::Empty]
}

/// `TYPE:NUMBER:VERSION`.
pub open spec fn header_group(seg_type: Seq<char>, number: int, version: int) -> Group {
    seq![text_element(seg_type), num_element(number), num_element(version)]
}

/// `TYPE:NUMBER:VERSION:REFERENCE`.
pub open spec fn header_ref_group(
    seg_type: Seq<char>,
    number: int,
    version: int,
    reference: int,
) -> Group {
    seq![
        text_element(seg_type),
        num_element(number),
        num_element(version),
        num_element(reference),
    ]
}

/// `IBAN:BIC`.
pub open spec fn kti_group(iban: Seq<char>, bic: Seq<char>) -> Group {
    seq![Element::Text(iban), Element::Text(bic)]
}

/// `account number::280:BLZ`.
pub open spec fn kto_group(account_number: Seq<char>, blz: Seq<char>) -> Group {
    seq![
        Element::Text(account_number),
        Element::Empty,
        Element::Text("280"@),
        Element::Text(blz),
    ]
}

/// The layout of a German IBAN: 22 ASCII characters that start with `DE`.
pub open spec fn german_iban(iban: Seq<char>) -> bool {
    iban.len() == 22 && byte_len(iban) == 22 && has_prefix(iban, "DE"@)
}

/// The account number that a German IBAN ends with.
pub open spec fn iban_account(iban: Seq<char>) -> Seq<char> {
    iban.subrange(12, 22)
}

/// The Bankleitzahl behind the check digits of a German IBAN.
pub open spec fn iban_blz(iban: Seq<char>) -> Seq<char> {
    iban.subrange(4, 12)
}

/// What a segment version needs to address an account.
pub open spec fn addressable(
    version: int,
    kti_min_version: int,
    iban: Seq<char>,
    bic: Seq<char>,
) -> bool {
    if version >= kti_min_version {
        iban.len() > 0 && bic.len() > 0
    } else {
        german_iban(iban)
    }
}

/// The account connection: international from `kti_min_version` on, national below.
pub open spec fn account_group(
    version: int,
    kti_min_version: int,
    iban: Seq<char>,
    bic: Seq<char>,
) -> Group {
    if version >= kti_min_version {
        kti_group(iban, bic)
    } else {
        kto_group(iban_account(iban), iban_blz(iban))
    }
}

// ---- KTI ----

/// The international account connection (Kontoverbindung International).
///
/// Its elements are IBAN, BIC, account number, sub-account feature and bank
/// identifier. For SEPA accounts only the first two are stated.
pub struct Kti {
    pub iban: String,
    pub bic: String,
}

impl Kti {
    /// The connection with that IBAN and BIC; neither may be empty.
    pub fn new(iban: &str, bic: &str) -> (k: Kti)
        requires
            iban@.len() > 0,
            bic@.len() > 0,
        ensures
            k.iban@ == iban@,
            k.bic@ == bic@,
    {
        Kti { iban: iban.to_string(), bic: bic.to_string() }
    }

    /// `IBAN:BIC`.
    pub fn to_deg(&self) -> (d: DEG)
        ensures
            d@ == kti_group(self.iban@, self.bic@),
    {
        let d = deg(
            vec![DataElement::Text(self.iban.clone()), DataElement::Text(self.bic.clone())],
        );
        assert(d@ =~= kti_group(self.iban@, self.bic@));
        d
    }
}

// ---- KTO ----

/// The national account connection (Kontoverbindung): account number,
/// sub-account feature (left empty), country code 280 and Bankleitzahl. Segment
/// versions older than the international form address the account this way.
pub struct Kto {
    pub account_number: String,
    pub blz: String,
}

fn char_range(cs: &Vec<char>, from: usize, to: usize) -> (s: String)
    requires
        from <= to <= cs@.len(),
    ensures
        s@ == cs@.subrange(from as int, to as int),
{
    let mut s = String::new();
    let mut i: usize = from;
    while i < to
        invariant
            from <= i <= to <= cs@.len(),
            s@ =~= cs@.subrange(from as int, i as int),
        decreases to - i,
    {
        push_char(&mut s, cs[i]);
        i += 1;
    }
    s
}

impl Kto {
    /// Recovers account number and Bankleitzahl from the layout of a German
    /// IBAN: country code, 2 check digits, 8 digits of Bankleitzahl, 10 digits
    /// of account number.
    pub fn from_german_iban(iban: &str) -> (k: Kto)
        requires
            german_iban(iban@),
        ensures
            k.account_number@ == iban_account(iban@),
            k.blz@ == iban_blz(iban@),
    {
        let cs: Vec<char> = chars_of(iban);
        Kto { account_number: char_range(&cs, 12, 22), blz: char_range(&cs, 4, 12) }
    }

    /// `account number::280:BLZ`.
    pub fn to_deg(&self) -> (d: DEG)
        ensures
            d@ == kto_group(self.account_number@, self.blz@),
    {
        let d = deg(
            vec![
                DataElement::Text(self.account_number.clone()),
                DataElement::Empty,
                DataElement::Text("280".to_string()),
                DataElement::Text(self.blz.clone()),
            ],
        );
        assert(d@ =~= kto_group(self.account_number@, self.blz@));
        d
    }
}

// ---- Account connection ----

/// The HKSAL version that starts to address accounts internationally.
pub const KTI_MIN_VERSION_HKSAL: u16 = 6;

/// The same for HKKAZ.
pub const KTI_MIN_VERSION_HKKAZ: u16 = 6;

/// The same for HKWPD, where banks expect the national form one version longer.
pub const KTI_MIN_VERSION_HKWPD: u16 = 7;

/// The account connection for a segment version.
pub fn account_deg(version: u16, kti_min_version: u16, iban: &str, bic: &str) -> (d: DEG)
    requires
        addressable(version as int, kti_min_version as int, iban@, bic@),
    ensures
        d@ == account_group(version as int, kti_min_version as int, iban@, bic@),
{
    if version >= kti_min_version {
        Kti::new(iban, bic).to_deg()
    } else {
        Kto::from_german_iban(iban).to_deg()
    }
}

// ---- Segment header ----

/// `TYPE:NUMBER:VERSION`.
pub fn seg_header(seg_type: &str, number: u16, version: u16) -> (d: DEG)
    ensures
        d@ == header_group(seg_type@, number as int, version as int),
{
    let d = deg(vec![de_text(seg_type), de_num(number as u32), de_num(version as u32)]);
    assert(d@ =~= header_group(seg_type@, number as int, version as int));
    d
}

/// `TYPE:NUMBER:VERSION:REFERENCE`.
pub fn seg_header_ref(seg_type: &str, number: u16, version: u16, reference: u16) -> (d: DEG)
    ensures
        d@ == header_ref_group(seg_type@, number as int, version as int, reference as int),
{
    let d = deg(
        vec![
            de_text(seg_type),
            de_num(number as u32),
            de_num(version as u32),
            de_num(reference as u32),
        ],
    );
    assert(d@ =~= header_ref_group(seg_type@, number as int, version as int, reference as int));
    d
}

fn two(a: DataElement, b: DataElement) -> (d: DEG)
    ensures
        d@ == seq![a@, b@],
{
    let d = deg(vec![a, b]);
    assert(d@ =~= seq![a@, b@]);
    d
}

fn three(a: DataElement, b: DataElement, c: DataElement) -> (d: DEG)
    ensures
        d@ == seq![a@, b@, c@],
{
    let d = deg(vec![a, b, c]);
    assert(d@ =~= seq![a@, b@, c@]);
    d
}

fn six(
    a: DataElement,
    b: DataElement,
    c: DataElement,
    d: DataElement,
    e: DataElement,
    f: DataElement,
) -> (r: DEG)
    ensures
        r@ == seq![a@, b@, c@, d@, e@, f@],
{
    let r = deg(vec![a, b, c, d, e, f]);
    assert(r@ =~= seq![a@, b@, c@, d@, e@, f@]);
    r
}

// ---- HNHBK, the message header ----

pub open spec fn hnhbk_model(size: int, dialog_id: Seq<char>, message_number: int) -> Seq<Group> {
    seq![
        header_group("HNHBK"@, 1, 3),
        text_group(padded(size as nat, 12)),
        text_group("300"@),
        text_group(dialog_id),
        num_group(message_number),
    ]
}

/// HNHBK version 3. The size of the whole message stands in it with 12 digits,
/// filled with zeros.
pub fn hnhbk(message_size: u32, dialog_id: &str, message_number: u16) -> (degs: Vec<DEG>)
    ensures
        views(degs@) == hnhbk_model(message_size as int, dialog_id@, message_number as int),
{
    let degs = vec![
        seg_header("HNHBK", 1, 3),
        deg1(de_text(padded_string(message_size as u128, 12).as_str())),
        deg1(de_text("300")),
        deg1(de_text(dialog_id)),
        deg1(de_num(message_number as u32)),
    ];
    assert(views(degs@) =~= hnhbk_model(message_size as int, dialog_id@, message_number as int));
    degs
}

// ---- HNHBS, the message trailer ----

pub open spec fn hnhbs_model(segment_number: int, message_number: int) -> Seq<Group> {
    seq![header_group("HNHBS"@, segment_number, 1), num_group(message_number)]
}

/// HNHBS version 1.
pub fn hnhbs(segment_number: u16, message_number: u16) -> (degs: Vec<DEG>)
    ensures
        views(degs@) == hnhbs_model(segment_number as int, message_number as int),
{
    let degs = vec![
        seg_header("HNHBS", segment_number, 1),
        deg1(de_num(message_number as u32)),
    ];
    assert(views(degs@) =~= hnhbs_model(segment_number as int, message_number as int));
    degs
}

// ---- HNVSK, the encryption header ----

/// Type 1 (time stamp), date and time.
pub open spec fn moment_group(m: Moment) -> Group {
    seq![text_element("1"@), text_element(m.date), text_element(m.time)]
}

/// Role 2 (message sender), no card identification, system identification.
pub open spec fn identification_group(system_id: Seq<char>) -> Group {
    seq![text_element("2"@), Element::Empty, text_element(system_id)]
}

/// Country 280, bank, user, key type, and number and version 0.
pub open spec fn key_group(blz: Seq<char>, user_id: Seq<char>, key_type: Seq<char>) -> Group {
    seq![
        text_element("280"@),
        text_element(blz),
        text_element(user_id),
        text_element(key_type),
        text_element("0"@),
        text_element("0"@),
    ]
}

/// Eight zero bytes in place of a key.
pub open spec fn no_key() -> Seq<u8> {
    seq![0u8, 0u8, 0u8, 0u8, 0u8, 0u8, 0u8, 0u8]
}

pub open spec fn hnvsk_model(
    blz: Seq<char>,
    user_id: Seq<char>,
    system_id: Seq<char>,
    m: Moment,
) -> Seq<Group> {
    seq![
        header_group("HNVSK"@, 998, 3),
        seq![text_element("PIN"@), text_element("1"@)],
        text_group("998"@),
        text_group("1"@),
        identification_group(system_id),
        moment_group(m),
        seq![
            text_element("2"@),
            text_element("2"@),
            text_element("13"@),
            Element::Binary(no_key()),
            text_element("5"@),
            text_element("1"@),
        ],
        key_group(blz, user_id, "V"@),
        text_group("0"@),
    ]
}

fn moment_deg(t: &Timestamp) -> (d: DEG)
    ensures
        d@ == moment_group(t@),
{
    three(de_text("1"), de_text(t.date.as_str()), de_text(t.time.as_str()))
}

fn identification_deg(system_id: &str) -> (d: DEG)
    ensures
        d@ == identification_group(system_id@),
{
    three(de_text("2"), de_empty(), de_text(system_id))
}

fn key_deg(blz: &str, user_id: &str, key_type: &str) -> (d: DEG)
    ensures
        d@ == key_group(blz@, user_id@, key_type@),
{
    six(
        de_text("280"),
        de_text(blz),
        de_text(user_id),
        de_text(key_type),
        de_text("0"),
        de_text("0"),
    )
}

/// HNVSK version 3 with the given time stamp. PIN/TAN messages are not really
/// encrypted, so the parameters (2-key triple DES, a zero key) are dummies.
pub fn hnvsk_at(blz: &str, user_id: &str, system_id: &str, now: &Timestamp) -> (degs: Vec<DEG>)
    ensures
        views(degs@) == hnvsk_model(blz@, user_id@, system_id@, now@),
{
    let key: Vec<u8> = vec![0u8, 0u8, 0u8, 0u8, 0u8, 0u8, 0u8, 0u8];
    assert(key@ =~= no_key());
    let degs = vec![
        seg_header("HNVSK", 998, 3),
        two(de_text("PIN"), de_text("1")),
        deg1(de_text("998")),
        deg1(de_text("1")),
        identification_deg(system_id),
        moment_deg(now),
        six(
            de_text("2"),
            de_text("2"),
            de_text("13"),
            de_binary(key),
            de_text("5"),
            de_text("1"),
        ),
        key_deg(blz, user_id, "V"),
        deg1(de_text("0")),
    ];
    assert(views(degs@) =~= hnvsk_model(blz@, user_id@, system_id@, now@));
    degs
}

/// HNVSK version 3 with the current local time.
pub fn hnvsk(blz: &str, user_id: &str, system_id: &str) -> (degs: Vec<DEG>)
    ensures
        exists|m: Moment|
            well_formed_moment(m) && views(degs@) == #[trigger] hnvsk_model(
                blz@,
                user_id@,
                system_id@,
                m,
            ),
{
    let now = local_timestamp();
    hnvsk_at(blz, user_id, system_id, &now)
}

// ---- HNVSD, the encrypted data container ----

pub open spec fn hnvsd_model(inner: Seq<u8>) -> Seq<Group> {
    seq![header_group("HNVSD"@, 999, 1), seq![Element::Binary(inner)]]
}

/// HNVSD version 1 around the bytes of the inner segments.
pub fn hnvsd(inner_bytes: &[u8]) -> (degs: Vec<DEG>)
    ensures
        views(degs@) == hnvsd_model(inner_bytes@),
{
    let degs = vec![seg_header("HNVSD", 999, 1), deg1(de_binary(copy_bytes(inner_bytes)))];
    assert(views(degs@) =~= hnvsd_model(inner_bytes@));
    degs
}

// ---- HNSHK, the signature header ----

pub open spec fn hnshk_model(
    segment_number: int,
    security_function: Seq<char>,
    security_reference: int,
    blz: Seq<char>,
    user_id: Seq<char>,
    system_id: Seq<char>,
    m: Moment,
) -> Seq<Group> {
    seq![
        header_group("HNSHK"@, segment_number, 4),
        seq![text_element("PIN"@), text_element("1"@)],
        text_group(security_function),
        num_group(security_reference),
        text_group("1"@),
        text_group("1"@),
        identification_group(system_id),
        text_group("1"@),
        moment_group(m),
        seq![text_element("1"@), text_element("999"@), text_element("1"@)],
        seq![text_element("6"@), text_element("10"@), text_element("16"@)],
        key_group(blz, user_id, "S"@),
    ]
}

/// HNSHK version 4 with the given time stamp. The security function is 999 for
/// one-step signatures or names a TAN method; the security reference links the
/// header to its HNSHA.
pub fn hnshk_at(
    segment_number: u16,
    security_function: &str,
    security_reference: u32,
    blz: &str,
    user_id: &str,
    system_id: &str,
    now: &Timestamp,
) -> (degs: Vec<DEG>)
    ensures
        views(degs@) == hnshk_model(
            segment_number as int,
            security_function@,
            security_reference as int,
            blz@,
            user_id@,
            system_id@,
            now@,
        ),
{
    let degs = vec![
        seg_header("HNSHK", segment_number, 4),
        two(de_text("PIN"), de_text("1")),
        deg1(de_text(security_function)),
        deg1(de_num(security_reference)),
        deg1(de_text("1")),
        deg1(de_text("1")),
        identification_deg(system_id),
        deg1(de_text("1")),
        moment_deg(now),
        three(de_text("1"), de_text("999"), de_text("1")),
        three(de_text("6"), de_text("10"), de_text("16")),
        key_deg(blz, user_id, "S"),
    ];
    assert(views(degs@) =~= hnshk_model(
        segment_number as int,
        security_function@,
        security_reference as int,
        blz@,
        user_id@,
        system_id@,
        now@,
    ));
    degs
}

/// HNSHK version 4 with the current local time.
pub fn hnshk(
    segment_number: u16,
    security_function: &str,
    security_reference: u32,
    blz: &str,
    user_id: &str,
    system_id: &str,
) -> (degs: Vec<DEG>)
    ensures
        exists|m: Moment|
            well_formed_moment(m) && views(degs@) == #[trigger] hnshk_model(
                segment_number as int,
                security_function@,
                security_reference as int,
                blz@,
                user_id@,
                system_id@,
                m,
            ),
{
    let now = local_timestamp();
    hnshk_at(
        segment_number,
        security_function,
        security_reference,
        blz,
        user_id,
        system_id,
        &now,
    )
}

// ---- HNSHA, the signature trailer ----

/// PIN, and the TAN where there is one. An empty TAN, which follows a decoupled
/// confirmation, is still stated.
pub open spec fn signature_group(pin: Seq<char>, tan: Option<Seq<char>>) -> Group {
    match tan {
        Some(t) => seq![text_element(pin), Element::Text(t)],
        None => seq![text_element(pin)],
    }
}

pub open spec fn hnsha_model(
    segment_number: int,
    security_reference: int,
    pin: Seq<char>,
    tan: Option<Seq<char>>,
) -> Seq<Group> {
    seq![
        header_group("HNSHA"@, segment_number, 2),
        num_group(security_reference),
        blank_group(),
        signature_group(pin, tan),
    ]
}

/// HNSHA version 2 with PIN and TAN. The security reference is that of HNSHK.
pub fn hnsha(
    segment_number: u16,
    security_reference: u32,
    pin: &str,
    tan: Option<&str>,
) -> (degs: Vec<DEG>)
    ensures
        views(degs@) == hnsha_model(
            segment_number as int,
            security_reference as int,
            pin@,
            opt_str_view(tan),
        ),
{
    let signature = match tan {
        Some(t) => two(de_text(pin), DataElement::Text(t.to_string())),
        None => deg1(de_text(pin)),
    };
    let degs = vec![
        seg_header("HNSHA", segment_number, 2),
        deg1(de_num(security_reference)),
        deg1(de_empty()),
        signature,
    ];
    assert(views(degs@) =~= hnsha_model(
        segment_number as int,
        security_reference as int,
        pin@,
        opt_str_view(tan),
    ));
    degs
}

// ---- HKIDN, identification ----

pub open spec fn hkidn_model(
    segment_number: int,
    blz: Seq<char>,
    user_id: Seq<char>,
    system_id: Seq<char>,
) -> Seq<Group> {
    seq![
        header_group("HKIDN"@, segment_number, 2),
        seq![text_element("280"@), text_element(blz)],
        text_group(user_id),
        text_group(system_id),
        text_group("1"@),
    ]
}

/// HKIDN version 2: bank, user, system identification, and that one is required.
pub fn hkidn(segment_number: u16, blz: &str, user_id: &str, system_id: &str) -> (degs: Vec<DEG>)
    ensures
        views(degs@) == hkidn_model(segment_number as int, blz@, user_id@, system_id@),
{
    let degs = vec![
        seg_header("HKIDN", segment_number, 2),
        two(de_text("280"), de_text(blz)),
        deg1(de_text(user_id)),
        deg1(de_text(system_id)),
        deg1(de_text("1")),
    ];
    assert(views(degs@) =~= hkidn_model(segment_number as int, blz@, user_id@, system_id@));
    degs
}

// ---- HKVVB, processing preparation ----

pub open spec fn hkvvb_model(
    segment_number: int,
    bpd_version: int,
    upd_version: int,
    product_id: Seq<char>,
) -> Seq<Group> {
    seq![
        header_group("HKVVB"@, segment_number, 3),
        num_group(bpd_version),
        num_group(upd_version),
        text_group("1"@),
        text_group(product_id),
        text_group("1.0"@),
    ]
}

/// HKVVB version 3: the known versions of bank and user parameters (0 asks for
/// all of them), language 1 (German), product and its version.
pub fn hkvvb(
    segment_number: u16,
    bpd_version: u16,
    upd_version: u16,
    product_id: &str,
) -> (degs: Vec<DEG>)
    ensures
        views(degs@) == hkvvb_model(
            segment_number as int,
            bpd_version as int,
            upd_version as int,
            product_id@,
        ),
{
    let degs = vec![
        seg_header("HKVVB", segment_number, 3),
        deg1(de_num(bpd_version as u32)),
        deg1(de_num(upd_version as u32)),
        deg1(de_text("1")),
        deg1(de_text(product_id)),
        deg1(de_text("1.0")),
    ];
    assert(views(degs@) =~= hkvvb_model(
        segment_number as int,
        bpd_version as int,
        upd_version as int,
        product_id@,
    ));
    degs
}

// ---- HKSYN, synchronization ----

pub open spec fn hksyn_model(segment_number: int) -> Seq<Group> {
    seq![header_group("HKSYN"@, segment_number, 3), text_group("0"@)]
}

/// HKSYN version 3, mode 0: ask for a new system identification.
pub fn hksyn(segment_number: u16) -> (degs: Vec<DEG>)
    ensures
        views(degs@) == hksyn_model(segment_number as int),
{
    let degs = vec![seg_header("HKSYN", segment_number, 3), deg1(de_text("0"))];
    assert(views(degs@) =~= hksyn_model(segment_number as int));
    degs
}

// ---- HKEND, dialog end ----

pub open spec fn hkend_model(segment_number: int, dialog_id: Seq<char>) -> Seq<Group> {
    seq![header_group("HKEND"@, segment_number, 1), text_group(dialog_id)]
}

/// HKEND version 1.
pub fn hkend(segment_number: u16, dialog_id: &str) -> (degs: Vec<DEG>)
    ensures
        views(degs@) == hkend_model(segment_number as int, dialog_id@),
{
    let degs = vec![seg_header("HKEND", segment_number, 1), deg1(de_text(dialog_id))];
    assert(views(degs@) =~= hkend_model(segment_number as int, dialog_id@));
    degs
}

// ---- HKTAN, the TAN segment ----

/// As many DEGs that state nothing.
pub open spec fn blanks(n: nat) -> Seq<Group> {
    Seq::new(n, |i: int| blank_group())
}

/// The name of the TAN medium at its place; from version 6 on three DEGs lie
/// before it.
pub open spec fn medium_groups(version: int, tan_medium: Option<Seq<char>>) -> Seq<Group> {
    match tan_medium {
        Some(name) => (if version >= 6 {
            blanks(3)
        } else {
            Seq::empty()
        }) + seq![text_group(name)],
        None => Seq::empty(),
    }
}

/// Process 4: ask for a challenge for a segment type.
pub open spec fn hktan_process4_model(
    segment_number: int,
    version: int,
    segment_type: Seq<char>,
    tan_medium: Option<Seq<char>>,
) -> Seq<Group> {
    seq![
        header_group("HKTAN"@, segment_number, version),
        text_group("4"@),
        text_group(segment_type),
    ] + (if version >= 6 {
        blanks(5)
    } else {
        Seq::empty()
    }) + medium_groups(version, tan_medium)
}

/// Processes 2 and S: a task that is under way.
pub open spec fn hktan_task_model(
    process: Seq<char>,
    segment_number: int,
    version: int,
    task_reference: Seq<char>,
    tan_medium: Option<Seq<char>>,
) -> Seq<Group> {
    seq![header_group("HKTAN"@, segment_number, version), text_group(process)] + (if version >= 6 {
        blanks(3) + seq![
            text_group(task_reference),
            seq![bool_element(false)],
            blank_group(),
        ]
    } else {
        blanks(2) + seq![text_group(task_reference), seq![bool_element(false)]]
    }) + medium_groups(version, tan_medium)
}

fn push_blanks(degs: &mut Vec<DEG>, n: usize)
    ensures
        views(final(degs)@) == views(old(degs)@) + blanks(n as nat),
{
    let ghost before = views(degs@);
    let mut i: usize = 0;
    assert(before + blanks(0) =~= before);
    while i < n
        invariant
            i <= n,
            views(degs@) == before + blanks(i as nat),
        decreases n - i,
    {
        broadcast use group_views;

        degs.push(deg1(de_empty()));
        assert(views(degs@) =~= before + blanks((i + 1) as nat));
        i += 1;
    }
}

fn push_medium(degs: &mut Vec<DEG>, version: u16, tan_medium: Option<&str>)
    ensures
        views(final(degs)@) == views(old(degs)@) + medium_groups(
            version as int,
            opt_str_view(tan_medium),
        ),
{
    broadcast use group_views;

    let ghost before = views(degs@);
    if let Some(name) = tan_medium {
        if version >= 6 {
            push_blanks(degs, 3);
        }
        degs.push(deg1(de_text(name)));
    }
    assert(views(degs@) =~= before + medium_groups(version as int, opt_str_view(tan_medium)));
}

/// HKTAN process 4, which asks for a challenge. From version 6 on, account,
/// order hash, order reference, a further TAN and cancellation stay empty.
pub fn hktan_process4(
    segment_number: u16,
    version: u16,
    segment_type: &str,
    tan_medium_name: Option<&str>,
) -> (degs: Vec<DEG>)
    ensures
        views(degs@) == hktan_process4_model(
            segment_number as int,
            version as int,
            segment_type@,
            opt_str_view(tan_medium_name),
        ),
{
    let mut degs = vec![
        seg_header("HKTAN", segment_number, version),
        deg1(de_text("4")),
        deg1(de_text(segment_type)),
    ];
    let ghost first = seq![
        header_group("HKTAN"@, segment_number as int, version as int),
        text_group("4"@),
        text_group(segment_type@),
    ];
    assert(views(degs@) =~= first);
    if version >= 6 {
        push_blanks(&mut degs, 5);
    }
    push_medium(&mut degs, version, tan_medium_name);
    assert(views(degs@) =~= hktan_process4_model(
        segment_number as int,
        version as int,
        segment_type@,
        opt_str_view(tan_medium_name),
    ));
    degs
}

fn hktan_task(
    process: &str,
    segment_number: u16,
    version: u16,
    task_reference: &str,
    tan_medium_name: Option<&str>,
) -> (degs: Vec<DEG>)
    ensures
        views(degs@) == hktan_task_model(
            process@,
            segment_number as int,
            version as int,
            task_reference@,
            opt_str_view(tan_medium_name),
        ),
{
    broadcast use group_views;

    let mut degs = vec![
        seg_header("HKTAN", segment_number, version),
        deg1(de_text(process)),
    ];
    let ghost first = seq![
        header_group("HKTAN"@, segment_number as int, version as int),
        text_group(process@),
    ];
    assert(views(degs@) =~= first);
    if version >= 6 {
        push_blanks(&mut degs, 3);
        degs.push(deg1(de_text(task_reference)));
        degs.push(deg1(de_bool(false)));
        degs.push(deg1(de_empty()));
    } else {
        push_blanks(&mut degs, 2);
        degs.push(deg1(de_text(task_reference)));
        degs.push(deg1(de_bool(false)));
    }
    push_medium(&mut degs, version, tan_medium_name);
    assert(views(degs@) =~= hktan_task_model(
        process@,
        segment_number as int,
        version as int,
        task_reference@,
        opt_str_view(tan_medium_name),
    ));
    degs
}

/// HKTAN process 2, which submits a TAN.
pub fn hktan_process2(
    segment_number: u16,
    version: u16,
    task_reference: &str,
    tan_medium_name: Option<&str>,
) -> (degs: Vec<DEG>)
    ensures
        views(degs@) == hktan_task_model(
            "2"@,
            segment_number as int,
            version as int,
            task_reference@,
            opt_str_view(tan_medium_name),
        ),
{
    hktan_task("2", segment_number, version, task_reference, tan_medium_name)
}

/// HKTAN process S, which asks whether a decoupled task is confirmed.
pub fn hktan_process_s(
    segment_number: u16,
    version: u16,
    task_reference: &str,
    tan_medium_name: Option<&str>,
) -> (degs: Vec<DEG>)
    ensures
        views(degs@) == hktan_task_model(
            "S"@,
            segment_number as int,
            version as int,
            task_reference@,
            opt_str_view(tan_medium_name),
        ),
{
    hktan_task("S", segment_number, version, task_reference, tan_medium_name)
}

// ---- HKTAB, the list of TAN media ----

pub open spec fn hktab_model(segment_number: int, version: int) -> Seq<Group> {
    seq![header_group("HKTAB"@, segment_number, version), text_group("A"@)]
}

/// HKTAB: ask for all TAN media. The answer names the devices that pushTAN needs.
pub fn hktab(segment_number: u16, version: u16) -> (degs: Vec<DEG>)
    ensures
        views(degs@) == hktab_model(segment_number as int, version as int),
{
    let degs = vec![seg_header("HKTAB", segment_number, version), deg1(de_text("A"))];
    assert(views(degs@) =~= hktab_model(segment_number as int, version as int));
    degs
}

// ---- HKSPA, SEPA accounts ----

pub open spec fn hkspa_model(segment_number: int, version: int) -> Seq<Group> {
    seq![header_group("HKSPA"@, segment_number, version)]
}

/// HKSPA: ask for the SEPA accounts.
pub fn hkspa(segment_number: u16, version: u16) -> (degs: Vec<DEG>)
    ensures
        views(degs@) == hkspa_model(segment_number as int, version as int),
{
    let degs = vec![seg_header("HKSPA", segment_number, version)];
    assert(views(degs@) =~= hkspa_model(segment_number as int, version as int));
    degs
}

// ---- HKSAL, balance ----

/// The point to go on from, where there is one.
pub open spec fn touchdown_groups(touchdown: Option<Seq<char>>) -> Seq<Group> {
    match touchdown {
        Some(td) => seq![text_group(td)],
        None => Seq::empty(),
    }
}

fn push_touchdown(degs: &mut Vec<DEG>, touchdown: Option<&str>)
    ensures
        views(final(degs)@) == views(old(degs)@) + touchdown_groups(opt_str_view(touchdown)),
{
    broadcast use group_views;

    let ghost before = views(degs@);
    if let Some(td) = touchdown {
        degs.push(deg1(de_text(td)));
    }
    assert(views(degs@) =~= before + touchdown_groups(opt_str_view(touchdown)));
}

pub open spec fn hksal_model(
    segment_number: int,
    version: int,
    iban: Seq<char>,
    bic: Seq<char>,
    touchdown: Option<Seq<char>>,
) -> Seq<Group> {
    seq![
        header_group("HKSAL"@, segment_number, version),
        account_group(version, KTI_MIN_VERSION_HKSAL as int, iban, bic),
        text_group("N"@),
        blank_group(),
    ] + touchdown_groups(touchdown)
}

/// HKSAL: ask for the balance of one account (not of all).
pub fn hksal(
    segment_number: u16,
    version: u16,
    iban: &str,
    bic: &str,
    touchdown: Option<&str>,
) -> (degs: Vec<DEG>)
    requires
        addressable(version as int, KTI_MIN_VERSION_HKSAL as int, iban@, bic@),
    ensures
        views(degs@) == hksal_model(
            segment_number as int,
            version as int,
            iban@,
            bic@,
            opt_str_view(touchdown),
        ),
{
    let mut degs = vec![
        seg_header("HKSAL", segment_number, version),
        account_deg(version, KTI_MIN_VERSION_HKSAL, iban, bic),
        deg1(de_text("N")),
        deg1(de_empty()),
    ];
    let ghost first = seq![
        header_group("HKSAL"@, segment_number as int, version as int),
        account_group(version as int, KTI_MIN_VERSION_HKSAL as int, iban@, bic@),
        text_group("N"@),
        blank_group(),
    ];
    assert(views(degs@) =~= first);
    push_touchdown(&mut degs, touchdown);
    degs
}

// ---- HKKAZ, transactions ----

pub open spec fn hkkaz_model(
    segment_number: int,
    version: int,
    iban: Seq<char>,
    bic: Seq<char>,
    start_date: Ymd,
    end_date: Ymd,
    touchdown: Option<Seq<char>>,
) -> Seq<Group> {
    seq![
        header_group("HKKAZ"@, segment_number, version),
        account_group(version, KTI_MIN_VERSION_HKKAZ as int, iban, bic),
        text_group("N"@),
        seq![Element::Text(compact_text(start_date))],
        seq![Element::Text(compact_text(end_date))],
        blank_group(),
    ] + touchdown_groups(touchdown)
}

/// HKKAZ: ask for the transactions of one account between two dates.
pub fn hkkaz(
    segment_number: u16,
    version: u16,
    iban: &str,
    bic: &str,
    start_date: Date,
    end_date: Date,
    touchdown: Option<&str>,
) -> (degs: Vec<DEG>)
    requires
        addressable(version as int, KTI_MIN_VERSION_HKKAZ as int, iban@, bic@),
    ensures
        views(degs@) == hkkaz_model(
            segment_number as int,
            version as int,
            iban@,
            bic@,
            start_date@,
            end_date@,
            opt_str_view(touchdown),
        ),
{
    let mut degs = vec![
        seg_header("HKKAZ", segment_number, version),
        account_deg(version, KTI_MIN_VERSION_HKKAZ, iban, bic),
        deg1(de_text("N")),
        deg1(de_date(start_date)),
        deg1(de_date(end_date)),
        deg1(de_empty()),
    ];
    let ghost first = seq![
        header_group("HKKAZ"@, segment_number as int, version as int),
        account_group(version as int, KTI_MIN_VERSION_HKKAZ as int, iban@, bic@),
        text_group("N"@),
        seq![Element::Text(compact_text(start_date@))],
        seq![Element::Text(compact_text(end_date@))],
        blank_group(),
    ];
    assert(views(degs@) =~= first);
    push_touchdown(&mut degs, touchdown);
    degs
}

// ---- HKWPD, securities ----

/// A DEG of one text, which states nothing where there is none.
pub open spec fn opt_text_group(s: Option<Seq<char>>) -> Group {
    match s {
        Some(t) => text_group(t),
        None => blank_group(),
    }
}

pub open spec fn hkwpd_model(
    segment_number: int,
    version: int,
    iban: Seq<char>,
    bic: Seq<char>,
    currency: Option<Seq<char>>,
    touchdown: Option<Seq<char>>,
) -> Seq<Group> {
    seq![
        header_group("HKWPD"@, segment_number, version),
        account_group(version, KTI_MIN_VERSION_HKWPD as int, iban, bic),
        opt_text_group(currency),
        blank_group(),
        blank_group(),
    ] + touchdown_groups(touchdown)
}

/// HKWPD: ask for the positions of a securities account. Behind the account
/// come the currency of the prices, the quality of the data and the number of
/// entries, of which only the first can be chosen.
pub fn hkwpd(
    segment_number: u16,
    version: u16,
    iban: &str,
    bic: &str,
    currency: Option<&str>,
    touchdown: Option<&str>,
) -> (degs: Vec<DEG>)
    requires
        addressable(version as int, KTI_MIN_VERSION_HKWPD as int, iban@, bic@),
    ensures
        views(degs@) == hkwpd_model(
            segment_number as int,
            version as int,
            iban@,
            bic@,
            opt_str_view(currency),
            opt_str_view(touchdown),
        ),
{
    let currency_deg = match currency {
        Some(cur) => deg1(de_text(cur)),
        None => deg1(de_empty()),
    };
    let mut degs = vec![
        seg_header("HKWPD", segment_number, version),
        account_deg(version, KTI_MIN_VERSION_HKWPD, iban, bic),
        currency_deg,
        deg1(de_empty()),
        deg1(de_empty()),
    ];
    let ghost first = seq![
        header_group("HKWPD"@, segment_number as int, version as int),
        account_group(version as int, KTI_MIN_VERSION_HKWPD as int, iban@, bic@),
        opt_text_group(opt_str_view(currency)),
        blank_group(),
        blank_group(),
    ];
    assert(views(degs@) =~= first);
    push_touchdown(&mut degs, touchdown);
    degs
}

} // verus!
