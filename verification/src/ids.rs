//! Identifiers: texts that say what they identify.

use vstd::prelude::*;

use crate::text::{copy_bytes, same_text};

verus! {

/// An optional value by its view.
pub open spec fn opt_of<T: View>(o: Option<T>) -> Option<T::V> {
    match o {
        Some(t) => Some(t@),
        None => None,
    }
}

/// An optional reference by the view of what it refers to.
pub open spec fn opt_ref_of<T: View>(o: Option<&T>) -> Option<T::V> {
    match o {
        Some(t) => Some(t@),
        None => None,
    }
}

/// A Bankleitzahl, the German bank code.
#[derive(Debug, PartialEq, Eq)]
pub struct Blz(String);

impl View for Blz {
    type V = Seq<char>;

    closed spec fn view(&self) -> Seq<char> {
        self.0@
    }
}

impl Clone for Blz {
    fn clone(&self) -> (r: Blz)
        ensures
            r@ == self@,
    {
        Blz(self.0.clone())
    }
}

impl Blz {
    pub fn new(value: &str) -> (r: Blz)
        ensures
            r@ == value@,
    {
        Blz(value.to_string())
    }

    pub fn as_str(&self) -> (s: &str)
        ensures
            s@ == self@,
    {
        self.0.as_str()
    }
}

/// The identification of the customer at the bank.
#[derive(Debug, PartialEq, Eq)]
pub struct UserId(String);

impl View for UserId {
    type V = Seq<char>;

    closed spec fn view(&self) -> Seq<char> {
        self.0@
    }
}

impl Clone for UserId {
    fn clone(&self) -> (r: UserId)
        ensures
            r@ == self@,
    {
        UserId(self.0.clone())
    }
}

impl UserId {
    pub fn new(value: &str) -> (r: UserId)
        ensures
            r@ == value@,
    {
        UserId(value.to_string())
    }

    pub fn as_str(&self) -> (s: &str)
        ensures
            s@ == self@,
    {
        self.0.as_str()
    }
}

/// The PIN. It has no `Debug` form, so it does not reach a log by accident.
#[derive(PartialEq, Eq)]
pub struct Pin(String);

impl View for Pin {
    type V = Seq<char>;

    closed spec fn view(&self) -> Seq<char> {
        self.0@
    }
}

impl Clone for Pin {
    fn clone(&self) -> (r: Pin)
        ensures
            r@ == self@,
    {
        Pin(self.0.clone())
    }
}

impl Pin {
    pub fn new(value: &str) -> (r: Pin)
        ensures
            r@ == value@,
    {
        Pin(value.to_string())
    }

    pub fn as_str(&self) -> (s: &str)
        ensures
            s@ == self@,
    {
        self.0.as_str()
    }
}

/// The identification of this client at the bank.
#[derive(Debug, PartialEq, Eq)]
pub struct SystemId(String);

impl View for SystemId {
    type V = Seq<char>;

    closed spec fn view(&self) -> Seq<char> {
        self.0@
    }
}

impl Clone for SystemId {
    fn clone(&self) -> (r: SystemId)
        ensures
            r@ == self@,
    {
        SystemId(self.0.clone())
    }
}

impl SystemId {
    pub fn new(value: &str) -> (r: SystemId)
        ensures
            r@ == value@,
    {
        SystemId(value.to_string())
    }

    pub fn as_str(&self) -> (s: &str)
        ensures
            s@ == self@,
    {
        self.0.as_str()
    }
}

/// The registration of the client product.
#[derive(Debug, PartialEq, Eq)]
pub struct ProductId(String);

impl View for ProductId {
    type V = Seq<char>;

    closed spec fn view(&self) -> Seq<char> {
        self.0@
    }
}

impl Clone for ProductId {
    fn clone(&self) -> (r: ProductId)
        ensures
            r@ == self@,
    {
        ProductId(self.0.clone())
    }
}

impl ProductId {
    pub fn new(value: &str) -> (r: ProductId)
        ensures
            r@ == value@,
    {
        ProductId(value.to_string())
    }

    pub fn as_str(&self) -> (s: &str)
        ensures
            s@ == self@,
    {
        self.0.as_str()
    }
}

/// The identification of a dialog, assigned by the bank.
#[derive(Debug, PartialEq, Eq)]
pub struct DialogId(String);

impl View for DialogId {
    type V = Seq<char>;

    closed spec fn view(&self) -> Seq<char> {
        self.0@
    }
}

impl Clone for DialogId {
    fn clone(&self) -> (r: DialogId)
        ensures
            r@ == self@,
    {
        DialogId(self.0.clone())
    }
}

impl DialogId {
    pub fn new(value: &str) -> (r: DialogId)
        ensures
            r@ == value@,
    {
        DialogId(value.to_string())
    }

    pub fn as_str(&self) -> (s: &str)
        ensures
            s@ == self@,
    {
        self.0.as_str()
    }
}

/// A security function: the TAN method that signs an order.
#[derive(Debug, PartialEq, Eq)]
pub struct SecurityFunction(String);

impl View for SecurityFunction {
    type V = Seq<char>;

    closed spec fn view(&self) -> Seq<char> {
        self.0@
    }
}

impl Clone for SecurityFunction {
    fn clone(&self) -> (r: SecurityFunction)
        ensures
            r@ == self@,
    {
        SecurityFunction(self.0.clone())
    }
}

impl SecurityFunction {
    pub fn new(value: &str) -> (r: SecurityFunction)
        ensures
            r@ == value@,
    {
        SecurityFunction(value.to_string())
    }

    pub fn as_str(&self) -> (s: &str)
        ensures
            s@ == self@,
    {
        self.0.as_str()
    }
}

/// The bank's reference to an order that waits for its TAN.
#[derive(Debug, PartialEq, Eq)]
pub struct TaskReference(String);

impl View for TaskReference {
    type V = Seq<char>;

    closed spec fn view(&self) -> Seq<char> {
        self.0@
    }
}

impl Clone for TaskReference {
    fn clone(&self) -> (r: TaskReference)
        ensures
            r@ == self@,
    {
        TaskReference(self.0.clone())
    }
}

impl TaskReference {
    pub fn new(value: &str) -> (r: TaskReference)
        ensures
            r@ == value@,
    {
        TaskReference(value.to_string())
    }

    pub fn as_str(&self) -> (s: &str)
        ensures
            s@ == self@,
    {
        self.0.as_str()
    }
}

/// A segment type, such as `HKSAL`.
#[derive(Debug, PartialEq, Eq)]
pub struct SegmentType(String);

impl View for SegmentType {
    type V = Seq<char>;

    closed spec fn view(&self) -> Seq<char> {
        self.0@
    }
}

impl Clone for SegmentType {
    fn clone(&self) -> (r: SegmentType)
        ensures
            r@ == self@,
    {
        SegmentType(self.0.clone())
    }
}

impl SegmentType {
    pub fn new(value: &str) -> (r: SegmentType)
        ensures
            r@ == value@,
    {
        SegmentType(value.to_string())
    }

    pub fn as_str(&self) -> (s: &str)
        ensures
            s@ == self@,
    {
        self.0.as_str()
    }
}

/// The type of the segment that a TAN request refers to.
#[derive(Debug, PartialEq, Eq)]
pub struct SegmentRef(String);

impl View for SegmentRef {
    type V = Seq<char>;

    closed spec fn view(&self) -> Seq<char> {
        self.0@
    }
}

impl Clone for SegmentRef {
    fn clone(&self) -> (r: SegmentRef)
        ensures
            r@ == self@,
    {
        SegmentRef(self.0.clone())
    }
}

impl SegmentRef {
    pub fn new(value: &str) -> (r: SegmentRef)
        ensures
            r@ == value@,
    {
        SegmentRef(value.to_string())
    }

    pub fn as_str(&self) -> (s: &str)
        ensures
            s@ == self@,
    {
        self.0.as_str()
    }
}

/// The name of a TAN medium.
#[derive(Debug, PartialEq, Eq)]
pub struct TanMediumName(String);

impl View for TanMediumName {
    type V = Seq<char>;

    closed spec fn view(&self) -> Seq<char> {
        self.0@
    }
}

impl Clone for TanMediumName {
    fn clone(&self) -> (r: TanMediumName)
        ensures
            r@ == self@,
    {
        TanMediumName(self.0.clone())
    }
}

impl TanMediumName {
    pub fn new(value: &str) -> (r: TanMediumName)
        ensures
            r@ == value@,
    {
        TanMediumName(value.to_string())
    }

    pub fn as_str(&self) -> (s: &str)
        ensures
            s@ == self@,
    {
        self.0.as_str()
    }
}

/// Where the next page of an answer starts.
#[derive(Debug, PartialEq, Eq)]
pub struct TouchdownPoint(String);

impl View for TouchdownPoint {
    type V = Seq<char>;

    closed spec fn view(&self) -> Seq<char> {
        self.0@
    }
}

impl Clone for TouchdownPoint {
    fn clone(&self) -> (r: TouchdownPoint)
        ensures
            r@ == self@,
    {
        TouchdownPoint(self.0.clone())
    }
}

impl TouchdownPoint {
    pub fn new(value: &str) -> (r: TouchdownPoint)
        ensures
            r@ == value@,
    {
        TouchdownPoint(value.to_string())
    }

    pub fn as_str(&self) -> (s: &str)
        ensures
            s@ == self@,
    {
        self.0.as_str()
    }
}

/// An ISO 4217 currency code.
#[derive(Debug, PartialEq, Eq)]
pub struct Currency(String);

impl View for Currency {
    type V = Seq<char>;

    closed spec fn view(&self) -> Seq<char> {
        self.0@
    }
}

impl Clone for Currency {
    fn clone(&self) -> (r: Currency)
        ensures
            r@ == self@,
    {
        Currency(self.0.clone())
    }
}

impl Currency {
    pub fn new(value: &str) -> (r: Currency)
        ensures
            r@ == value@,
    {
        Currency(value.to_string())
    }

    pub fn as_str(&self) -> (s: &str)
        ensures
            s@ == self@,
    {
        self.0.as_str()
    }
}

/// An IBAN.
#[derive(Debug, PartialEq, Eq)]
pub struct Iban(String);

impl View for Iban {
    type V = Seq<char>;

    closed spec fn view(&self) -> Seq<char> {
        self.0@
    }
}

impl Clone for Iban {
    fn clone(&self) -> (r: Iban)
        ensures
            r@ == self@,
    {
        Iban(self.0.clone())
    }
}

impl Iban {
    pub fn new(value: &str) -> (r: Iban)
        ensures
            r@ == value@,
    {
        Iban(value.to_string())
    }

    pub fn as_str(&self) -> (s: &str)
        ensures
            s@ == self@,
    {
        self.0.as_str()
    }
}

/// A BIC.
#[derive(Debug, PartialEq, Eq)]
pub struct Bic(String);

impl View for Bic {
    type V = Seq<char>;

    closed spec fn view(&self) -> Seq<char> {
        self.0@
    }
}

impl Clone for Bic {
    fn clone(&self) -> (r: Bic)
        ensures
            r@ == self@,
    {
        Bic(self.0.clone())
    }
}

impl Bic {
    pub fn new(value: &str) -> (r: Bic)
        ensures
            r@ == value@,
    {
        Bic(value.to_string())
    }

    pub fn as_str(&self) -> (s: &str)
        ensures
            s@ == self@,
    {
        self.0.as_str()
    }
}

/// The text of a TAN challenge.
#[derive(Debug, PartialEq, Eq)]
pub struct ChallengeText(String);

impl View for ChallengeText {
    type V = Seq<char>;

    closed spec fn view(&self) -> Seq<char> {
        self.0@
    }
}

impl Clone for ChallengeText {
    fn clone(&self) -> (r: ChallengeText)
        ensures
            r@ == self@,
    {
        ChallengeText(self.0.clone())
    }
}

impl ChallengeText {
    pub fn new(value: &str) -> (r: ChallengeText)
        ensures
            r@ == value@,
    {
        ChallengeText(value.to_string())
    }

    pub fn as_str(&self) -> (s: &str)
        ensures
            s@ == self@,
    {
        self.0.as_str()
    }
}

/// An International Securities Identification Number.
#[derive(Debug, PartialEq, Eq)]
pub struct Isin(String);

impl View for Isin {
    type V = Seq<char>;

    closed spec fn view(&self) -> Seq<char> {
        self.0@
    }
}

impl Clone for Isin {
    fn clone(&self) -> (r: Isin)
        ensures
            r@ == self@,
    {
        Isin(self.0.clone())
    }
}

impl Isin {
    pub fn new(value: &str) -> (r: Isin)
        ensures
            r@ == value@,
    {
        Isin(value.to_string())
    }

    pub fn as_str(&self) -> (s: &str)
        ensures
            s@ == self@,
    {
        self.0.as_str()
    }
}

/// A Wertpapierkennnummer.
#[derive(Debug, PartialEq, Eq)]
pub struct Wkn(String);

impl View for Wkn {
    type V = Seq<char>;

    closed spec fn view(&self) -> Seq<char> {
        self.0@
    }
}

impl Clone for Wkn {
    fn clone(&self) -> (r: Wkn)
        ensures
            r@ == self@,
    {
        Wkn(self.0.clone())
    }
}

impl Wkn {
    pub fn new(value: &str) -> (r: Wkn)
        ensures
            r@ == value@,
    {
        Wkn(value.to_string())
    }

    pub fn as_str(&self) -> (s: &str)
        ensures
            s@ == self@,
    {
        self.0.as_str()
    }
}

/// The name of a bank.
#[derive(Debug, PartialEq, Eq)]
pub struct BankName(String);

impl View for BankName {
    type V = Seq<char>;

    closed spec fn view(&self) -> Seq<char> {
        self.0@
    }
}

impl Clone for BankName {
    fn clone(&self) -> (r: BankName)
        ensures
            r@ == self@,
    {
        BankName(self.0.clone())
    }
}

impl BankName {
    pub fn new(value: &str) -> (r: BankName)
        ensures
            r@ == value@,
    {
        BankName(value.to_string())
    }

    pub fn as_str(&self) -> (s: &str)
        ensures
            s@ == self@,
    {
        self.0.as_str()
    }
}

/// The address of a FinTS endpoint.
#[derive(Debug, PartialEq, Eq)]
pub struct FinTSUrl(String);

impl View for FinTSUrl {
    type V = Seq<char>;

    closed spec fn view(&self) -> Seq<char> {
        self.0@
    }
}

impl Clone for FinTSUrl {
    fn clone(&self) -> (r: FinTSUrl)
        ensures
            r@ == self@,
    {
        FinTSUrl(self.0.clone())
    }
}

impl FinTSUrl {
    pub fn new(value: &str) -> (r: FinTSUrl)
        ensures
            r@ == value@,
    {
        FinTSUrl(value.to_string())
    }

    pub fn as_str(&self) -> (s: &str)
        ensures
            s@ == self@,
    {
        self.0.as_str()
    }
}

/// What stands in the place of an identifier that the bank has not assigned yet.
pub open spec fn unassigned_id() -> Seq<char> {
    "0"@
}

/// Whether an identifier is one that a bank assigned.
pub open spec fn assigned_id(id: Seq<char>) -> bool {
    id.len() > 0 && id != unassigned_id()
}

fn id_is_assigned(id: &str) -> (b: bool)
    ensures
        b == assigned_id(id@),
{
    !id.is_empty() && !same_text(id, "0")
}

impl SystemId {
    pub fn unassigned() -> (r: SystemId)
        ensures
            r@ == unassigned_id(),
    {
        SystemId::new("0")
    }

    pub fn is_assigned(&self) -> (b: bool)
        ensures
            b == assigned_id(self@),
    {
        id_is_assigned(self.as_str())
    }
}

impl DialogId {
    pub fn unassigned() -> (r: DialogId)
        ensures
            r@ == unassigned_id(),
    {
        DialogId::new("0")
    }

    pub fn is_assigned(&self) -> (b: bool)
        ensures
            b == assigned_id(self@),
    {
        id_is_assigned(self.as_str())
    }
}

impl SecurityFunction {
    /// The one-step function: the PIN alone signs.
    pub fn pin_only() -> (r: SecurityFunction)
        ensures
            r@ == "999"@,
    {
        SecurityFunction::new("999")
    }
}

impl Currency {
    /// The currency code.
    pub fn to_string(&self) -> (s: String)
        ensures
            s@ == self@,
    {
        self.as_str().to_string()
    }
}

// ---- Raw data ----

/// HHD-UC data for an optical TAN challenge.
#[derive(Debug, PartialEq, Eq)]
pub struct HhdUcData(pub Vec<u8>);

impl View for HhdUcData {
    type V = Seq<u8>;

    open spec fn view(&self) -> Seq<u8> {
        self.0@
    }
}

impl Clone for HhdUcData {
    fn clone(&self) -> (r: HhdUcData)
        ensures
            r@ == self@,
    {
        HhdUcData(copy_bytes(self.0.as_slice()))
    }
}

/// Account statements in the MT940 format.
#[derive(Debug, PartialEq, Eq)]
pub struct Mt940Data(pub Vec<u8>);

impl View for Mt940Data {
    type V = Seq<u8>;

    open spec fn view(&self) -> Seq<u8> {
        self.0@
    }
}

impl Clone for Mt940Data {
    fn clone(&self) -> (r: Mt940Data)
        ensures
            r@ == self@,
    {
        Mt940Data(copy_bytes(self.0.as_slice()))
    }
}

impl Mt940Data {
    pub fn is_empty(&self) -> (b: bool)
        ensures
            b == (self@.len() == 0),
    {
        self.0.len() == 0
    }

    pub fn as_bytes(&self) -> (b: &[u8])
        ensures
            b@ == self@,
    {
        self.0.as_slice()
    }
}

// ---- Laws ----

/// Every identifier but the empty one and 0 is assigned.
pub proof fn law_assigned(id: Seq<char>, c: char, rest: Seq<char>)
    ensures
        !assigned_id(unassigned_id()),
        !assigned_id(Seq::empty()),
        unassigned_id() == seq!['0'],
        rest.len() > 0 || c != '0' ==> assigned_id(seq![c] + rest),
{
    reveal_strlit("0");
    assert("0"@ =~= seq!['0']);
    let s = seq![c] + rest;
    assert(s[0] == c);
}

} // verus!
