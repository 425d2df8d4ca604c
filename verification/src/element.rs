//! The parts of a FinTS segment: data elements, data element groups (DEGs) and
//! whole segments, with the accessors that readers and builders share.

use vstd::prelude::*;

use crate::dates::{compact_text, Date};
use crate::numbers::{decimal, decimal_string, law_decimal_read, parse_u16, parsed_int};
use crate::text::{copy_bytes, is_digit, opt_view};

verus! {

// ---- Model ----

/// A data element as a value.
pub enum Element {
    Empty,
    Text(Seq<char>),
    Binary(Seq<u8>),
}

/// A DEG as a value: its elements in order.
pub type Group = Seq<Element>;

/// The views of a sequence of values.
pub open spec fn views<T: View>(s: Seq<T>) -> Seq<T::V> {
    s.map_values(|t: T| t@)
}

/// Appending a value appends its view.
pub broadcast proof fn lemma_views_push<T: View>(s: Seq<T>, x: T)
    ensures
        #[trigger] views(s.push(x)) == views(s).push(x@),
{
    assert(views(s.push(x)) =~= views(s).push(x@));
}

/// The views of joined sequences are joined.
pub broadcast proof fn lemma_views_add<T: View>(a: Seq<T>, b: Seq<T>)
    ensures
        #[trigger] views(a + b) == views(a) + views(b),
{
    assert(views(a + b) =~= views(a) + views(b));
}

/// Nothing has no views.
pub broadcast proof fn lemma_views_empty<T: View>()
    ensures
        #[trigger] views(Seq::<T>::empty()) == Seq::<T::V>::empty(),
{
    assert(views(Seq::<T>::empty()) =~= Seq::<T::V>::empty());
}

pub broadcast group group_views {
    lemma_views_push,
    lemma_views_add,
    lemma_views_empty,
}

/// The element at `i`; `Empty` past the end.
pub open spec fn element_at(g: Group, i: int) -> Element {
    if 0 <= i < g.len() {
        g[i]
    } else {
        Element::Empty
    }
}

/// The text of an element: empty unless it is a text.
pub open spec fn element_text(e: Element) -> Seq<char> {
    match e {
        Element::Text(s) => s,
        _ => Seq::empty(),
    }
}

/// The payload of a binary element.
pub open spec fn element_bytes(e: Element) -> Option<Seq<u8>> {
    match e {
        Element::Binary(b) => Some(b),
        _ => None,
    }
}

/// The DEG at `i`; one without elements past the end.
pub open spec fn group_at(seg: Seq<Group>, i: int) -> Group {
    if 0 <= i < seg.len() {
        seg[i]
    } else {
        Seq::empty()
    }
}

/// The text of element `j` of DEG `i`.
pub open spec fn text_at(seg: Seq<Group>, i: int, j: int) -> Seq<char> {
    element_text(element_at(group_at(seg, i), j))
}

/// The same, where an empty text counts as none.
pub open spec fn opt_text_at(seg: Seq<Group>, i: int, j: int) -> Option<Seq<char>> {
    let t = text_at(seg, i, j);
    if t.len() == 0 {
        None
    } else {
        Some(t)
    }
}

/// The binary payload of element `j` of DEG `i`.
pub open spec fn bytes_at(seg: Seq<Group>, i: int, j: int) -> Option<Seq<u8>> {
    element_bytes(element_at(group_at(seg, i), j))
}

/// The number that a text denotes; 0 where it denotes none that fits.
pub open spec fn u16_or_zero(s: Seq<char>) -> int {
    match parsed_int(s, 0, u16::MAX as int) {
        Some(v) => v,
        None => 0,
    }
}

/// The segment type: the first element of the segment header.
pub open spec fn type_of(seg: Seq<Group>) -> Seq<char> {
    text_at(seg, 0, 0)
}

/// The segment version: the third element of the segment header.
pub open spec fn version_of(seg: Seq<Group>) -> int {
    u16_or_zero(text_at(seg, 0, 2))
}

// ---- Data elements ----

/// One data element.
#[derive(Debug, PartialEq, Eq)]
pub enum DataElement {
    /// Nothing stated.
    Empty,
    /// A text. An empty one is stated though it has no characters.
    Text(String),
    /// Raw bytes.
    Binary(Vec<u8>),
}

impl View for DataElement {
    type V = Element;

    open spec fn view(&self) -> Element {
        match self {
            DataElement::Empty => Element::Empty,
            DataElement::Text(s) => Element::Text(s@),
            DataElement::Binary(b) => Element::Binary(b@),
        }
    }
}

impl Clone for DataElement {
    fn clone(&self) -> (r: DataElement)
        ensures
            r@ == self@,
    {
        match self {
            DataElement::Empty => DataElement::Empty,
            DataElement::Text(s) => DataElement::Text(s.clone()),
            DataElement::Binary(b) => DataElement::Binary(copy_bytes(b.as_slice())),
        }
    }
}

impl DataElement {
    /// The text of the element, empty unless it is a text.
    pub fn as_str(&self) -> (s: &str)
        ensures
            s@ == element_text(self@),
    {
        match self {
            DataElement::Text(s) => s.as_str(),
            _ => {
                proof {
                    reveal_strlit("");
                    assert(""@ =~= Seq::<char>::empty());
                }
                ""
            },
        }
    }

    /// The payload of a binary element.
    pub fn as_bytes(&self) -> (b: Option<&[u8]>)
        ensures
            match b {
                Some(s) => element_bytes(self@) == Some(s@),
                None => element_bytes(self@) is None,
            },
    {
        match self {
            DataElement::Binary(b) => Some(b.as_slice()),
            _ => None,
        }
    }
}

// ---- Data element groups ----

/// A data element group.
#[derive(Debug, PartialEq, Eq)]
pub struct DEG(pub Vec<DataElement>);

impl View for DEG {
    type V = Group;

    open spec fn view(&self) -> Group {
        views(self.0@)
    }
}

impl Clone for DEG {
    fn clone(&self) -> (r: DEG)
        ensures
            r@ == self@,
    {
        let r = DEG(self.0.clone());
        assert(r@ =~= self@);
        r
    }
}

impl DEG {
    /// The number of elements.
    pub fn len(&self) -> (n: usize)
        ensures
            n == self@.len(),
    {
        self.0.len()
    }

    /// The element at `i`; `Empty` past the end.
    pub fn get(&self, i: usize) -> (e: &DataElement)
        ensures
            e@ == element_at(self@, i as int),
    {
        if i < self.0.len() {
            &self.0[i]
        } else {
            &DataElement::Empty
        }
    }

    /// The text of the element at `i`.
    pub fn get_str(&self, i: usize) -> (s: String)
        ensures
            s@ == element_text(element_at(self@, i as int)),
    {
        self.get(i).as_str().to_string()
    }
}

// ---- Segments ----

/// A segment as it stands in a message.
#[derive(Debug, PartialEq, Eq)]
pub struct RawSegment {
    pub degs: Vec<DEG>,
}

impl View for RawSegment {
    type V = Seq<Group>;

    open spec fn view(&self) -> Seq<Group> {
        views(self.degs@)
    }
}

impl Clone for RawSegment {
    fn clone(&self) -> (r: RawSegment)
        ensures
            r@ == self@,
    {
        let r = RawSegment { degs: self.degs.clone() };
        assert(r@ =~= self@);
        r
    }
}

impl RawSegment {
    /// The number of DEGs, the header included.
    pub fn deg_count(&self) -> (n: usize)
        ensures
            n == self@.len(),
    {
        self.degs.len()
    }

    /// The DEG at `i`, if the segment has so many.
    pub fn deg(&self, i: usize) -> (d: Option<&DEG>)
        ensures
            match d {
                Some(g) => i < self@.len() && g@ == self@[i as int],
                None => i >= self@.len(),
            },
    {
        if i < self.degs.len() {
            Some(&self.degs[i])
        } else {
            None
        }
    }

    /// The number of elements in DEG `i`; 0 past the end.
    pub fn deg_len(&self, i: usize) -> (n: usize)
        ensures
            n == group_at(self@, i as int).len(),
    {
        match self.deg(i) {
            Some(d) => d.len(),
            None => 0,
        }
    }

    /// Element `j` of DEG `i`; `Empty` where there is none.
    pub fn element(&self, i: usize, j: usize) -> (e: &DataElement)
        ensures
            e@ == element_at(group_at(self@, i as int), j as int),
    {
        match self.deg(i) {
            Some(d) => d.get(j),
            None => &DataElement::Empty,
        }
    }

    /// The segment type, such as `HISAL`.
    pub fn segment_type(&self) -> (s: &str)
        ensures
            s@ == type_of(self@),
    {
        self.element(0, 0).as_str()
    }

    /// The segment version; 0 where the header states none.
    pub fn segment_version(&self) -> (v: u16)
        ensures
            v as int == version_of(self@),
    {
        read_u16(self, 0, 2)
    }
}

// ---- Reading elements ----

/// The text of element `j` of DEG `i`.
pub fn read_str(seg: &RawSegment, i: usize, j: usize) -> (s: String)
    ensures
        s@ == text_at(seg@, i as int, j as int),
{
    seg.element(i, j).as_str().to_string()
}

/// The same, or `None` where it is empty.
pub fn read_opt_str(seg: &RawSegment, i: usize, j: usize) -> (s: Option<String>)
    ensures
        opt_view(s) == opt_text_at(seg@, i as int, j as int),
{
    let s = read_str(seg, i, j);
    if s.as_str().is_empty() {
        None
    } else {
        Some(s)
    }
}

/// The number in element `j` of DEG `i`; 0 where there is none.
pub fn read_u16(seg: &RawSegment, i: usize, j: usize) -> (v: u16)
    ensures
        v as int == u16_or_zero(text_at(seg@, i as int, j as int)),
{
    match parse_u16(seg.element(i, j).as_str()) {
        Some(v) => v,
        None => 0,
    }
}

/// Optional bytes by their values.
pub open spec fn opt_bytes_view(b: Option<Vec<u8>>) -> Option<Seq<u8>> {
    match b {
        Some(v) => Some(v@),
        None => None,
    }
}

/// The binary payload of element `j` of DEG `i`.
pub fn read_binary(seg: &RawSegment, i: usize, j: usize) -> (b: Option<Vec<u8>>)
    ensures
        opt_bytes_view(b) == bytes_at(seg@, i as int, j as int),
{
    match seg.element(i, j).as_bytes() {
        Some(s) => Some(copy_bytes(s)),
        None => None,
    }
}

// ---- Making elements ----

/// A text element, `Empty` where the text has no characters.
pub open spec fn text_element(s: Seq<char>) -> Element {
    if s.len() == 0 {
        Element::Empty
    } else {
        Element::Text(s)
    }
}

pub open spec fn num_element(n: int) -> Element {
    Element::Text(decimal(n as nat))
}

/// `J` or `N`.
pub open spec fn bool_element(b: bool) -> Element {
    Element::Text(if b { "J"@ } else { "N"@ })
}

pub fn de_text(s: &str) -> (e: DataElement)
    ensures
        e@ == text_element(s@),
{
    if s.is_empty() {
        DataElement::Empty
    } else {
        DataElement::Text(s.to_string())
    }
}

pub fn de_num(n: u32) -> (e: DataElement)
    ensures
        e@ == num_element(n as int),
{
    DataElement::Text(decimal_string(n as u128))
}

pub fn de_empty() -> (e: DataElement)
    ensures
        e@ == Element::Empty,
{
    DataElement::Empty
}

pub fn de_binary(bytes: Vec<u8>) -> (e: DataElement)
    ensures
        e@ == Element::Binary(bytes@),
{
    DataElement::Binary(bytes)
}

pub fn de_bool(b: bool) -> (e: DataElement)
    ensures
        e@ == bool_element(b),
{
    DataElement::Text(if b { "J".to_string() } else { "N".to_string() })
}

/// A date as `YYYYMMDD`.
pub fn de_date(date: Date) -> (e: DataElement)
    ensures
        e@ == Element::Text(compact_text(date@)),
{
    DataElement::Text(date.compact())
}

/// A DEG of the given elements.
pub fn deg(elements: Vec<DataElement>) -> (d: DEG)
    ensures
        d@ == views(elements@),
{
    DEG(elements)
}

/// A DEG of one element.
pub fn deg1(element: DataElement) -> (d: DEG)
    ensures
        d@ == seq![element@],
{
    let d = DEG(vec![element]);
    assert(d@ =~= seq![element@]);
    d
}

// ---- Laws ----

/// A text stands where it was put; places that hold no text, or that do not
/// exist, read as the empty text, which counts as none. Bytes are read as bytes
/// only.
pub proof fn law_place_read(seg: Seq<Group>, i: int, j: int)
    ensures
        0 <= i < seg.len() && 0 <= j < seg[i].len() ==> match seg[i][j] {
            Element::Text(s) => text_at(seg, i, j) == s && bytes_at(seg, i, j) is None && (s.len()
                > 0 ==> opt_text_at(seg, i, j) == Some(s)),
            Element::Binary(b) => bytes_at(seg, i, j) == Some(b) && text_at(seg, i, j).len() == 0,
            Element::Empty => bytes_at(seg, i, j) is None && text_at(seg, i, j).len() == 0,
        },
        !(0 <= i < seg.len() && 0 <= j < seg[i].len()) ==> text_at(seg, i, j).len() == 0
            && bytes_at(seg, i, j) is None,
        text_at(seg, i, j).len() == 0 ==> opt_text_at(seg, i, j) is None,
{
}

/// The header of a segment states its type, number and version.
pub proof fn law_header_read(
    seg: Seq<Group>,
    seg_type: Seq<char>,
    number: Element,
    version: nat,
    rest: Group,
)
    requires
        seg.len() > 0,
        version <= u16::MAX,
        seg[0] == seq![Element::Text(seg_type), number, Element::Text(decimal(version))] + rest,
    ensures
        type_of(seg) == seg_type,
        version_of(seg) == version,
{
    law_decimal_read(version);
    let s = decimal(version);
    assert(s[0] != '+' && s[0] != '-') by {
        assert(is_digit(s[0]));
    }
}

} // verus!
