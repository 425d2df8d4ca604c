//! What the bank answers.

use vstd::prelude::*;

use crate::codes::{
    codes_in, kind_is_error, kind_of, law_steering_codes, segment_codes, texts_from, Code, Kind,
    ResponseCode, ResponseCodeKind,
};
use crate::element::{bytes_at, group_views, text_at, type_of, views, Group, RawSegment};
use crate::error::{Failure, FinTSError, Result};
use crate::ids::{
    opt_of, opt_ref_of, ChallengeText, HhdUcData, SecurityFunction, TaskReference, TouchdownPoint,
};
use crate::numbers::{decimal, decimal_string};
use crate::parser::{malformed, parse_inner_segments, parse_message, parsed_message};
use crate::segments::response::{
    either, extract_allowed_security_functions, find_touchdown, first_allowed, first_error,
    first_touchdown, hitan_parts, parse_hitan,
};
use crate::text::{opt_view, same_text};

verus! {

// ---- TAN challenges ----

/// A TAN challenge.
#[derive(Debug)]
pub struct TanChallenge {
    pub challenge: ChallengeText,
    pub challenge_hhduc: Option<HhdUcData>,
    pub task_reference: TaskReference,
    pub decoupled: bool,
}

/// A TAN challenge as a value.
pub struct TanDemand {
    pub challenge: Seq<char>,
    pub challenge_hhduc: Option<Seq<u8>>,
    pub task_reference: Seq<char>,
    pub decoupled: bool,
}

impl View for TanChallenge {
    type V = TanDemand;

    open spec fn view(&self) -> TanDemand {
        TanDemand {
            challenge: self.challenge@,
            challenge_hhduc: opt_of(self.challenge_hhduc),
            task_reference: self.task_reference@,
            decoupled: self.decoupled,
        }
    }
}

pub fn clone_hhduc(d: &Option<HhdUcData>) -> (r: Option<HhdUcData>)
    ensures
        opt_of(r) == opt_of(*d),
{
    match d {
        Some(x) => Some(x.clone()),
        None => None,
    }
}

impl Clone for TanChallenge {
    fn clone(&self) -> (r: TanChallenge)
        ensures
            r@ == self@,
    {
        TanChallenge {
            challenge: self.challenge.clone(),
            challenge_hhduc: clone_hhduc(&self.challenge_hhduc),
            task_reference: self.task_reference.clone(),
            decoupled: self.decoupled,
        }
    }
}

// ---- Model ----

/// An answer as a value.
pub struct Reply {
    /// All segments; those inside encrypted data containers in their place.
    pub segments: Seq<Seq<Group>>,
    /// The codes of HIRMG segments, on the message as a whole.
    pub global_codes: Seq<Code>,
    /// The codes of HIRMS segments, on single segments.
    pub segment_codes: Seq<Code>,
}

/// The codes of an answer, those on the whole message first.
pub open spec fn reply_codes(r: Reply) -> Seq<Code> {
    r.global_codes + r.segment_codes
}

/// The segments of one type.
pub open spec fn segments_of(segs: Seq<Seq<Group>>, seg_type: Seq<char>) -> Seq<Seq<Group>>
    decreases segs.len(),
{
    if segs.len() == 0 {
        Seq::empty()
    } else {
        let before = segments_of(segs.drop_last(), seg_type);
        if type_of(segs.last()) == seg_type {
            before.push(segs.last())
        } else {
            before
        }
    }
}

/// The first segment of one type.
pub open spec fn first_segment(segs: Seq<Seq<Group>>, seg_type: Seq<char>) -> Option<Seq<Group>>
    decreases segs.len(),
{
    if segs.len() == 0 {
        None
    } else if type_of(segs[0]) == seg_type {
        Some(segs[0])
    } else {
        first_segment(segs.skip(1), seg_type)
    }
}

/// 0030 or 3955 is among the codes.
pub open spec fn demands_tan(codes: Seq<Code>) -> bool {
    exists|i: int|
        0 <= i < codes.len() && ((#[trigger] codes[i]).kind is TanRequired
            || codes[i].kind is DecoupledInitiated)
}

/// 3955 is among the codes.
pub open spec fn starts_decoupled(codes: Seq<Code>) -> bool {
    exists|i: int| 0 <= i < codes.len() && (#[trigger] codes[i]).kind is DecoupledInitiated
}

/// 3955 or 3956 is among the codes.
pub open spec fn awaits_decoupled(codes: Seq<Code>) -> bool {
    exists|i: int|
        0 <= i < codes.len() && ((#[trigger] codes[i]).kind is DecoupledInitiated
            || codes[i].kind is DecoupledPending)
}

/// 3076 is among the codes.
pub open spec fn exempts(codes: Seq<Code>) -> bool {
    exists|i: int| 0 <= i < codes.len() && (#[trigger] codes[i]).kind is ScaExemption
}

/// The point from which more data can be had: codes on segments come first.
pub open spec fn reply_touchdown(r: Reply) -> Option<Seq<char>> {
    either(first_touchdown(r.segment_codes), first_touchdown(r.global_codes))
}

/// The security functions that the user may sign with: codes on segments first.
pub open spec fn reply_allowed(r: Reply) -> Seq<Seq<char>> {
    first_allowed(r.segment_codes) + first_allowed(r.global_codes)
}

/// The challenge of the first HITAN segment, unless task reference and challenge
/// are both empty.
pub open spec fn reply_challenge(r: Reply) -> Option<TanDemand> {
    match first_segment(r.segments, "HITAN"@) {
        Some(seg) => {
            let (task_reference, challenge, hhduc) = hitan_parts(seg);
            if task_reference.len() == 0 && challenge.len() == 0 {
                None
            } else {
                Some(
                    TanDemand {
                        challenge,
                        challenge_hhduc: hhduc,
                        task_reference,
                        decoupled: starts_decoupled(reply_codes(r)),
                    },
                )
            }
        },
        None => None,
    }
}

/// The failure that an error code stands for.
pub open spec fn code_failure(c: Code) -> Failure {
    match c.kind {
        Kind::PinWrong => Failure::PinWrong,
        Kind::AccountLocked => Failure::AccountLocked,
        k => Failure::BankError { kind: k, message: c.text },
    }
}

/// The failure that an answer reports: that of its first error code.
pub open spec fn reply_failure(r: Reply) -> Option<Failure> {
    match first_error(reply_codes(r)) {
        Some(c) => Some(code_failure(c)),
        None => None,
    }
}

// ---- Answers ----

/// An answer of the bank.
#[derive(Debug)]
pub struct Response {
    /// All segments; those inside encrypted data containers in their place.
    pub segments: Vec<RawSegment>,
    /// The codes of HIRMG segments, on the message as a whole.
    pub global_codes: Vec<ResponseCode>,
    /// The codes of HIRMS segments, on single segments.
    pub segment_codes: Vec<ResponseCode>,
}

impl View for Response {
    type V = Reply;

    open spec fn view(&self) -> Reply {
        Reply {
            segments: views(self.segments@),
            global_codes: views(self.global_codes@),
            segment_codes: views(self.segment_codes@),
        }
    }
}

/// Which codes that steer a dialog are in a list.
struct CodeFlags {
    tan: bool,
    decoupled: bool,
    pending: bool,
    exempt: bool,
}

fn code_flags(codes: &Vec<ResponseCode>) -> (f: CodeFlags)
    ensures
        f.tan == demands_tan(views(codes@)),
        f.decoupled == starts_decoupled(views(codes@)),
        f.pending == awaits_decoupled(views(codes@)),
        f.exempt == exempts(views(codes@)),
{
    let ghost cv = views(codes@);
    let mut f = CodeFlags { tan: false, decoupled: false, pending: false, exempt: false };
    let mut i: usize = 0;
    while i < codes.len()
        invariant
            i <= codes@.len(),
            cv == views(codes@),
            f.tan == demands_tan(cv.take(i as int)),
            f.decoupled == starts_decoupled(cv.take(i as int)),
            f.pending == awaits_decoupled(cv.take(i as int)),
            f.exempt == exempts(cv.take(i as int)),
        decreases codes@.len() - i,
    {
        let c = &codes[i];
        let exempt: bool = match c.kind {
            ResponseCodeKind::ScaExemption => true,
            _ => false,
        };
        proof {
            lemma_flags_step(cv, i as int);
            assert(cv[i as int] == c@);
        }
        f = CodeFlags {
            tan: f.tan || c.is_tan_required() || c.is_decoupled(),
            decoupled: f.decoupled || c.is_decoupled(),
            pending: f.pending || c.is_decoupled_pending(),
            exempt: f.exempt || exempt,
        };
        i += 1;
    }
    assert(cv.take(i as int) =~= cv);
    f
}

proof fn lemma_flags_step(codes: Seq<Code>, i: int)
    requires
        0 <= i < codes.len(),
    ensures
        demands_tan(codes.take(i + 1)) == (demands_tan(codes.take(i))
            || codes[i].kind is TanRequired || codes[i].kind is DecoupledInitiated),
        starts_decoupled(codes.take(i + 1)) == (starts_decoupled(codes.take(i))
            || codes[i].kind is DecoupledInitiated),
        awaits_decoupled(codes.take(i + 1)) == (awaits_decoupled(codes.take(i))
            || codes[i].kind is DecoupledInitiated || codes[i].kind is DecoupledPending),
        exempts(codes.take(i + 1)) == (exempts(codes.take(i)) || codes[i].kind is ScaExemption),
{
    let a = codes.take(i);
    let b = codes.take(i + 1);
    assert(b[i] == codes[i]);
    assert forall|k: int| 0 <= k < i implies #[trigger] a[k] == b[k] by {}
    if demands_tan(a) {
        let k = choose|k: int|
            0 <= k < a.len() && ((#[trigger] a[k]).kind is TanRequired
                || a[k].kind is DecoupledInitiated);
        assert(b[k] == a[k]);
    }
    if starts_decoupled(a) {
        let k = choose|k: int| 0 <= k < a.len() && (#[trigger] a[k]).kind is DecoupledInitiated;
        assert(b[k] == a[k]);
    }
    if awaits_decoupled(a) {
        let k = choose|k: int|
            0 <= k < a.len() && ((#[trigger] a[k]).kind is DecoupledInitiated
                || a[k].kind is DecoupledPending);
        assert(b[k] == a[k]);
    }
    if exempts(a) {
        let k = choose|k: int| 0 <= k < a.len() && (#[trigger] a[k]).kind is ScaExemption;
        assert(b[k] == a[k]);
    }
    if demands_tan(b) {
        let k = choose|k: int|
            0 <= k < b.len() && ((#[trigger] b[k]).kind is TanRequired
                || b[k].kind is DecoupledInitiated);
        if k < i {
            assert(a[k] == b[k]);
        }
    }
    if starts_decoupled(b) {
        let k = choose|k: int| 0 <= k < b.len() && (#[trigger] b[k]).kind is DecoupledInitiated;
        if k < i {
            assert(a[k] == b[k]);
        }
    }
    if awaits_decoupled(b) {
        let k = choose|k: int|
            0 <= k < b.len() && ((#[trigger] b[k]).kind is DecoupledInitiated
                || b[k].kind is DecoupledPending);
        if k < i {
            assert(a[k] == b[k]);
        }
    }
    if exempts(b) {
        let k = choose|k: int| 0 <= k < b.len() && (#[trigger] b[k]).kind is ScaExemption;
        if k < i {
            assert(a[k] == b[k]);
        }
    }
}

/// A code is in joined lists where it is in one of them.
proof fn lemma_flags_add(a: Seq<Code>, b: Seq<Code>)
    ensures
        demands_tan(a + b) == (demands_tan(a) || demands_tan(b)),
        starts_decoupled(a + b) == (starts_decoupled(a) || starts_decoupled(b)),
        awaits_decoupled(a + b) == (awaits_decoupled(a) || awaits_decoupled(b)),
        exempts(a + b) == (exempts(a) || exempts(b)),
    decreases b.len(),
{
    if b.len() == 0 {
        assert(a + b =~= a);
    } else {
        let n = (a + b).len() - 1;
        lemma_flags_add(a, b.drop_last());
        lemma_flags_step(a + b, n);
        lemma_flags_step(b, b.len() - 1);
        assert((a + b).take(n) =~= a + b.drop_last());
        assert((a + b).take(n + 1) =~= a + b);
        assert(b.take(b.len() - 1) =~= b.drop_last());
        assert(b.take(b.len() as int) =~= b);
    }
}

/// The first error of joined lists is that of the first list that has one.
proof fn lemma_first_error_add(a: Seq<Code>, b: Seq<Code>)
    ensures
        first_error(a + b) == (if first_error(a) is Some {
            first_error(a)
        } else {
            first_error(b)
        }),
    decreases a.len(),
{
    if a.len() == 0 {
        assert(a + b =~= b);
    } else {
        assert((a + b)[0] == a[0]);
        assert((a + b).skip(1) =~= a.skip(1) + b);
        lemma_first_error_add(a.skip(1), b);
    }
}

fn code_error(c: &ResponseCode) -> (e: FinTSError)
    requires
        kind_is_error(c@.kind),
    ensures
        e@ == code_failure(c@),
{
    match &c.kind {
        ResponseCodeKind::PinWrong => FinTSError::PinWrong,
        ResponseCodeKind::AccountLocked => FinTSError::AccountLocked,
        _ => FinTSError::BankError { kind: c.kind.clone(), message: c.text.clone() },
    }
}

proof fn lemma_first_error_is_error(codes: Seq<Code>)
    ensures
        first_error(codes) matches Some(c) ==> kind_is_error(c.kind),
    decreases codes.len(),
{
    if codes.len() > 0 {
        lemma_first_error_is_error(codes.skip(1));
    }
}

impl Response {
    /// The segments of one type.
    pub fn find_segments(&self, seg_type: &str) -> (found: Vec<&RawSegment>)
        ensures
            views(found@) == segments_of(self@.segments, seg_type@),
    {
        broadcast use group_views;

        let ghost segs = views(self.segments@);
        let mut found: Vec<&RawSegment> = Vec::new();
        let mut i: usize = 0;
        while i < self.segments.len()
            invariant
                i <= self.segments@.len(),
                segs == views(self.segments@),
                views(found@) == segments_of(segs.take(i as int), seg_type@),
            decreases self.segments@.len() - i,
        {
            broadcast use group_views;

            let seg = &self.segments[i];
            proof {
                assert(segs.take(i + 1).drop_last() =~= segs.take(i as int));
                assert(segs.take(i + 1).last() == seg@);
            }
            if same_text(seg.segment_type(), seg_type) {
                found.push(seg);
            }
            i += 1;
        }
        assert(segs.take(i as int) =~= segs);
        found
    }

    /// The first segment of one type.
    pub fn find_segment(&self, seg_type: &str) -> (found: Option<&RawSegment>)
        ensures
            opt_ref_of(found) == first_segment(self@.segments, seg_type@),
    {
        find_first(&self.segments, seg_type)
    }

    /// The codes of the answer, those on the whole message first.
    pub fn all_codes(&self) -> (codes: Vec<&ResponseCode>)
        ensures
            views(codes@) == reply_codes(self@),
    {
        broadcast use group_views;

        let mut codes: Vec<&ResponseCode> = Vec::new();
        let mut i: usize = 0;
        while i < self.global_codes.len()
            invariant
                i <= self.global_codes@.len(),
                views(codes@) =~= views(self.global_codes@).take(i as int),
            decreases self.global_codes@.len() - i,
        {
            broadcast use group_views;

            codes.push(&self.global_codes[i]);
            i += 1;
        }
        let mut j: usize = 0;
        while j < self.segment_codes.len()
            invariant
                j <= self.segment_codes@.len(),
                views(codes@) =~= views(self.global_codes@) + views(self.segment_codes@).take(
                    j as int,
                ),
            decreases self.segment_codes@.len() - j,
        {
            broadcast use group_views;

            codes.push(&self.segment_codes[j]);
            j += 1;
        }
        codes
    }

    /// 0030 or 3955: a TAN is required.
    pub fn needs_tan(&self) -> (b: bool)
        ensures
            b == demands_tan(reply_codes(self@)),
    {
        proof {
            lemma_flags_add(self@.global_codes, self@.segment_codes);
        }
        code_flags(&self.global_codes).tan || code_flags(&self.segment_codes).tan
    }

    /// 3955: strong authentication goes on in another channel.
    pub fn is_decoupled(&self) -> (b: bool)
        ensures
            b == starts_decoupled(reply_codes(self@)),
    {
        proof {
            lemma_flags_add(self@.global_codes, self@.segment_codes);
        }
        code_flags(&self.global_codes).decoupled || code_flags(&self.segment_codes).decoupled
    }

    /// 3955 or 3956: it is still under way there.
    pub fn is_decoupled_pending(&self) -> (b: bool)
        ensures
            b == awaits_decoupled(reply_codes(self@)),
    {
        proof {
            lemma_flags_add(self@.global_codes, self@.segment_codes);
        }
        code_flags(&self.global_codes).pending || code_flags(&self.segment_codes).pending
    }

    /// 3076: no strong authentication required.
    pub fn has_sca_exemption(&self) -> (b: bool)
        ensures
            b == exempts(reply_codes(self@)),
    {
        proof {
            lemma_flags_add(self@.global_codes, self@.segment_codes);
        }
        code_flags(&self.global_codes).exempt || code_flags(&self.segment_codes).exempt
    }

    /// The point from which more data can be had, where there is more.
    pub fn touchdown(&self) -> (res: Option<TouchdownPoint>)
        ensures
            opt_of(res) == reply_touchdown(self@),
    {
        let own = find_touchdown(self.segment_codes.as_slice());
        if own.is_some() {
            own
        } else {
            find_touchdown(self.global_codes.as_slice())
        }
    }

    /// The TAN challenge, where the answer holds one.
    pub fn get_tan_challenge(&self) -> (res: Option<TanChallenge>)
        ensures
            opt_of(res) == reply_challenge(self@),
    {
        match self.find_segment("HITAN") {
            Some(hitan) => {
                let (task_reference, challenge, hhduc) = parse_hitan(hitan);
                if task_reference.as_str().is_empty() && challenge.as_str().is_empty() {
                    return None;
                }
                Some(
                    TanChallenge {
                        challenge: ChallengeText::new(challenge.as_str()),
                        challenge_hhduc: match hhduc {
                            Some(b) => Some(HhdUcData(b)),
                            None => None,
                        },
                        task_reference: TaskReference::new(task_reference.as_str()),
                        decoupled: self.is_decoupled(),
                    },
                )
            },
            None => None,
        }
    }

    /// Fails with what the first error code stands for.
    pub fn check_errors(&self) -> (res: Result<()>)
        ensures
            match res {
                Ok(_) => reply_failure(self@) is None,
                Err(e) => reply_failure(self@) == Some(e@),
            },
    {
        proof {
            lemma_first_error_add(self@.global_codes, self@.segment_codes);
            lemma_first_error_is_error(self@.global_codes);
            lemma_first_error_is_error(self@.segment_codes);
        }
        match crate::segments::response::find_error(self.global_codes.as_slice()) {
            Some(c) => {
                return Err(code_error(c));
            },
            None => {},
        }
        match crate::segments::response::find_error(self.segment_codes.as_slice()) {
            Some(c) => Err(code_error(c)),
            None => Ok(()),
        }
    }

    /// The security functions that code 3920 allows.
    pub fn allowed_security_functions(&self) -> (fs: Vec<SecurityFunction>)
        ensures
            views(fs@) == reply_allowed(self@),
    {
        broadcast use group_views;

        let mut fs = extract_allowed_security_functions(self.segment_codes.as_slice());
        let mut more = extract_allowed_security_functions(self.global_codes.as_slice());
        fs.append(&mut more);
        fs
    }
}

fn find_first<'a>(segments: &'a Vec<RawSegment>, seg_type: &str) -> (found: Option<&'a RawSegment>)
    ensures
        opt_ref_of(found) == first_segment(views(segments@), seg_type@),
{
    let ghost segs = views(segments@);
    let mut i: usize = 0;
    assert(segs.skip(0) =~= segs);
    while i < segments.len()
        invariant
            i <= segments@.len(),
            segs == views(segments@),
            first_segment(segs.skip(i as int), seg_type@) == first_segment(segs, seg_type@),
        decreases segments@.len() - i,
    {
        assert(segs.skip(i as int)[0] == segments@[i as int]@);
        assert(segs.skip(i as int).skip(1) =~= segs.skip(i + 1));
        if same_text(segments[i].segment_type(), seg_type) {
            return Some(&segments[i]);
        }
        i += 1;
    }
    None
}

// ---- Reading answers ----

/// What stands in place of a segment: the segments inside, where it is an
/// encrypted data container, and nothing where those are malformed.
pub open spec fn unwrapped(seg: Seq<Group>) -> Seq<Seq<Group>> {
    if type_of(seg) == "HNVSD"@ {
        match bytes_at(seg, 1, 0) {
            Some(b) => match parsed_message(b) {
                Some(inner) => inner,
                None => Seq::empty(),
            },
            None => Seq::empty(),
        }
    } else {
        seq![seg]
    }
}

/// The segments of a message with those inside containers in their place.
pub open spec fn flattened(outer: Seq<Seq<Group>>) -> Seq<Seq<Group>>
    decreases outer.len(),
{
    if outer.len() == 0 {
        Seq::empty()
    } else {
        flattened(outer.drop_last()) + unwrapped(outer.last())
    }
}

/// The codes in all segments of one type.
pub open spec fn codes_of(segs: Seq<Seq<Group>>, seg_type: Seq<char>) -> Seq<Code>
    decreases segs.len(),
{
    if segs.len() == 0 {
        Seq::empty()
    } else {
        let before = codes_of(segs.drop_last(), seg_type);
        if type_of(segs.last()) == seg_type {
            before + segment_codes(segs.last())
        } else {
            before
        }
    }
}

/// The answer that the segments of a message make.
pub open spec fn reply_of(outer: Seq<Seq<Group>>) -> Reply {
    let segments = flattened(outer);
    Reply {
        segments,
        global_codes: codes_of(segments, "HIRMG"@),
        segment_codes: codes_of(segments, "HIRMS"@),
    }
}

/// The number that an answer's header states, where it states another one than
/// expected.
pub open spec fn other_number(outer: Seq<Seq<Group>>, expected: int) -> Option<Seq<char>> {
    match first_segment(outer, "HNHBK"@) {
        Some(header) => {
            let stated = text_at(header, 4, 0);
            if stated.len() == 0 || stated == decimal(expected as nat) {
                None
            } else {
                Some(stated)
            }
        },
        None => None,
    }
}

fn flatten(outer: &Vec<RawSegment>) -> (all: Vec<RawSegment>)
    ensures
        views(all@) == flattened(views(outer@)),
{
    broadcast use group_views;

    let ghost segs = views(outer@);
    let mut all: Vec<RawSegment> = Vec::new();
    let mut i: usize = 0;
    while i < outer.len()
        invariant
            i <= outer@.len(),
            segs == views(outer@),
            views(all@) == flattened(segs.take(i as int)),
        decreases outer@.len() - i,
    {
        broadcast use group_views;

        let seg = &outer[i];
        let ghost before = views(all@);
        proof {
            assert(segs.take(i + 1).drop_last() =~= segs.take(i as int));
            assert(segs.take(i + 1).last() == seg@);
        }
        if same_text(seg.segment_type(), "HNVSD") {
            assert(before + Seq::<Seq<Group>>::empty() =~= before);
            if let Some(binary) = seg.element(1, 0).as_bytes() {
                if let Ok(inner) = parse_inner_segments(binary) {
                    let mut inner = inner;
                    all.append(&mut inner);
                }
            }
        } else {
            all.push(seg.clone());
            assert(views(all@) =~= before + seq![seg@]);
        }
        i += 1;
    }
    assert(segs.take(i as int) =~= segs);
    all
}

fn collect_codes(segments: &Vec<RawSegment>, seg_type: &str) -> (codes: Vec<ResponseCode>)
    ensures
        views(codes@) == codes_of(views(segments@), seg_type@),
{
    broadcast use group_views;

    let ghost segs = views(segments@);
    let mut codes: Vec<ResponseCode> = Vec::new();
    let mut i: usize = 0;
    while i < segments.len()
        invariant
            i <= segments@.len(),
            segs == views(segments@),
            views(codes@) == codes_of(segs.take(i as int), seg_type@),
        decreases segments@.len() - i,
    {
        broadcast use group_views;

        let seg = &segments[i];
        proof {
            assert(segs.take(i + 1).drop_last() =~= segs.take(i as int));
            assert(segs.take(i + 1).last() == seg@);
        }
        if same_text(seg.segment_type(), seg_type) {
            let mut more = ResponseCode::parse_from_segment(seg);
            codes.append(&mut more);
        }
        i += 1;
    }
    assert(segs.take(i as int) =~= segs);
    codes
}

/// Reads an answer. With it comes the message number that the bank states where
/// that is not the expected one.
pub fn parse_response(data: &[u8], expected_msg_num: u16) -> (res: Result<
    (Response, Option<String>),
>)
    ensures
        match res {
            Ok(r) => parsed_message(data@) matches Some(outer) && r.0@ == reply_of(outer)
                && opt_view(r.1) == other_number(outer, expected_msg_num as int),
            Err(e) => parsed_message(data@) is None && e@ == malformed(),
        },
{
    let outer = match parse_message(data) {
        Ok(segs) => segs,
        Err(e) => {
            return Err(e);
        },
    };
    let other = match find_first(&outer, "HNHBK") {
        Some(header) => {
            let stated = header.element(4, 0).as_str();
            if stated.is_empty() || same_text(
                stated,
                decimal_string(expected_msg_num as u128).as_str(),
            ) {
                None
            } else {
                Some(stated.to_string())
            }
        },
        None => None,
    };
    let segments = flatten(&outer);
    let global_codes = collect_codes(&segments, "HIRMG");
    let segment_codes = collect_codes(&segments, "HIRMS");
    Ok((Response { segments, global_codes, segment_codes }, other))
}

// ---- Laws ----

/// A decoupled task that starts demands a TAN and is pending.
pub proof fn law_decoupled(r: Reply)
    requires
        starts_decoupled(reply_codes(r)),
    ensures
        demands_tan(reply_codes(r)),
        awaits_decoupled(reply_codes(r)),
{
    let codes = reply_codes(r);
    let k = choose|k: int|
        0 <= k < codes.len() && (#[trigger] codes[k]).kind is DecoupledInitiated;
    assert(codes[k].kind is DecoupledInitiated);
}

/// An answer fails if and only if one of its codes is an error, and what the
/// first such code stands for is the failure.
pub proof fn law_failure(r: Reply)
    ensures
        reply_failure(r) is Some <==> exists|i: int|
            0 <= i < reply_codes(r).len() && kind_is_error((#[trigger] reply_codes(r)[i]).kind),
        forall|i: int|
            0 <= i < reply_codes(r).len() && kind_is_error((#[trigger] reply_codes(r)[i]).kind)
                && (forall|j: int|
                0 <= j < i ==> !kind_is_error((#[trigger] reply_codes(r)[j]).kind))
                ==> reply_failure(r) == Some(code_failure(reply_codes(r)[i])),
{
    let codes = reply_codes(r);
    lemma_first_error_some(codes);
    assert forall|i: int|
        0 <= i < codes.len() && kind_is_error((#[trigger] codes[i]).kind) && (forall|j: int|
            0 <= j < i ==> !kind_is_error((#[trigger] codes[j]).kind)) implies first_error(codes)
        == Some(codes[i]) by {
        lemma_first_error_at(codes, i);
    }
}

proof fn lemma_first_error_some(codes: Seq<Code>)
    ensures
        first_error(codes) is Some <==> exists|i: int|
            0 <= i < codes.len() && kind_is_error((#[trigger] codes[i]).kind),
    decreases codes.len(),
{
    if codes.len() > 0 {
        let rest = codes.skip(1);
        lemma_first_error_some(rest);
        if exists|i: int| 0 <= i < rest.len() && kind_is_error((#[trigger] rest[i]).kind) {
            let i = choose|i: int| 0 <= i < rest.len() && kind_is_error((#[trigger] rest[i]).kind);
            assert(codes[i + 1] == rest[i]);
        }
        if exists|i: int| 0 <= i < codes.len() && kind_is_error((#[trigger] codes[i]).kind) {
            let i = choose|i: int|
                0 <= i < codes.len() && kind_is_error((#[trigger] codes[i]).kind);
            if i > 0 {
                assert(rest[i - 1] == codes[i]);
            }
        }
    }
}

proof fn lemma_first_error_at(codes: Seq<Code>, i: int)
    requires
        0 <= i < codes.len(),
        kind_is_error(codes[i].kind),
        forall|j: int| 0 <= j < i ==> !kind_is_error((#[trigger] codes[j]).kind),
    ensures
        first_error(codes) == Some(codes[i]),
    decreases codes.len(),
{
    if i > 0 {
        let rest = codes.skip(1);
        assert(rest[i - 1] == codes[i]);
        assert forall|j: int| 0 <= j < i - 1 implies !kind_is_error((#[trigger] rest[j]).kind) by {
            assert(rest[j] == codes[j + 1]);
        }
        assert(!kind_is_error(codes[0].kind));
        lemma_first_error_at(rest, i - 1);
    }
}

proof fn lemma_first_segment(segs: Seq<Seq<Group>>, seg_type: Seq<char>, k: int)
    requires
        0 <= k < segs.len(),
        type_of(segs[k]) == seg_type,
        forall|i: int| 0 <= i < k ==> type_of(#[trigger] segs[i]) != seg_type,
    ensures
        first_segment(segs, seg_type) == Some(segs[k]),
    decreases k,
{
    if k > 0 {
        let rest = segs.skip(1);
        assert(type_of(segs[0]) != seg_type);
        assert(rest[k - 1] == segs[k]);
        assert forall|i: int| 0 <= i < k - 1 implies type_of(#[trigger] rest[i]) != seg_type by {
            assert(rest[i] == segs[i + 1]);
        }
        lemma_first_segment(rest, seg_type, k - 1);
    }
}

proof fn lemma_no_segment(segs: Seq<Seq<Group>>, seg_type: Seq<char>)
    requires
        forall|i: int| 0 <= i < segs.len() ==> type_of(#[trigger] segs[i]) != seg_type,
    ensures
        first_segment(segs, seg_type) is None,
    decreases segs.len(),
{
    if segs.len() > 0 {
        let rest = segs.skip(1);
        assert(type_of(segs[0]) != seg_type);
        assert forall|i: int| 0 <= i < rest.len() implies type_of(#[trigger] rest[i]) != seg_type by {
            assert(rest[i] == segs[i + 1]);
        }
        lemma_no_segment(rest, seg_type);
    }
}

/// The first segment of a type is the one of that type that no other of it stands
/// in front of; there is none where no segment has the type.
pub proof fn law_first_segment(segs: Seq<Seq<Group>>, seg_type: Seq<char>, k: int)
    ensures
        0 <= k < segs.len() && type_of(segs[k]) == seg_type && (forall|i: int|
            0 <= i < k ==> type_of(#[trigger] segs[i]) != seg_type) ==> first_segment(
            segs,
            seg_type,
        ) == Some(segs[k]),
        (forall|i: int| 0 <= i < segs.len() ==> type_of(#[trigger] segs[i]) != seg_type)
            ==> first_segment(segs, seg_type) is None,
{
    if 0 <= k < segs.len() && type_of(segs[k]) == seg_type && (forall|i: int|
        0 <= i < k ==> type_of(#[trigger] segs[i]) != seg_type) {
        lemma_first_segment(segs, seg_type, k);
    }
    if forall|i: int| 0 <= i < segs.len() ==> type_of(#[trigger] segs[i]) != seg_type {
        lemma_no_segment(segs, seg_type);
    }
}

/// Each segment of a type is found, in order, and no other.
pub proof fn law_segments_found(segs: Seq<Seq<Group>>, seg: Seq<Group>, seg_type: Seq<char>)
    ensures
        segments_of(segs.push(seg), seg_type) == (if type_of(seg) == seg_type {
            segments_of(segs, seg_type).push(seg)
        } else {
            segments_of(segs, seg_type)
        }),
        segments_of(Seq::<Seq<Group>>::empty(), seg_type).len() == 0,
{
    assert(segs.push(seg).drop_last() =~= segs);
}

proof fn lemma_touchdown_at(codes: Seq<Code>, k: int)
    requires
        0 <= k < codes.len(),
        forall|i: int| 0 <= i < k ==> !((#[trigger] codes[i]).kind is Touchdown),
    ensures
        codes[k].kind matches Kind::Touchdown(t) ==> first_touchdown(codes) == Some(t),
    decreases k,
{
    if k > 0 {
        let rest = codes.skip(1);
        assert(!(codes[0].kind is Touchdown));
        assert(rest[k - 1] == codes[k]);
        assert forall|i: int| 0 <= i < k - 1 implies !((#[trigger] rest[i]).kind is Touchdown) by {
            assert(rest[i] == codes[i + 1]);
        }
        lemma_touchdown_at(rest, k - 1);
    }
}

proof fn lemma_no_touchdown(codes: Seq<Code>)
    requires
        forall|i: int| 0 <= i < codes.len() ==> !((#[trigger] codes[i]).kind is Touchdown),
    ensures
        first_touchdown(codes) is None,
    decreases codes.len(),
{
    if codes.len() > 0 {
        let rest = codes.skip(1);
        assert(!(codes[0].kind is Touchdown));
        assert forall|i: int| 0 <= i < rest.len() implies !((
        #[trigger] rest[i]).kind is Touchdown) by {
            assert(rest[i] == codes[i + 1]);
        }
        lemma_no_touchdown(rest);
    }
}

/// The point to go on from is that of the first code on a segment that states
/// one; codes on the whole message count where none does.
pub proof fn law_touchdown(r: Reply, k: int)
    ensures
        0 <= k < r.segment_codes.len() && (forall|i: int|
            0 <= i < k ==> !((#[trigger] r.segment_codes[i]).kind is Touchdown)) ==> (
        r.segment_codes[k].kind matches Kind::Touchdown(t) ==> reply_touchdown(r) == Some(t)),
        (forall|i: int|
            0 <= i < r.segment_codes.len() ==> !((
            #[trigger] r.segment_codes[i]).kind is Touchdown)) && 0 <= k < r.global_codes.len() && (
        forall|i: int| 0 <= i < k ==> !((#[trigger] r.global_codes[i]).kind is Touchdown)) ==> (
        r.global_codes[k].kind matches Kind::Touchdown(t) ==> reply_touchdown(r) == Some(t)),
        (forall|i: int|
            0 <= i < reply_codes(r).len() ==> !((#[trigger] reply_codes(r)[i]).kind is Touchdown))
            ==> reply_touchdown(r) is None,
{
    if 0 <= k < r.segment_codes.len() && (forall|i: int|
        0 <= i < k ==> !((#[trigger] r.segment_codes[i]).kind is Touchdown)) {
        lemma_touchdown_at(r.segment_codes, k);
    }
    if forall|i: int|
        0 <= i < r.segment_codes.len() ==> !((#[trigger] r.segment_codes[i]).kind is Touchdown) {
        lemma_no_touchdown(r.segment_codes);
        if 0 <= k < r.global_codes.len() && (forall|i: int|
            0 <= i < k ==> !((#[trigger] r.global_codes[i]).kind is Touchdown)) {
            lemma_touchdown_at(r.global_codes, k);
        }
    }
    if forall|i: int|
        0 <= i < reply_codes(r).len() ==> !((#[trigger] reply_codes(r)[i]).kind is Touchdown) {
        assert forall|i: int| 0 <= i < r.segment_codes.len() implies !((
        #[trigger] r.segment_codes[i]).kind is Touchdown) by {
            assert(reply_codes(r)[r.global_codes.len() + i] == r.segment_codes[i]);
        }
        assert forall|i: int| 0 <= i < r.global_codes.len() implies !((
        #[trigger] r.global_codes[i]).kind is Touchdown) by {
            assert(reply_codes(r)[i] == r.global_codes[i]);
        }
        lemma_no_touchdown(r.segment_codes);
        lemma_no_touchdown(r.global_codes);
    }
}

proof fn lemma_allowed_at(codes: Seq<Code>, k: int)
    requires
        0 <= k < codes.len(),
        forall|i: int|
            0 <= i < k ==> !((#[trigger] codes[i]).kind is AllowedSecurityFunctions),
    ensures
        codes[k].kind matches Kind::AllowedSecurityFunctions(fs) ==> first_allowed(codes) == fs,
    decreases k,
{
    if k > 0 {
        let rest = codes.skip(1);
        assert(!(codes[0].kind is AllowedSecurityFunctions));
        assert(rest[k - 1] == codes[k]);
        assert forall|i: int| 0 <= i < k - 1 implies !((
        #[trigger] rest[i]).kind is AllowedSecurityFunctions) by {
            assert(rest[i] == codes[i + 1]);
        }
        lemma_allowed_at(rest, k - 1);
    }
}

proof fn lemma_none_allowed(codes: Seq<Code>)
    requires
        forall|i: int|
            0 <= i < codes.len() ==> !((#[trigger] codes[i]).kind is AllowedSecurityFunctions),
    ensures
        first_allowed(codes).len() == 0,
    decreases codes.len(),
{
    if codes.len() > 0 {
        let rest = codes.skip(1);
        assert(!(codes[0].kind is AllowedSecurityFunctions));
        assert forall|i: int| 0 <= i < rest.len() implies !((
        #[trigger] rest[i]).kind is AllowedSecurityFunctions) by {
            assert(rest[i] == codes[i + 1]);
        }
        lemma_none_allowed(rest);
    }
}

/// The functions that are allowed are those of the first code on a segment that
/// allows some and of the first one on the whole message, in this order.
pub proof fn law_allowed(r: Reply, j: int, k: int)
    requires
        0 <= j <= r.segment_codes.len(),
        0 <= k <= r.global_codes.len(),
        forall|i: int|
            0 <= i < j ==> !((#[trigger] r.segment_codes[i]).kind is AllowedSecurityFunctions),
        forall|i: int|
            0 <= i < k ==> !((#[trigger] r.global_codes[i]).kind is AllowedSecurityFunctions),
        j < r.segment_codes.len() ==> r.segment_codes[j].kind is AllowedSecurityFunctions,
        k < r.global_codes.len() ==> r.global_codes[k].kind is AllowedSecurityFunctions,
    ensures
        reply_allowed(r) == (if j < r.segment_codes.len() {
            r.segment_codes[j].kind->AllowedSecurityFunctions_0
        } else {
            Seq::empty()
        }) + (if k < r.global_codes.len() {
            r.global_codes[k].kind->AllowedSecurityFunctions_0
        } else {
            Seq::empty()
        }),
{
    if j < r.segment_codes.len() {
        lemma_allowed_at(r.segment_codes, j);
    } else {
        lemma_none_allowed(r.segment_codes);
        assert(first_allowed(r.segment_codes) =~= Seq::<Seq<char>>::empty());
    }
    if k < r.global_codes.len() {
        lemma_allowed_at(r.global_codes, k);
    } else {
        lemma_none_allowed(r.global_codes);
        assert(first_allowed(r.global_codes) =~= Seq::<Seq<char>>::empty());
    }
}

/// The challenge of an answer is that of its first HITAN segment, and decoupled
/// where code 3955 says so.
pub proof fn law_challenge(r: Reply)
    ensures
        match reply_challenge(r) {
            Some(c) => {
                &&& first_segment(r.segments, "HITAN"@) matches Some(seg)
                &&& (c.task_reference, c.challenge, c.challenge_hhduc) == hitan_parts(seg)
                &&& c.decoupled <==> exists|i: int|
                    0 <= i < reply_codes(r).len() && (
                    #[trigger] reply_codes(r)[i]).kind is DecoupledInitiated
                &&& c.task_reference.len() > 0 || c.challenge.len() > 0
            },
            None => first_segment(r.segments, "HITAN"@) matches Some(seg) ==> hitan_parts(
                seg,
            ).0.len() == 0 && hitan_parts(seg).1.len() == 0,
        },
{
}

/// The failures that error codes stand for. A bank error keeps kind and text.
pub proof fn law_code_failure(c: Code)
    ensures
        c.kind is PinWrong ==> code_failure(c) == Failure::PinWrong,
        c.kind is AccountLocked ==> code_failure(c) == Failure::AccountLocked,
        c.kind is Error ==> code_failure(c) == (Failure::BankError {
            kind: c.kind,
            message: c.text,
        }),
{
}

/// The segments of messages one behind the other are those of the first and then
/// those of the second.
pub proof fn law_flattened_joined(a: Seq<Seq<Group>>, b: Seq<Seq<Group>>)
    ensures
        flattened(a + b) == flattened(a) + flattened(b),
    decreases b.len(),
{
    let all = a + b;
    if b.len() == 0 {
        assert(all =~= a);
        assert(flattened(a) + flattened(b) =~= flattened(a));
    } else {
        law_flattened_joined(a, b.drop_last());
        assert(all.drop_last() =~= a + b.drop_last());
        assert(all.last() == b.last());
        assert(flattened(all) =~= flattened(a) + flattened(b));
    }
}

/// A container stands for the segments that its bytes hold, and every other
/// segment for itself.
pub proof fn law_unwrapped(seg: Seq<Group>)
    ensures
        type_of(seg) != "HNVSD"@ ==> flattened(seq![seg]) == seq![seg],
        type_of(seg) == "HNVSD"@ ==> (bytes_at(seg, 1, 0) matches Some(b) ==> (parsed_message(
            b,
        ) matches Some(inner) ==> flattened(seq![seg]) == inner)),
        type_of(seg) == "HNVSD"@ && (bytes_at(seg, 1, 0) is None || parsed_message(
            bytes_at(seg, 1, 0)->0,
        ) is None) ==> flattened(seq![seg]).len() == 0,
{
    assert(seq![seg].drop_last() =~= Seq::<Seq<Group>>::empty());
    assert(flattened(seq![seg].drop_last()) =~= Seq::<Seq<Group>>::empty());
    assert(flattened(seq![seg]) =~= unwrapped(seg));
}

/// One more segment adds its codes to those on the whole message where it is a
/// HIRMG, to those on segments where it is a HIRMS, and to none otherwise.
pub proof fn law_codes_added(outer: Seq<Seq<Group>>, seg: Seq<Group>)
    requires
        type_of(seg) != "HNVSD"@,
    ensures
        ({
            let before = reply_of(outer);
            let after = reply_of(outer.push(seg));
            &&& after.segments == before.segments.push(seg)
            &&& after.global_codes == (if type_of(seg) == "HIRMG"@ {
                before.global_codes + segment_codes(seg)
            } else {
                before.global_codes
            })
            &&& after.segment_codes == (if type_of(seg) == "HIRMS"@ {
                before.segment_codes + segment_codes(seg)
            } else {
                before.segment_codes
            })
        }),
{
    law_unwrapped(seg);
    law_flattened_joined(outer, seq![seg]);
    assert(outer.push(seg) =~= outer + seq![seg]);
    let segs = flattened(outer);
    assert(segs + seq![seg] =~= segs.push(seg));
    assert(segs.push(seg).drop_last() =~= segs);
    reveal_strlit("HIRMG");
    reveal_strlit("HIRMS");
    assert("HIRMG"@[4] != "HIRMS"@[4]);
}

/// A message number is reported where the answer states another one.
pub proof fn law_other_number(outer: Seq<Seq<Group>>, expected: int)
    ensures
        match other_number(outer, expected) {
            Some(s) => {
                &&& first_segment(outer, "HNHBK"@) matches Some(header)
                &&& s == text_at(header, 4, 0)
                &&& s.len() > 0
                &&& s != decimal(expected as nat)
            },
            None => first_segment(outer, "HNHBK"@) matches Some(header) ==> text_at(
                header,
                4,
                0,
            ).len() == 0 || text_at(header, 4, 0) == decimal(expected as nat),
        },
{
}

/// Whether the kinds of some codes are those of their numbers.
spec fn kinds_match(codes: Seq<Code>) -> bool {
    forall|i: int|
        0 <= i < codes.len() ==> exists|params: Seq<Seq<char>>|
            (#[trigger] codes[i]).kind == #[trigger] kind_of(codes[i].code, params)
}

proof fn lemma_kinds_in(groups: Seq<Group>)
    ensures
        kinds_match(codes_in(groups)),
    decreases groups.len(),
{
    if groups.len() > 0 {
        lemma_kinds_in(groups.drop_last());
        let before = codes_in(groups.drop_last());
        let codes = codes_in(groups);
        let g = groups.last();
        assert forall|i: int| 0 <= i < codes.len() implies exists|params: Seq<Seq<char>>|
            (#[trigger] codes[i]).kind == #[trigger] kind_of(codes[i].code, params) by {
            if i < before.len() {
                assert(codes[i] == before[i]);
            } else {
                assert(codes[i].kind == kind_of(codes[i].code, texts_from(g, 3)));
            }
        }
    }
}

proof fn lemma_kinds_of(segs: Seq<Seq<Group>>, seg_type: Seq<char>)
    ensures
        kinds_match(codes_of(segs, seg_type)),
    decreases segs.len(),
{
    if segs.len() > 0 {
        lemma_kinds_of(segs.drop_last(), seg_type);
        let before = codes_of(segs.drop_last(), seg_type);
        let added = segment_codes(segs.last());
        if segs.last().len() > 0 {
            lemma_kinds_in(segs.last().skip(1));
        }
        lemma_kinds_joined(before, added);
    }
}

proof fn lemma_kinds_joined(a: Seq<Code>, b: Seq<Code>)
    requires
        kinds_match(a),
        kinds_match(b),
    ensures
        kinds_match(a + b),
{
    let codes = a + b;
    assert forall|i: int| 0 <= i < codes.len() implies exists|params: Seq<Seq<char>>|
        (#[trigger] codes[i]).kind == #[trigger] kind_of(codes[i].code, params) by {
        if i < a.len() {
            assert(codes[i] == a[i]);
        } else {
            assert(codes[i] == b[i - a.len()]);
        }
    }
}

/// Whether a number is among some codes.
pub open spec fn states_code(codes: Seq<Code>, number: Seq<char>) -> bool {
    exists|i: int| 0 <= i < codes.len() && (#[trigger] codes[i]).code == number
}

/// An answer demands a TAN where it states 0030 or 3955, starts a decoupled task
/// where it states 3955, has one pending where it states 3955 or 3956, and
/// exempts from the TAN where it states 3076, on the message or on a segment.
pub proof fn law_codes_steer(outer: Seq<Seq<Group>>)
    ensures
        ({
            let r = reply_of(outer);
            let codes = r.global_codes + r.segment_codes;
            &&& demands_tan(reply_codes(r)) <==> states_code(codes, "0030"@) || states_code(
                codes,
                "3955"@,
            )
            &&& starts_decoupled(reply_codes(r)) <==> states_code(codes, "3955"@)
            &&& awaits_decoupled(reply_codes(r)) <==> states_code(codes, "3955"@) || states_code(
                codes,
                "3956"@,
            )
            &&& exempts(reply_codes(r)) <==> states_code(codes, "3076"@)
        }),
{
    let r = reply_of(outer);
    let codes = reply_codes(r);
    lemma_kinds_of(r.segments, "HIRMG"@);
    lemma_kinds_of(r.segments, "HIRMS"@);
    lemma_kinds_joined(r.global_codes, r.segment_codes);
    assert forall|i: int| 0 <= i < codes.len() implies {
        let c = #[trigger] codes[i];
        &&& c.kind is TanRequired <==> c.code == "0030"@
        &&& c.kind is DecoupledInitiated <==> c.code == "3955"@
        &&& c.kind is DecoupledPending <==> c.code == "3956"@
        &&& c.kind is ScaExemption <==> c.code == "3076"@
    } by {
        let params = choose|params: Seq<Seq<char>>|
            codes[i].kind == #[trigger] kind_of(codes[i].code, params);
        law_steering_codes(codes[i].code, params);
    }
}

} // verus!
