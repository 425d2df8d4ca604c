//! Response codes (Rückmeldungen).
//!
//! The first digit of a code gives its class: 0 success, 3 warning, 9 error.
//! Some codes have a meaning of their own and steer the dialog.

use vstd::prelude::*;

use crate::element::{element_at, element_text, group_views, views, Group, RawSegment};
use crate::ids::{SecurityFunction, TouchdownPoint};
use crate::text::{chars_of, same_text};

verus! {

// ---- Model ----

/// What a response code means.
pub enum Kind {
    Success,
    TanRequired,
    DecoupledInitiated,
    DecoupledPending,
    ScaExemption,
    Touchdown(Seq<char>),
    AllowedSecurityFunctions(Seq<Seq<char>>),
    AccountLocked,
    PinWrong,
    Warning(Seq<char>),
    Error(Seq<char>),
    Other(Seq<char>),
}

/// A response code as a value.
pub struct Code {
    pub code: Seq<char>,
    pub kind: Kind,
    pub text: Seq<char>,
}

/// The meaning of a code with its parameters.
pub open spec fn kind_of(code: Seq<char>, params: Seq<Seq<char>>) -> Kind {
    if code == "0030"@ {
        Kind::TanRequired
    } else if code == "3955"@ {
        Kind::DecoupledInitiated
    } else if code == "3956"@ {
        Kind::DecoupledPending
    } else if code == "3076"@ {
        Kind::ScaExemption
    } else if code == "3040"@ && params.len() > 0 && params[0].len() > 0 {
        Kind::Touchdown(params[0])
    } else if code == "3920"@ {
        Kind::AllowedSecurityFunctions(params)
    } else if code == "3938"@ {
        Kind::AccountLocked
    } else if code == "9340"@ || code == "9910"@ {
        Kind::PinWrong
    } else if code.len() > 0 && code[0] == '0' {
        Kind::Success
    } else if code.len() > 0 && code[0] == '3' {
        Kind::Warning(code)
    } else if code.len() > 0 && code[0] == '9' {
        Kind::Error(code)
    } else {
        Kind::Other(code)
    }
}

/// The code that a text, its parameters and a number make.
pub open spec fn code_of(code: Seq<char>, text: Seq<char>, params: Seq<Seq<char>>) -> Code {
    Code { code, kind: kind_of(code, params), text }
}

/// Kinds that end a dialog.
pub open spec fn kind_is_error(k: Kind) -> bool {
    k is PinWrong || k is AccountLocked || k is Error
}

/// The texts of a DEG from element `from` on.
pub open spec fn texts_from(g: Group, from: int) -> Seq<Seq<char>> {
    Seq::new(
        (if g.len() > from { g.len() - from } else { 0 }) as nat,
        |i: int| element_text(g[from + i]),
    )
}

/// The code that a DEG `code:reference:text:parameters` states.
pub open spec fn group_code(g: Group) -> Code {
    code_of(
        element_text(element_at(g, 0)),
        element_text(element_at(g, 2)),
        texts_from(g, 3),
    )
}

/// The codes that the DEGs of a segment state; DEGs without a code state none.
pub open spec fn codes_in(groups: Seq<Group>) -> Seq<Code>
    decreases groups.len(),
{
    if groups.len() == 0 {
        Seq::empty()
    } else {
        let before = codes_in(groups.drop_last());
        if element_text(element_at(groups.last(), 0)).len() == 0 {
            before
        } else {
            before.push(group_code(groups.last()))
        }
    }
}

/// The codes of a response segment: its DEGs behind the header.
pub open spec fn segment_codes(seg: Seq<Group>) -> Seq<Code> {
    if seg.len() == 0 {
        Seq::empty()
    } else {
        codes_in(seg.skip(1))
    }
}

// ---- Types ----

/// What a response code means.
#[derive(Debug, PartialEq, Eq)]
pub enum ResponseCodeKind {
    /// 0xxx.
    Success,
    /// 0030: the order is received, a TAN is required.
    TanRequired,
    /// 3955: strong authentication goes on in another channel.
    DecoupledInitiated,
    /// 3956: it is still under way there.
    DecoupledPending,
    /// 3076: no strong authentication required.
    ScaExemption,
    /// 3040: more data from this point on.
    Touchdown(TouchdownPoint),
    /// 3920: the security functions that the user may sign with.
    AllowedSecurityFunctions(Vec<SecurityFunction>),
    /// 3938: access is locked.
    AccountLocked,
    /// 9340, 9910: the PIN is wrong.
    PinWrong,
    /// Any other 3xxx.
    Warning(String),
    /// Any other 9xxx.
    Error(String),
    /// A code of no known class.
    Other(String),
}

impl View for ResponseCodeKind {
    type V = Kind;

    open spec fn view(&self) -> Kind {
        match self {
            ResponseCodeKind::Success => Kind::Success,
            ResponseCodeKind::TanRequired => Kind::TanRequired,
            ResponseCodeKind::DecoupledInitiated => Kind::DecoupledInitiated,
            ResponseCodeKind::DecoupledPending => Kind::DecoupledPending,
            ResponseCodeKind::ScaExemption => Kind::ScaExemption,
            ResponseCodeKind::Touchdown(t) => Kind::Touchdown(t@),
            ResponseCodeKind::AllowedSecurityFunctions(v) => Kind::AllowedSecurityFunctions(
                views(v@),
            ),
            ResponseCodeKind::AccountLocked => Kind::AccountLocked,
            ResponseCodeKind::PinWrong => Kind::PinWrong,
            ResponseCodeKind::Warning(s) => Kind::Warning(s@),
            ResponseCodeKind::Error(s) => Kind::Error(s@),
            ResponseCodeKind::Other(s) => Kind::Other(s@),
        }
    }
}

/// A copy of a list of security functions.
pub fn clone_functions(v: &Vec<SecurityFunction>) -> (r: Vec<SecurityFunction>)
    ensures
        views(r@) == views(v@),
{
    let r = v.clone();
    assert(views(r@) =~= views(v@));
    r
}

impl Clone for ResponseCodeKind {
    fn clone(&self) -> (r: ResponseCodeKind)
        ensures
            r@ == self@,
    {
        match self {
            ResponseCodeKind::Success => ResponseCodeKind::Success,
            ResponseCodeKind::TanRequired => ResponseCodeKind::TanRequired,
            ResponseCodeKind::DecoupledInitiated => ResponseCodeKind::DecoupledInitiated,
            ResponseCodeKind::DecoupledPending => ResponseCodeKind::DecoupledPending,
            ResponseCodeKind::ScaExemption => ResponseCodeKind::ScaExemption,
            ResponseCodeKind::Touchdown(t) => ResponseCodeKind::Touchdown(t.clone()),
            ResponseCodeKind::AllowedSecurityFunctions(v) => {
                ResponseCodeKind::AllowedSecurityFunctions(clone_functions(v))
            },
            ResponseCodeKind::AccountLocked => ResponseCodeKind::AccountLocked,
            ResponseCodeKind::PinWrong => ResponseCodeKind::PinWrong,
            ResponseCodeKind::Warning(s) => ResponseCodeKind::Warning(s.clone()),
            ResponseCodeKind::Error(s) => ResponseCodeKind::Error(s.clone()),
            ResponseCodeKind::Other(s) => ResponseCodeKind::Other(s.clone()),
        }
    }
}

fn functions_of(params: &Vec<String>) -> (v: Vec<SecurityFunction>)
    ensures
        views(v@) == views(params@),
{
    let mut v: Vec<SecurityFunction> = Vec::new();
    let mut i: usize = 0;
    while i < params.len()
        invariant
            i <= params@.len(),
            views(v@) =~= views(params@).take(i as int),
        decreases params@.len() - i,
    {
        broadcast use group_views;

        v.push(SecurityFunction::new(params[i].as_str()));
        i += 1;
    }
    v
}

impl ResponseCodeKind {
    /// The meaning of a code with its parameters.
    pub fn from_code(code: &str, params: &Vec<String>) -> (k: ResponseCodeKind)
        ensures
            k@ == kind_of(code@, views(params@)),
    {
        if same_text(code, "0030") {
            return ResponseCodeKind::TanRequired;
        }
        if same_text(code, "3955") {
            return ResponseCodeKind::DecoupledInitiated;
        }
        if same_text(code, "3956") {
            return ResponseCodeKind::DecoupledPending;
        }
        if same_text(code, "3076") {
            return ResponseCodeKind::ScaExemption;
        }
        if same_text(code, "3040") && params.len() > 0 && !params[0].as_str().is_empty() {
            return ResponseCodeKind::Touchdown(TouchdownPoint::new(params[0].as_str()));
        }
        if same_text(code, "3920") {
            return ResponseCodeKind::AllowedSecurityFunctions(functions_of(params));
        }
        if same_text(code, "3938") {
            return ResponseCodeKind::AccountLocked;
        }
        if same_text(code, "9340") || same_text(code, "9910") {
            return ResponseCodeKind::PinWrong;
        }
        let cs: Vec<char> = chars_of(code);
        if cs.len() > 0 && cs[0] == '0' {
            ResponseCodeKind::Success
        } else if cs.len() > 0 && cs[0] == '3' {
            ResponseCodeKind::Warning(code.to_string())
        } else if cs.len() > 0 && cs[0] == '9' {
            ResponseCodeKind::Error(code.to_string())
        } else {
            ResponseCodeKind::Other(code.to_string())
        }
    }

    /// Whether the code ends the dialog.
    pub fn is_error(&self) -> (b: bool)
        ensures
            b == kind_is_error(self@),
    {
        match self {
            ResponseCodeKind::PinWrong => true,
            ResponseCodeKind::AccountLocked => true,
            ResponseCodeKind::Error(_) => true,
            _ => false,
        }
    }
}

/// A response code with its text.
#[derive(Debug, PartialEq, Eq)]
pub struct ResponseCode {
    pub kind: ResponseCodeKind,
    pub text: String,
    pub code: String,
}

impl View for ResponseCode {
    type V = Code;

    open spec fn view(&self) -> Code {
        Code { code: self.code@, kind: self.kind@, text: self.text@ }
    }
}

impl Clone for ResponseCode {
    fn clone(&self) -> (r: ResponseCode)
        ensures
            r@ == self@,
    {
        ResponseCode {
            kind: self.kind.clone(),
            text: self.text.clone(),
            code: self.code.clone(),
        }
    }
}

impl ResponseCode {
    /// A code without parameters.
    pub fn new(code: &str, text: &str) -> (r: ResponseCode)
        ensures
            r@ == code_of(code@, text@, Seq::empty()),
    {
        let params: Vec<String> = Vec::new();
        assert(views(params@) =~= Seq::<Seq<char>>::empty());
        ResponseCode::with_params(code, text, params)
    }

    pub fn with_params(code: &str, text: &str, params: Vec<String>) -> (r: ResponseCode)
        ensures
            r@ == code_of(code@, text@, views(params@)),
    {
        ResponseCode {
            kind: ResponseCodeKind::from_code(code, &params),
            text: text.to_string(),
            code: code.to_string(),
        }
    }

    pub fn code(&self) -> (s: &str)
        ensures
            s@ == self@.code,
    {
        self.code.as_str()
    }

    pub fn is_error(&self) -> (b: bool)
        ensures
            b == kind_is_error(self@.kind),
    {
        self.kind.is_error()
    }

    /// Whether the code is a 3xxx that is no error.
    pub fn is_warning(&self) -> (b: bool)
        ensures
            b == (self@.code.len() > 0 && self@.code[0] == '3' && !kind_is_error(self@.kind)),
    {
        let cs: Vec<char> = chars_of(self.code.as_str());
        cs.len() > 0 && cs[0] == '3' && !self.is_error()
    }

    /// Whether the code is a 0xxx.
    pub fn is_success(&self) -> (b: bool)
        ensures
            b == (self@.code.len() > 0 && self@.code[0] == '0'),
    {
        let cs: Vec<char> = chars_of(self.code.as_str());
        cs.len() > 0 && cs[0] == '0'
    }

    /// 0030.
    pub fn is_tan_required(&self) -> (b: bool)
        ensures
            b == (self@.kind is TanRequired),
    {
        match self.kind {
            ResponseCodeKind::TanRequired => true,
            _ => false,
        }
    }

    /// 3955.
    pub fn is_decoupled(&self) -> (b: bool)
        ensures
            b == (self@.kind is DecoupledInitiated),
    {
        match self.kind {
            ResponseCodeKind::DecoupledInitiated => true,
            _ => false,
        }
    }

    /// 3955 or 3956.
    pub fn is_decoupled_pending(&self) -> (b: bool)
        ensures
            b == (self@.kind is DecoupledInitiated || self@.kind is DecoupledPending),
    {
        match self.kind {
            ResponseCodeKind::DecoupledInitiated => true,
            ResponseCodeKind::DecoupledPending => true,
            _ => false,
        }
    }

    /// The codes of a response segment (HIRMG or HIRMS).
    pub fn parse_from_segment(seg: &RawSegment) -> (codes: Vec<ResponseCode>)
        ensures
            views(codes@) == segment_codes(seg@),
    {
        let mut codes: Vec<ResponseCode> = Vec::new();
        let mut i: usize = 1;
        if seg.deg_count() == 0 {
            assert(views(codes@) =~= Seq::<Code>::empty());
            return codes;
        }
        assert(seg@.subrange(1, 1) =~= Seq::<Group>::empty());
        assert(views(codes@) =~= Seq::<Code>::empty());
        while i < seg.deg_count()
            invariant
                1 <= i <= seg@.len(),
                views(codes@) == codes_in(seg@.subrange(1, i as int)),
            decreases seg@.len() - i,
        {
            let d = &seg.degs[i];
            assert(d@ == seg@[i as int]);
            let code = d.get_str(0);
            proof {
                assert(seg@.subrange(1, i + 1).drop_last() =~= seg@.subrange(1, i as int));
                assert(seg@.subrange(1, i + 1).last() == d@);
            }
            if !code.as_str().is_empty() {
                let text = d.get_str(2);
                let mut params: Vec<String> = Vec::new();
                let mut j: usize = 3;
                while j < d.len()
                    invariant
                        3 <= j,
                        j <= d@.len() || (j == 3 && params@.len() == 0),
                        params@.len() == j - 3,
                        forall|k: int|
                            0 <= k < params@.len() ==> #[trigger] params@[k]@ == element_text(
                                d@[3 + k],
                            ),
                    decreases d@.len() - j,
                {
                    params.push(d.get_str(j));
                    j += 1;
                }
                assert(views(params@) =~= texts_from(d@, 3));
                let ghost before = codes@;
                codes.push(
                    ResponseCode::with_params(code.as_str(), text.as_str(), params),
                );
                assert(views(codes@) =~= views(before).push(group_code(d@)));
            }
            i += 1;
        }
        assert(seg@.subrange(1, i as int) =~= seg@.skip(1));
        codes
    }
}

// ---- Laws ----

/// The codes that have a meaning of their own are all different.
proof fn lemma_code_literals()
    ensures
        "0030"@.len() == 4 && "0030"@[0] == '0',
        "3955"@.len() == 4 && "3955"@[0] == '3',
        "3956"@.len() == 4 && "3956"@[0] == '3',
        "3076"@.len() == 4 && "3076"@[0] == '3',
        "3040"@.len() == 4 && "3040"@[0] == '3',
        "3920"@.len() == 4 && "3920"@[0] == '3',
        "3938"@.len() == 4 && "3938"@[0] == '3',
        "9340"@.len() == 4 && "9340"@[0] == '9',
        "9910"@.len() == 4 && "9910"@[0] == '9',
        "3955"@ != "3956"@ && "3955"@ != "3076"@ && "3955"@ != "3040"@ && "3955"@ != "3920"@
            && "3955"@ != "3938"@,
        "3956"@ != "3076"@ && "3956"@ != "3040"@ && "3956"@ != "3920"@ && "3956"@ != "3938"@,
        "3076"@ != "3040"@ && "3076"@ != "3920"@ && "3076"@ != "3938"@,
        "3040"@ != "3920"@ && "3040"@ != "3938"@,
        "3920"@ != "3938"@,
{
    reveal_strlit("0030");
    reveal_strlit("3955");
    reveal_strlit("3956");
    reveal_strlit("3076");
    reveal_strlit("3040");
    reveal_strlit("3920");
    reveal_strlit("3938");
    reveal_strlit("9340");
    reveal_strlit("9910");
    assert("3955"@[3] != "3956"@[3]);
    assert("3955"@[2] != "3076"@[2] && "3955"@[2] != "3040"@[2] && "3955"@[2] != "3920"@[2]
        && "3955"@[2] != "3938"@[2]);
    assert("3956"@[2] != "3076"@[2] && "3956"@[2] != "3040"@[2] && "3956"@[2] != "3920"@[2]
        && "3956"@[2] != "3938"@[2]);
    assert("3076"@[2] != "3040"@[2] && "3076"@[2] != "3920"@[2] && "3076"@[2] != "3938"@[2]);
    assert("3040"@[2] != "3920"@[2] && "3040"@[2] != "3938"@[2]);
    assert("3920"@[2] != "3938"@[2]);
    assert("0030"@[0] == '0' && "9340"@[0] == '9' && "9910"@[0] == '9' && "3955"@[0] == '3'
        && "3956"@[0] == '3' && "3076"@[0] == '3' && "3040"@[0] == '3' && "3920"@[0] == '3'
        && "3938"@[0] == '3');
}

/// The first digit gives the class of a code: 9 is an error, 0 is none, and 3 is
/// none unless the access is locked. Where a code is kept, it is kept as it is.
pub proof fn law_code_class(code: Seq<char>, params: Seq<Seq<char>>)
    ensures
        ({
            let k = kind_of(code, params);
            &&& code.len() > 0 && code[0] == '9' ==> kind_is_error(k)
            &&& code.len() > 0 && code[0] == '0' ==> k is Success || k is TanRequired
            &&& code.len() > 0 && code[0] == '3' ==> (kind_is_error(k) <==> code == "3938"@)
            &&& kind_is_error(k) ==> code.len() > 0 && (code[0] == '9' || code == "3938"@)
            &&& k matches Kind::Warning(c) ==> c == code && code[0] == '3'
            &&& k matches Kind::Error(c) ==> c == code && code[0] == '9'
            &&& k matches Kind::Other(c) ==> c == code && (code.len() == 0 || (code[0] != '0'
                && code[0] != '3' && code[0] != '9'))
        }),
{
    lemma_code_literals();
}

/// The codes that steer a dialog, and what they carry.
pub proof fn law_steering_codes(code: Seq<char>, params: Seq<Seq<char>>)
    ensures
        ({
            let k = kind_of(code, params);
            &&& k is TanRequired <==> code == "0030"@
            &&& k is DecoupledInitiated <==> code == "3955"@
            &&& k is DecoupledPending <==> code == "3956"@
            &&& k is ScaExemption <==> code == "3076"@
            &&& k is AccountLocked <==> code == "3938"@
            &&& k is PinWrong <==> code == "9340"@ || code == "9910"@
            &&& k is Touchdown <==> code == "3040"@ && params.len() > 0 && params[0].len() > 0
            &&& k matches Kind::Touchdown(t) ==> t == params[0]
            &&& k is AllowedSecurityFunctions <==> code == "3920"@
            &&& k matches Kind::AllowedSecurityFunctions(fs) ==> fs == params
        }),
{
    lemma_code_literals();
}

/// Each DEG behind the header that states a code adds it, in order: the code at
/// element 0, its text at 2, its parameters from 3 on.
pub proof fn law_code_added(seg: Seq<Group>, g: Group)
    requires
        seg.len() >= 1,
    ensures
        ({
            let before = segment_codes(seg);
            let after = segment_codes(seg.push(g));
            let code = element_text(element_at(g, 0));
            if code.len() > 0 {
                &&& after.len() == before.len() + 1
                &&& after.drop_last() == before
                &&& after.last().code == code
                &&& after.last().text == element_text(element_at(g, 2))
                &&& exists|params: Seq<Seq<char>>|
                    after.last().kind == #[trigger] kind_of(code, params) && params.len() == (if g.len()
                        > 3 {
                        g.len() - 3
                    } else {
                        0int
                    }) && forall|i: int|
                        0 <= i < params.len() ==> #[trigger] params[i] == element_text(g[i + 3])
            } else {
                after == before
            }
        }),
        seg.len() == 1 ==> segment_codes(seg).len() == 0,
{
    let all = seg.push(g).skip(1);
    assert(all.last() == g);
    assert(all.drop_last() =~= seg.skip(1));
    if element_text(element_at(g, 0)).len() > 0 {
        assert(segment_codes(seg.push(g)).drop_last() =~= segment_codes(seg));
        let params = texts_from(g, 3);
        assert(segment_codes(seg.push(g)).last().kind == kind_of(
            element_text(element_at(g, 0)),
            params,
        ));
    }
    if seg.len() == 1 {
        assert(seg.skip(1) =~= Seq::<Group>::empty());
    }
}

} // verus!
