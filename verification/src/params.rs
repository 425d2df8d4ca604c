//! Bank and user parameters (BPD and UPD) and the choice of a TAN method.

use vstd::prelude::*;

use crate::codes::clone_functions;
use crate::element::{group_views, text_at, type_of, u16_or_zero, views, Group, RawSegment};
use crate::ids::{opt_of, SecurityFunction, SegmentType, SystemId, TanMediumName};
use crate::reply::{reply_allowed, Reply, Response};
use crate::segments::response::{
    find_highest_segment_version, highest_version, hipins_rules, hitans_methods, hiupd_account,
    parse_hibpa_version, parse_hipins, parse_hisyn_system_id, parse_hitans, parse_hiupa_version,
    parse_hiupd,
};
use crate::text::{byte_len, has_prefix, same_text, text_ends_with, text_has_prefix, utf8_len};
use crate::types::{AccountInfo, Method, SepaAccount, TanMethod, TanRules};

verus! {

// ---- Model ----

/// Parameters as a value.
pub struct Params {
    pub bpd_version: int,
    pub upd_version: int,
    pub bpd_segments: Seq<Seq<Group>>,
    pub upd_segments: Seq<Seq<Group>>,
    pub tan_methods: Seq<Method>,
    pub selected_security_function: Seq<char>,
    pub selected_tan_medium: Option<Seq<char>>,
    pub accounts_from_upd: Seq<AccountInfo>,
    pub operation_tan_required: Map<Seq<char>, bool>,
    pub allowed_security_functions: Seq<Seq<char>>,
    pub preferred_security_function: Option<Seq<char>>,
}

/// Parameters before anything is known: signing with the PIN alone.
pub open spec fn no_params() -> Params {
    Params {
        bpd_version: 0,
        upd_version: 0,
        bpd_segments: Seq::empty(),
        upd_segments: Seq::empty(),
        tan_methods: Seq::empty(),
        selected_security_function: "999"@,
        selected_tan_medium: None,
        accounts_from_upd: Seq::empty(),
        operation_tan_required: Map::empty(),
        allowed_security_functions: Seq::empty(),
        preferred_security_function: None,
    }
}

/// Parameters and system identification.
pub struct Known {
    pub params: Params,
    pub system_id: Seq<char>,
}

/// Types of segments that describe what the bank offers: `HI...S`, of five bytes
/// at least.
pub open spec fn parameter_type(t: Seq<char>) -> bool {
    has_prefix(t, "HI"@) && byte_len(t) >= 5 && t.len() > 0 && t.last() == 'S'
}

/// What is known after one more segment.
pub open spec fn learn_segment(k: Known, seg: Seq<Group>) -> Known {
    let t = type_of(seg);
    let p = k.params;
    if t == "HIBPA"@ {
        Known { params: Params { bpd_version: u16_or_zero(text_at(seg, 1, 0)), ..p }, ..k }
    } else if t == "HITANS"@ {
        Known { params: Params { tan_methods: p.tan_methods + hitans_methods(seg), ..p }, ..k }
    } else if t == "HIPINS"@ {
        Known {
            params: Params {
                operation_tan_required: p.operation_tan_required.union_prefer_right(
                    hipins_rules(seg),
                ),
                ..p
            },
            ..k
        }
    } else if t == "HIUPA"@ {
        Known { params: Params { upd_version: u16_or_zero(text_at(seg, 3, 0)), ..p }, ..k }
    } else if t == "HIUPD"@ {
        Known {
            params: Params {
                upd_segments: p.upd_segments.push(seg),
                accounts_from_upd: match hiupd_account(seg) {
                    Some(a) => p.accounts_from_upd.push(a),
                    None => p.accounts_from_upd,
                },
                ..p
            },
            ..k
        }
    } else if t == "HISYN"@ {
        if text_at(seg, 1, 0).len() > 0 {
            Known { system_id: text_at(seg, 1, 0), ..k }
        } else {
            k
        }
    } else if parameter_type(t) {
        Known { params: Params { bpd_segments: p.bpd_segments.push(seg), ..p }, ..k }
    } else {
        k
    }
}

/// What is known after some segments.
pub open spec fn learn_segments(k: Known, segs: Seq<Seq<Group>>) -> Known
    decreases segs.len(),
{
    if segs.len() == 0 {
        k
    } else {
        learn_segment(learn_segments(k, segs.drop_last()), segs.last())
    }
}

/// What is known after an answer. Security functions that it allows replace
/// those allowed before.
pub open spec fn learned(k: Known, r: Reply) -> Known {
    let after = learn_segments(k, r.segments);
    if reply_allowed(r).len() > 0 {
        Known {
            params: Params { allowed_security_functions: reply_allowed(r), ..after.params },
            ..after
        }
    } else {
        after
    }
}

/// Whether an operation needs a TAN; it does unless the bank says otherwise.
pub open spec fn operation_needs_tan(p: Params, t: Seq<char>) -> bool {
    if p.operation_tan_required.contains_key(t) {
        p.operation_tan_required[t]
    } else {
        true
    }
}

/// Whether no read needs a TAN.
pub open spec fn pin_only_reads(p: Params) -> bool {
    !operation_needs_tan(p, "HKSAL"@) && !operation_needs_tan(p, "HKKAZ"@) && !operation_needs_tan(
        p,
        "HKWPD"@,
    )
}

/// The first method with a security function.
pub open spec fn method_of(methods: Seq<Method>, function: Seq<char>) -> Option<Method>
    decreases methods.len(),
{
    if methods.len() == 0 {
        None
    } else if methods[0].security_function == function {
        Some(methods[0])
    } else {
        method_of(methods.skip(1), function)
    }
}

/// The selected method.
pub open spec fn selected_method(p: Params) -> Option<Method> {
    method_of(p.tan_methods, p.selected_security_function)
}

/// Decoupled methods are better than others, and those better than unknown ones.
pub open spec fn method_rank(methods: Seq<Method>, function: Seq<char>) -> int {
    match method_of(methods, function) {
        Some(m) => if m.is_decoupled {
            2
        } else {
            1
        },
        None => 0,
    }
}

/// The best of the allowed functions that are more than the PIN; the last of
/// equally good ones.
pub open spec fn best_function(methods: Seq<Method>, allowed: Seq<Seq<char>>) -> Option<Seq<char>>
    decreases allowed.len(),
{
    if allowed.len() == 0 {
        None
    } else {
        let before = best_function(methods, allowed.drop_last());
        let x = allowed.last();
        if x == "999"@ {
            before
        } else {
            match before {
                Some(b) => if method_rank(methods, x) >= method_rank(methods, b) {
                    Some(x)
                } else {
                    Some(b)
                },
                None => Some(x),
            }
        }
    }
}

/// The security function to sign with: the present one where reads need no TAN
/// or nothing is allowed, the preferred one where it is allowed, else the best.
pub open spec fn chosen_function(p: Params) -> Seq<char> {
    let allowed = p.allowed_security_functions;
    if pin_only_reads(p) || allowed.len() == 0 {
        p.selected_security_function
    } else if p.preferred_security_function matches Some(f) && allowed.contains(f) {
        p.preferred_security_function->0
    } else {
        match best_function(p.tan_methods, allowed) {
            Some(f) => f,
            None => p.selected_security_function,
        }
    }
}

/// Parameters with the security function chosen.
pub open spec fn with_choice(p: Params) -> Params {
    Params { selected_security_function: chosen_function(p), ..p }
}

pub open spec fn hktan_version_of(p: Params) -> int {
    match selected_method(p) {
        Some(m) => m.hktan_version,
        None => 7,
    }
}

/// The highest version of a segment type that both sides know; the client's own
/// where the bank states none.
pub open spec fn version_for(p: Params, param_type: Seq<char>, max_version: int) -> int {
    let v = highest_version(p.bpd_segments, param_type, max_version);
    if v == 0 {
        max_version
    } else {
        v
    }
}

pub open spec fn decoupled_method(p: Params) -> bool {
    selected_method(p) matches Some(m) && m.is_decoupled
}

/// A positive number, or a default.
pub open spec fn positive_or(v: int, default: int) -> int {
    if v > 0 {
        v
    } else {
        default
    }
}

/// Seconds before the first poll and between polls, and the number of polls.
pub open spec fn poll_params(p: Params) -> (int, int, int) {
    match selected_method(p) {
        Some(m) => (
            positive_or(m.wait_before_first_poll, 5),
            positive_or(m.wait_before_next_poll, 5),
            positive_or(m.decoupled_max_polls, 20),
        ),
        None => (5, 5, 20),
    }
}

// ---- Parameters ----

/// What the bank has told about itself and the user.
#[derive(Debug)]
pub struct BankParams {
    pub bpd_version: u16,
    pub upd_version: u16,
    pub bpd_segments: Vec<RawSegment>,
    pub upd_segments: Vec<RawSegment>,
    pub tan_methods: Vec<TanMethod>,
    pub selected_security_function: SecurityFunction,
    pub selected_tan_medium: Option<TanMediumName>,
    pub accounts_from_upd: Vec<SepaAccount>,
    pub operation_tan_required: TanRules,
    pub allowed_security_functions: Vec<SecurityFunction>,
    pub preferred_security_function: Option<SecurityFunction>,
}

impl View for BankParams {
    type V = Params;

    open spec fn view(&self) -> Params {
        Params {
            bpd_version: self.bpd_version as int,
            upd_version: self.upd_version as int,
            bpd_segments: views(self.bpd_segments@),
            upd_segments: views(self.upd_segments@),
            tan_methods: views(self.tan_methods@),
            selected_security_function: self.selected_security_function@,
            selected_tan_medium: opt_of(self.selected_tan_medium),
            accounts_from_upd: views(self.accounts_from_upd@),
            operation_tan_required: self.operation_tan_required@,
            allowed_security_functions: views(self.allowed_security_functions@),
            preferred_security_function: opt_of(self.preferred_security_function),
        }
    }
}

pub fn clone_medium(m: &Option<TanMediumName>) -> (r: Option<TanMediumName>)
    ensures
        opt_of(r) == opt_of(*m),
{
    match m {
        Some(x) => Some(x.clone()),
        None => None,
    }
}

fn clone_segments(v: &Vec<RawSegment>) -> (r: Vec<RawSegment>)
    ensures
        views(r@) == views(v@),
{
    let r = v.clone();
    assert(views(r@) =~= views(v@));
    r
}

fn clone_methods(v: &Vec<TanMethod>) -> (r: Vec<TanMethod>)
    ensures
        views(r@) == views(v@),
{
    let r = v.clone();
    assert(views(r@) =~= views(v@));
    r
}

fn clone_accounts(v: &Vec<SepaAccount>) -> (r: Vec<SepaAccount>)
    ensures
        views(r@) == views(v@),
{
    let r = v.clone();
    assert(views(r@) =~= views(v@));
    r
}

impl Clone for BankParams {
    fn clone(&self) -> (r: BankParams)
        ensures
            r@ == self@,
    {
        BankParams {
            bpd_version: self.bpd_version,
            upd_version: self.upd_version,
            bpd_segments: clone_segments(&self.bpd_segments),
            upd_segments: clone_segments(&self.upd_segments),
            tan_methods: clone_methods(&self.tan_methods),
            selected_security_function: self.selected_security_function.clone(),
            selected_tan_medium: clone_medium(&self.selected_tan_medium),
            accounts_from_upd: clone_accounts(&self.accounts_from_upd),
            operation_tan_required: self.operation_tan_required.clone(),
            allowed_security_functions: clone_functions(&self.allowed_security_functions),
            preferred_security_function: match &self.preferred_security_function {
                Some(f) => Some(f.clone()),
                None => None,
            },
        }
    }
}

fn find_method<'a>(methods: &'a Vec<TanMethod>, function: &SecurityFunction) -> (found: Option<
    &'a TanMethod,
>)
    ensures
        match found {
            Some(m) => method_of(views(methods@), function@) == Some(m@),
            None => method_of(views(methods@), function@) is None,
        },
{
    let ghost mv = views(methods@);
    let mut i: usize = 0;
    assert(mv.skip(0) =~= mv);
    while i < methods.len()
        invariant
            i <= methods@.len(),
            mv == views(methods@),
            method_of(mv.skip(i as int), function@) == method_of(mv, function@),
        decreases methods@.len() - i,
    {
        assert(mv.skip(i as int)[0] == methods@[i as int]@);
        assert(mv.skip(i as int).skip(1) =~= mv.skip(i + 1));
        if same_text(methods[i].security_function.as_str(), function.as_str()) {
            return Some(&methods[i]);
        }
        i += 1;
    }
    None
}

fn contains_function(functions: &Vec<SecurityFunction>, f: &SecurityFunction) -> (b: bool)
    ensures
        b == views(functions@).contains(f@),
{
    let ghost fv = views(functions@);
    let mut i: usize = 0;
    while i < functions.len()
        invariant
            i <= functions@.len(),
            fv == views(functions@),
            forall|j: int| 0 <= j < i ==> fv[j] != f@,
        decreases functions@.len() - i,
    {
        if same_text(functions[i].as_str(), f.as_str()) {
            assert(fv[i as int] == f@);
            return true;
        }
        i += 1;
    }
    false
}

fn positive(v: i32, default: u32) -> (r: u32)
    ensures
        r as int == positive_or(v as int, default as int),
{
    if v > 0 {
        v as u32
    } else {
        default
    }
}

impl BankParams {
    /// Parameters before anything is known.
    pub fn new() -> (p: BankParams)
        ensures
            p@ == no_params(),
    {
        broadcast use group_views;

        BankParams {
            bpd_version: 0,
            upd_version: 0,
            bpd_segments: Vec::new(),
            upd_segments: Vec::new(),
            tan_methods: Vec::new(),
            selected_security_function: SecurityFunction::pin_only(),
            selected_tan_medium: None,
            accounts_from_upd: Vec::new(),
            operation_tan_required: TanRules::new(),
            allowed_security_functions: Vec::new(),
            preferred_security_function: None,
        }
    }

    fn ingest_segment(&mut self, seg: &RawSegment, system_id: &mut SystemId)
        ensures
            ({
                let after = learn_segment(
                    Known { params: old(self)@, system_id: old(system_id)@ },
                    seg@,
                );
                final(self)@ == after.params && final(system_id)@ == after.system_id
            }),
    {
        broadcast use group_views;

        let t = seg.segment_type();
        if same_text(t, "HIBPA") {
            self.bpd_version = parse_hibpa_version(seg);
        } else if same_text(t, "HITANS") {
            let mut methods = parse_hitans(seg);
            self.tan_methods.append(&mut methods);
        } else if same_text(t, "HIPINS") {
            self.operation_tan_required.extend(parse_hipins(seg));
        } else if same_text(t, "HIUPA") {
            self.upd_version = parse_hiupa_version(seg);
        } else if same_text(t, "HIUPD") {
            self.upd_segments.push(seg.clone());
            if let Some(account) = parse_hiupd(seg) {
                self.accounts_from_upd.push(account);
            }
        } else if same_text(t, "HISYN") {
            let id = parse_hisyn_system_id(seg);
            if !id.as_str().is_empty() {
                *system_id = SystemId::new(id.as_str());
            }
        } else if text_has_prefix(t, "HI") && utf8_len(t) >= 5 && text_ends_with(t, 'S') {
            self.bpd_segments.push(seg.clone());
        }
    }

    /// Takes over what an answer tells: parameters, TAN methods, rules,
    /// accounts, a system identification, allowed security functions.
    pub fn ingest_response(&mut self, response: &Response, system_id: &mut SystemId)
        ensures
            ({
                let after = learned(
                    Known { params: old(self)@, system_id: old(system_id)@ },
                    response@,
                );
                final(self)@ == after.params && final(system_id)@ == after.system_id
            }),
    {
        let ghost start = Known { params: self@, system_id: system_id@ };
        let ghost segs = response@.segments;
        let mut i: usize = 0;
        while i < response.segments.len()
            invariant
                i <= response.segments@.len(),
                segs == views(response.segments@),
                ({
                    let now = learn_segments(start, segs.take(i as int));
                    self@ == now.params && system_id@ == now.system_id
                }),
            decreases response.segments@.len() - i,
        {
            let seg = &response.segments[i];
            proof {
                assert(segs.take(i + 1).drop_last() =~= segs.take(i as int));
                assert(segs.take(i + 1).last() == seg@);
            }
            self.ingest_segment(seg, system_id);
            i += 1;
        }
        assert(segs.take(i as int) =~= segs);
        let allowed = response.allowed_security_functions();
        if allowed.len() > 0 {
            self.allowed_security_functions = allowed;
        }
    }

    /// Whether the operation needs a TAN; it does unless the bank says otherwise.
    pub fn needs_tan(&self, segment_type: &SegmentType) -> (b: bool)
        ensures
            b == operation_needs_tan(self@, segment_type@),
    {
        match self.operation_tan_required.get(segment_type) {
            Some(b) => *b,
            None => true,
        }
    }

    /// Whether every read that this library issues needs the PIN alone.
    ///
    /// That a TAN method is allowed does not mean that it is required: code 3920
    /// states what the bank can sign with, HIPINS what each operation needs.
    /// There are banks that offer TAN methods and refuse to have a read signed
    /// with one.
    pub fn reads_are_pin_only(&self) -> (b: bool)
        ensures
            b == pin_only_reads(self@),
    {
        !self.needs_tan(&SegmentType::new("HKSAL")) && !self.needs_tan(&SegmentType::new("HKKAZ"))
            && !self.needs_tan(&SegmentType::new("HKWPD"))
    }

    fn selected(&self) -> (found: Option<&TanMethod>)
        ensures
            match found {
                Some(m) => selected_method(self@) == Some(m@),
                None => selected_method(self@) is None,
            },
    {
        find_method(&self.tan_methods, &self.selected_security_function)
    }

    /// The HKTAN version of the selected TAN method.
    pub fn hktan_version(&self) -> (v: u16)
        ensures
            v as int == hktan_version_of(self@),
    {
        match self.selected() {
            Some(m) => m.hktan_version,
            None => 7,
        }
    }

    /// The highest version of a segment type that both sides know.
    pub fn supported_version(&self, param_segment_type: &str, max_version: u16) -> (v: u16)
        ensures
            v as int == version_for(self@, param_segment_type@, max_version as int),
    {
        let v: u16 = find_highest_segment_version(
            self.bpd_segments.as_slice(),
            param_segment_type,
            max_version,
        );
        if v == 0 {
            max_version
        } else {
            v
        }
    }

    fn rank(&self, function: &SecurityFunction) -> (r: u8)
        ensures
            r as int == method_rank(self@.tan_methods, function@),
    {
        match find_method(&self.tan_methods, function) {
            Some(m) => if m.is_decoupled {
                2
            } else {
                1
            },
            None => 0,
        }
    }

    fn best(&self) -> (res: Option<SecurityFunction>)
        ensures
            opt_of(res) == best_function(self@.tan_methods, self@.allowed_security_functions),
    {
        let ghost allowed = self@.allowed_security_functions;
        let mut best: Option<SecurityFunction> = None;
        let mut best_rank: u8 = 0;
        let mut i: usize = 0;
        while i < self.allowed_security_functions.len()
            invariant
                i <= self.allowed_security_functions@.len(),
                allowed == self@.allowed_security_functions,
                opt_of(best) == best_function(self@.tan_methods, allowed.take(i as int)),
                best matches Some(b) ==> best_rank as int == method_rank(
                    self@.tan_methods,
                    b@,
                ),
            decreases self.allowed_security_functions@.len() - i,
        {
            let f = &self.allowed_security_functions[i];
            proof {
                assert(allowed.take(i + 1).drop_last() =~= allowed.take(i as int));
                assert(allowed.take(i + 1).last() == f@);
            }
            if !same_text(f.as_str(), "999") {
                let rank: u8 = self.rank(f);
                if best.is_none() || rank >= best_rank {
                    best = Some(f.clone());
                    best_rank = rank;
                }
            }
            i += 1;
        }
        assert(allowed.take(i as int) =~= allowed);
        best
    }

    /// Chooses the security function to sign with.
    pub fn select_security_function(&mut self)
        ensures
            final(self)@ == with_choice(old(self)@),
    {
        if self.reads_are_pin_only() || self.allowed_security_functions.len() == 0 {
            return;
        }
        if let Some(f) = &self.preferred_security_function {
            if contains_function(&self.allowed_security_functions, f) {
                self.selected_security_function = f.clone();
                return;
            }
        }
        if let Some(f) = self.best() {
            self.selected_security_function = f;
        }
    }

    /// Whether the selected method works in another channel.
    pub fn is_decoupled(&self) -> (b: bool)
        ensures
            b == decoupled_method(self@),
    {
        match self.selected() {
            Some(m) => m.is_decoupled,
            None => false,
        }
    }

    /// Whether the selected method needs the name of a TAN medium.
    pub fn needs_tan_medium(&self) -> (b: bool)
        ensures
            b == (selected_method(self@) matches Some(m) && m.needs_tan_medium),
    {
        match self.selected() {
            Some(m) => m.needs_tan_medium,
            None => false,
        }
    }

    /// Seconds before the first poll and between polls, and the number of polls.
    pub fn decoupled_params(&self) -> (res: (u64, u64, u32))
        ensures
            (res.0 as int, res.1 as int, res.2 as int) == poll_params(self@),
    {
        match self.selected() {
            Some(m) => (
                positive(m.wait_before_first_poll, 5) as u64,
                positive(m.wait_before_next_poll, 5) as u64,
                positive(m.decoupled_max_polls, 20),
            ),
            None => (5, 5, 20),
        }
    }
}

// ---- Laws ----

/// Before the bank has said anything every operation needs a TAN, so reads are
/// not taken to need the PIN alone.
pub proof fn law_safe_default(t: Seq<char>)
    ensures
        operation_needs_tan(no_params(), t),
        !pin_only_reads(no_params()),
{
}

/// Whether the preferred security function is allowed.
pub open spec fn prefers_allowed(p: Params) -> bool {
    p.preferred_security_function matches Some(f) && p.allowed_security_functions.contains(f)
}

/// Whether the function at an index is more than the PIN, no other such function
/// ranks higher, and none behind it ranks as high.
pub open spec fn best_at(methods: Seq<Method>, allowed: Seq<Seq<char>>, k: int) -> bool {
    &&& 0 <= k < allowed.len()
    &&& allowed[k] != "999"@
    &&& forall|i: int|
        0 <= i < allowed.len() && #[trigger] allowed[i] != "999"@ ==> method_rank(
            methods,
            allowed[i],
        ) <= method_rank(methods, allowed[k])
    &&& forall|i: int|
        k < i < allowed.len() && #[trigger] allowed[i] != "999"@ ==> method_rank(
            methods,
            allowed[i],
        ) < method_rank(methods, allowed[k])
}

proof fn lemma_best_function(methods: Seq<Method>, allowed: Seq<Seq<char>>)
    ensures
        match best_function(methods, allowed) {
            Some(f) => exists|k: int| #[trigger] best_at(methods, allowed, k) && allowed[k] == f,
            None => forall|i: int| 0 <= i < allowed.len() ==> #[trigger] allowed[i] == "999"@,
        },
    decreases allowed.len(),
{
    if allowed.len() > 0 {
        let init = allowed.drop_last();
        let last = allowed.len() - 1;
        lemma_best_function(methods, init);
        assert forall|i: int| 0 <= i < init.len() implies #[trigger] allowed[i] == init[i] by {}
        assert(allowed[last] == allowed.last());
        match best_function(methods, init) {
            Some(b) => {
                let k = choose|k: int| #[trigger] best_at(methods, init, k) && init[k] == b;
                if best_function(methods, allowed) == Some(b) && allowed[last] != b {
                    assert(best_at(methods, allowed, k));
                } else if allowed[last] == "999"@ {
                    assert(best_at(methods, allowed, k));
                } else {
                    assert(best_at(methods, allowed, last));
                }
            },
            None => {
                if allowed[last] != "999"@ {
                    assert(best_at(methods, allowed, last));
                }
            },
        }
    }
}

/// What is chosen is what was selected before, or it is allowed. Where reads
/// need the PIN alone the selection stays. Otherwise a preferred function that
/// is allowed is chosen. Where there is none, the choice is the best allowed
/// function that is more than the PIN, and of equally good ones the last; where
/// nothing allowed is more than the PIN the selection stays.
pub proof fn law_choice(p: Params)
    ensures
        chosen_function(p) == p.selected_security_function
            || p.allowed_security_functions.contains(chosen_function(p)),
        pin_only_reads(p) ==> chosen_function(p) == p.selected_security_function,
        !pin_only_reads(p) && prefers_allowed(p) ==> p.preferred_security_function == Some(
            chosen_function(p),
        ),
        !pin_only_reads(p) && !prefers_allowed(p) ==> forall|k: int| #[trigger]
            best_at(p.tan_methods, p.allowed_security_functions, k) ==> chosen_function(p)
                == p.allowed_security_functions[k],
        !pin_only_reads(p) && !prefers_allowed(p) ==> (exists|k: int| #[trigger]
            best_at(p.tan_methods, p.allowed_security_functions, k)) || (chosen_function(p)
            == p.selected_security_function && forall|i: int|
            0 <= i < p.allowed_security_functions.len() ==> #[trigger]
            p.allowed_security_functions[i] == "999"@),
{
    let methods = p.tan_methods;
    let allowed = p.allowed_security_functions;
    lemma_best_function(methods, allowed);
    if !pin_only_reads(p) && !prefers_allowed(p) {
        if let Some(f) = best_function(methods, allowed) {
            let b = choose|b: int| #[trigger] best_at(methods, allowed, b) && allowed[b] == f;
            assert forall|k: int| #[trigger] best_at(methods, allowed, k) implies f
                == allowed[k] by {
                assert(allowed[k] != "999"@ && allowed[b] != "999"@);
            }
        }
    }
}

/// Choosing twice is choosing once.
pub proof fn law_choice_stable(p: Params)
    ensures
        with_choice(with_choice(p)) == with_choice(p),
{
}

/// The version for a segment type is at most the client's, and no version that
/// the bank offers and the client knows is higher.
pub proof fn law_version_bounds(p: Params, param_type: Seq<char>, max_version: int)
    requires
        0 <= max_version,
    ensures
        version_for(p, param_type, max_version) <= max_version,
        forall|i: int|
            0 <= i < p.bpd_segments.len() && type_of(#[trigger] p.bpd_segments[i]) == param_type
                && crate::element::version_of(p.bpd_segments[i]) <= max_version
                ==> crate::element::version_of(p.bpd_segments[i]) <= version_for(
                p,
                param_type,
                max_version,
            ),
{
    lemma_highest_version(p.bpd_segments, param_type, max_version);
}

/// No version that is offered and known is higher than the highest.
pub proof fn lemma_highest_version(segs: Seq<Seq<Group>>, t: Seq<char>, max: int)
    requires
        0 <= max,
    ensures
        0 <= highest_version(segs, t, max) <= max,
        forall|i: int|
            0 <= i < segs.len() && type_of(#[trigger] segs[i]) == t && crate::element::version_of(
                segs[i],
            ) <= max ==> crate::element::version_of(segs[i]) <= highest_version(segs, t, max),
    decreases segs.len(),
{
    if segs.len() > 0 {
        let init = segs.drop_last();
        lemma_highest_version(init, t, max);
        assert forall|i: int| 0 <= i < init.len() implies #[trigger] segs[i] == init[i] by {}
    }
}

/// An answer without a HISYN segment that states one leaves the system
/// identification as it is.
pub proof fn law_system_id_kept(k: Known, r: Reply)
    requires
        forall|i: int|
            0 <= i < r.segments.len() && type_of(#[trigger] r.segments[i]) == "HISYN"@ ==> text_at(
                r.segments[i],
                1,
                0,
            ).len() == 0,
    ensures
        learned(k, r).system_id == k.system_id,
{
    lemma_system_id_kept(k, r.segments);
}

proof fn lemma_system_id_kept(k: Known, segs: Seq<Seq<Group>>)
    requires
        forall|i: int|
            0 <= i < segs.len() && type_of(#[trigger] segs[i]) == "HISYN"@ ==> text_at(
                segs[i],
                1,
                0,
            ).len() == 0,
    ensures
        learn_segments(k, segs).system_id == k.system_id,
    decreases segs.len(),
{
    if segs.len() > 0 {
        let init = segs.drop_last();
        assert forall|i: int|
            0 <= i < init.len() && type_of(#[trigger] init[i]) == "HISYN"@ implies text_at(
            init[i],
            1,
            0,
        ).len() == 0 by {
            assert(init[i] == segs[i]);
        }
        lemma_system_id_kept(k, init);
        assert(segs[segs.len() - 1] == segs.last());
    }
}

/// An answer does not change which security function, TAN medium and preference
/// are selected.
pub proof fn law_selection_kept(k: Known, r: Reply)
    ensures
        learned(k, r).params.selected_security_function == k.params.selected_security_function,
        learned(k, r).params.selected_tan_medium == k.params.selected_tan_medium,
        learned(k, r).params.preferred_security_function == k.params.preferred_security_function,
{
    lemma_selection_kept(k, r.segments);
}

proof fn lemma_selection_kept(k: Known, segs: Seq<Seq<Group>>)
    ensures
        ({
            let after = learn_segments(k, segs).params;
            &&& after.selected_security_function == k.params.selected_security_function
            &&& after.selected_tan_medium == k.params.selected_tan_medium
            &&& after.preferred_security_function == k.params.preferred_security_function
        }),
    decreases segs.len(),
{
    if segs.len() > 0 {
        lemma_selection_kept(k, segs.drop_last());
    }
}

proof fn lemma_method_at(methods: Seq<Method>, function: Seq<char>, k: int)
    requires
        0 <= k < methods.len(),
        methods[k].security_function == function,
        forall|i: int| 0 <= i < k ==> (#[trigger] methods[i]).security_function != function,
    ensures
        method_of(methods, function) == Some(methods[k]),
    decreases k,
{
    if k > 0 {
        let rest = methods.skip(1);
        assert(methods[0].security_function != function);
        assert(rest[k - 1] == methods[k]);
        assert forall|i: int| 0 <= i < k - 1 implies (#[trigger] rest[i]).security_function
            != function by {
            assert(rest[i] == methods[i + 1]);
        }
        lemma_method_at(rest, function, k - 1);
    }
}

proof fn lemma_no_method(methods: Seq<Method>, function: Seq<char>)
    requires
        forall|i: int|
            0 <= i < methods.len() ==> (#[trigger] methods[i]).security_function != function,
    ensures
        method_of(methods, function) is None,
    decreases methods.len(),
{
    if methods.len() > 0 {
        let rest = methods.skip(1);
        assert(methods[0].security_function != function);
        assert forall|i: int| 0 <= i < rest.len() implies (#[trigger] rest[i]).security_function
            != function by {
            assert(rest[i] == methods[i + 1]);
        }
        lemma_no_method(rest, function);
    }
}

/// The first method with the selected security function says which version of
/// HKTAN to use, whether to poll, how long to wait and how often to ask. Times
/// and counts that are not positive are replaced by 5, 5 and 20.
pub proof fn law_selected_method(p: Params, k: int)
    requires
        0 <= k < p.tan_methods.len(),
        p.tan_methods[k].security_function == p.selected_security_function,
        forall|i: int|
            0 <= i < k ==> (#[trigger] p.tan_methods[i]).security_function
                != p.selected_security_function,
    ensures
        ({
            let m = p.tan_methods[k];
            let (first, next, count) = poll_params(p);
            &&& selected_method(p) == Some(m)
            &&& hktan_version_of(p) == m.hktan_version
            &&& decoupled_method(p) == m.is_decoupled
            &&& m.wait_before_first_poll > 0 ==> first == m.wait_before_first_poll
            &&& m.wait_before_first_poll <= 0 ==> first == 5
            &&& m.wait_before_next_poll > 0 ==> next == m.wait_before_next_poll
            &&& m.wait_before_next_poll <= 0 ==> next == 5
            &&& m.decoupled_max_polls > 0 ==> count == m.decoupled_max_polls
            &&& m.decoupled_max_polls <= 0 ==> count == 20
        }),
{
    lemma_method_at(p.tan_methods, p.selected_security_function, k);
}

/// Without a method for the selected function version 7 is used, nothing is
/// decoupled, and the times and the count are 5, 5 and 20.
pub proof fn law_no_selected_method(p: Params)
    requires
        forall|i: int|
            0 <= i < p.tan_methods.len() ==> (#[trigger] p.tan_methods[i]).security_function
                != p.selected_security_function,
    ensures
        selected_method(p) is None,
        hktan_version_of(p) == 7,
        !decoupled_method(p),
        poll_params(p) == (5int, 5int, 20int),
{
    lemma_no_method(p.tan_methods, p.selected_security_function);
}

/// Choosing changes nothing but what is selected.
pub proof fn law_choice_frame(p: Params)
    ensures
        with_choice(p) == (Params {
            selected_security_function: with_choice(p).selected_security_function,
            ..p
        }),
{
}

/// What the segments of an answer tell is learned one behind the other.
pub proof fn law_learned_in_order(k: Known, a: Seq<Seq<Group>>, b: Seq<Seq<Group>>)
    ensures
        learn_segments(k, a + b) == learn_segments(learn_segments(k, a), b),
    decreases b.len(),
{
    let all = a + b;
    if b.len() == 0 {
        assert(all =~= a);
    } else {
        law_learned_in_order(k, a, b.drop_last());
        assert(all.drop_last() =~= a + b.drop_last());
        assert(all.last() == b.last());
    }
}

/// The version of the bank parameters is the number at DEG 1 of HIBPA, that of
/// the user parameters the number at DEG 3 of HIUPA; nothing else is learned.
pub proof fn law_versions_learned(k: Known, seg: Seq<Group>)
    ensures
        type_of(seg) == "HIBPA"@ ==> learn_segment(k, seg) == (Known {
            params: Params { bpd_version: u16_or_zero(text_at(seg, 1, 0)), ..k.params },
            ..k
        }),
        type_of(seg) == "HIUPA"@ ==> learn_segment(k, seg) == (Known {
            params: Params { upd_version: u16_or_zero(text_at(seg, 3, 0)), ..k.params },
            ..k
        }),
{
    lemma_learned_types();
}

/// HITANS adds its methods behind those that are known, HIUPD itself and its
/// account, and other parameter segments themselves; nothing else is learned.
pub proof fn law_lists_learned(k: Known, seg: Seq<Group>)
    ensures
        ({
            let p = learn_segment(k, seg).params;
            let t = type_of(seg);
            &&& p.tan_methods == (if t == "HITANS"@ {
                k.params.tan_methods + hitans_methods(seg)
            } else {
                k.params.tan_methods
            })
            &&& p.upd_segments == (if t == "HIUPD"@ {
                k.params.upd_segments.push(seg)
            } else {
                k.params.upd_segments
            })
            &&& p.accounts_from_upd == (if t == "HIUPD"@ && hiupd_account(seg) is Some {
                k.params.accounts_from_upd.push(hiupd_account(seg)->0)
            } else {
                k.params.accounts_from_upd
            })
            &&& has_prefix(t, "HI"@) && byte_len(t) >= 5 && t.last() == 'S' && t != "HITANS"@ && t
                != "HIPINS"@ ==> p.bpd_segments == k.params.bpd_segments.push(seg)
            &&& t == "HITANS"@ || t == "HIPINS"@ || !has_prefix(t, "HI"@) || t.last() != 'S'
                ==> p.bpd_segments == k.params.bpd_segments
            &&& p.selected_security_function == k.params.selected_security_function
            &&& p.selected_tan_medium == k.params.selected_tan_medium
            &&& p.allowed_security_functions == k.params.allowed_security_functions
            &&& p.preferred_security_function == k.params.preferred_security_function
        }),
{
    lemma_learned_types();
    reveal_strlit("HI");
}

/// HIPINS says for each operation that it has a rule on whether that needs a TAN,
/// whatever was known of it; it says nothing of other operations.
pub proof fn law_rules_learned(k: Known, seg: Seq<Group>, t: Seq<char>)
    ensures
        ({
            let p = learn_segment(k, seg).params;
            if type_of(seg) == "HIPINS"@ && hipins_rules(seg).contains_key(t) {
                operation_needs_tan(p, t) == hipins_rules(seg)[t]
            } else {
                operation_needs_tan(p, t) == operation_needs_tan(k.params, t)
            }
        }),
{
    lemma_learned_types();
}

/// The system identification is the one that HISYN states.
pub proof fn law_system_learned(k: Known, seg: Seq<Group>)
    ensures
        learn_segment(k, seg).system_id == (if type_of(seg) == "HISYN"@ && text_at(
            seg,
            1,
            0,
        ).len() > 0 {
            text_at(seg, 1, 0)
        } else {
            k.system_id
        }),
{
    lemma_learned_types();
}

/// Functions that an answer allows take the place of those allowed before; where
/// it allows none they stay. What else is learned comes from its segments.
pub proof fn law_allowed_learned(k: Known, r: Reply)
    ensures
        learned(k, r).params.allowed_security_functions == (if reply_allowed(r).len() > 0 {
            reply_allowed(r)
        } else {
            k.params.allowed_security_functions
        }),
        learned(k, r).system_id == learn_segments(k, r.segments).system_id,
        learned(k, r).params == (Params {
            allowed_security_functions: learned(k, r).params.allowed_security_functions,
            ..learn_segments(k, r.segments).params
        }),
{
    lemma_allowed_unlearned(k, r.segments);
}

proof fn lemma_allowed_unlearned(k: Known, segs: Seq<Seq<Group>>)
    ensures
        learn_segments(k, segs).params.allowed_security_functions
            == k.params.allowed_security_functions,
    decreases segs.len(),
{
    if segs.len() > 0 {
        lemma_allowed_unlearned(k, segs.drop_last());
    }
}

proof fn lemma_learned_types()
    ensures
        "HIBPA"@.len() == 5 && "HIUPA"@.len() == 5 && "HIUPD"@.len() == 5 && "HISYN"@.len() == 5,
        "HITANS"@.len() == 6 && "HIPINS"@.len() == 6,
        "HIBPA"@ != "HIUPA"@ && "HIBPA"@ != "HIUPD"@ && "HIBPA"@ != "HISYN"@,
        "HIUPA"@ != "HIUPD"@ && "HIUPA"@ != "HISYN"@ && "HIUPD"@ != "HISYN"@,
        "HITANS"@ != "HIPINS"@,
        "HIBPA"@.last() != 'S' && "HIUPA"@.last() != 'S' && "HIUPD"@.last() != 'S'
            && "HISYN"@.last() != 'S',
{
    reveal_strlit("HIBPA");
    reveal_strlit("HIUPA");
    reveal_strlit("HIUPD");
    reveal_strlit("HISYN");
    reveal_strlit("HITANS");
    reveal_strlit("HIPINS");
    assert("HIBPA"@[2] != "HIUPA"@[2] && "HIBPA"@[2] != "HIUPD"@[2] && "HIBPA"@[2] != "HISYN"@[2]);
    assert("HIUPA"@[4] != "HIUPD"@[4] && "HIUPA"@[2] != "HISYN"@[2] && "HIUPD"@[2] != "HISYN"@[2]);
    assert("HITANS"@[2] != "HIPINS"@[2]);
}

} // verus!
