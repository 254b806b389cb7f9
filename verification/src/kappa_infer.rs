//! Kappa inference: constraint propagation over the vessel graph.
//!
//! R1  concrete seed        — a vessel with a literal kappa seeds its range as a point
//! R2  coupling safety      — coupled vessels must have compatible kappa ranges
//! R3  forbidden exclusion  — no range may overlap (e^-1, e^-1/2) unless sentient
//! R4a upper narrowing      — a boundary below kappa.hi narrows the upper bound
//! R4b lower narrowing      — a boundary above kappa.lo narrows the lower bound
//! R4c point propagation    — kappa = boundary gives a point range
//! R7  fn param ranges      — annotated params create kappa range constraints
//! R8  fn return range      — a return annotation creates an output constraint
//! R9  fn composition check — a literal argument must lie in the callee's param range
//!
//! The inferred ranges are kept by name, in the order the names first came:
//! a later entry for a name replaces the earlier one in place.

use vstd::prelude::*;
use crate::ast::{
    CoupleDecl, CoupleView, DecimalView, Expr, ExprView, FnDecl, FnView, KappaRange, Program,
    ProgramView, RangeView, Stmt, StmtView, VesselDecl, VesselView, decimal_small, expr_ok,
    exprs_view, fn_ready, full_view, hint_small, lemma_call_args_ok, lemma_exprs_view_index, num_in,
    num_lt, num_of, nums_meet, program_ready, range_num, range_small, stmt_value, vessel_ready,
};
use crate::constants::{
    eps, forbidden_high, forbidden_high_digits, forbidden_high_num, forbidden_low,
    forbidden_low_digits, forbidden_low_num,
};
use crate::decimal::{Decimal, Num, Order, compare, is_within_eps, minus, num_within_eps, plus};
use crate::error::{DrcKind, Phase, VesselError, VesselResult};
use crate::fixed::{fixed4, fixed4_text};
use crate::lexer::SOURCE_LIMIT;
use crate::text::{decimal_text, push_decimal};

verus! {

// ---------------------------------------------------------------- state

/// What inference holds for one vessel.
#[derive(Debug, Clone)]
pub struct VesselInference {
    pub kappa: KappaRange,
    pub sentient: bool,
}

/// What inference holds for one function: each parameter's range, and the
/// range of its result.
#[derive(Debug, Clone)]
pub struct FnInference {
    pub params: Vec<(String, KappaRange)>,
    pub ret: KappaRange,
}

/// The inferred ranges of a program's vessels and functions, by name.
pub struct KappaInfer {
    pub vessels: Vec<(String, VesselInference)>,
    pub fns: Vec<(String, FnInference)>,
}

/// Named entries by view.
pub open spec fn pairs_view<V: View>(s: Seq<(String, V)>) -> Seq<(Seq<char>, V::V)> {
    s.map_values(|e: (String, V)| (e.0@, e.1@))
}

/// A vessel's inference: its range and whether it is sentient.
pub type VesselInfView = (RangeView, bool);

/// A function's inference: its parameters' ranges by name, and its result range.
pub type FnInfView = (Seq<(Seq<char>, RangeView)>, RangeView);

/// The vessels' inferences by name.
pub type VesselMap = Seq<(Seq<char>, VesselInfView)>;

/// The functions' inferences by name.
pub type FnMap = Seq<(Seq<char>, FnInfView)>;

impl View for VesselInference {
    type V = VesselInfView;

    open spec fn view(&self) -> VesselInfView {
        (self.kappa@, self.sentient)
    }
}

impl View for FnInference {
    type V = FnInfView;

    open spec fn view(&self) -> FnInfView {
        (pairs_view(self.params@), self.ret@)
    }
}

impl View for KappaInfer {
    type V = (VesselMap, FnMap);

    open spec fn view(&self) -> (VesselMap, FnMap) {
        (pairs_view(self.vessels@), pairs_view(self.fns@))
    }
}

// ---------------------------------------------------------------- entries by name

/// The names of named entries.
pub open spec fn keys_of<V>(s: Seq<(Seq<char>, V)>) -> Seq<Seq<char>> {
    s.map_values(|e: (Seq<char>, V)| e.0)
}

/// The first position at or after `i` where `k` stands.
pub open spec fn index_from(keys: Seq<Seq<char>>, k: Seq<char>, i: nat) -> Option<nat>
    decreases keys.len() - i,
{
    if i >= keys.len() {
        None
    } else if keys[i as int] == k {
        Some(i)
    } else {
        index_from(keys, k, i + 1)
    }
}

/// The position of the entry named `k`.
pub open spec fn position_of<V>(s: Seq<(Seq<char>, V)>, k: Seq<char>) -> Option<nat> {
    index_from(keys_of(s), k, 0)
}

/// The value of the entry named `k`.
pub open spec fn lookup<V>(s: Seq<(Seq<char>, V)>, k: Seq<char>) -> Option<V> {
    match position_of(s, k) {
        Some(i) => Some(s[i as int].1),
        None => None,
    }
}

/// The entries after setting `k` to `v`: in place if `k` is there, else at the end.
pub open spec fn assign<V>(s: Seq<(Seq<char>, V)>, k: Seq<char>, v: V) -> Seq<(Seq<char>, V)> {
    match position_of(s, k) {
        Some(i) => s.update(i as int, (k, v)),
        None => s.push((k, v)),
    }
}

/// A position found is one where the name stands.
pub proof fn lemma_index_from(keys: Seq<Seq<char>>, k: Seq<char>, i: nat)
    ensures
        index_from(keys, k, i) matches Some(j) ==> i <= j < keys.len() && keys[j as int] == k,
        index_from(keys, k, i) is None ==> forall|j: int| i <= j < keys.len() ==> keys[j] != k,
    decreases keys.len() - i,
{
    if i < keys.len() && keys[i as int] != k {
        lemma_index_from(keys, k, i + 1);
    }
}

/// The names of entries, before and after taking views.
pub proof fn lemma_keys_of_view<V: View>(s: Seq<(String, V)>)
    ensures
        keys_of(pairs_view(s)) == s.map_values(|e: (String, V)| e.0@),
{
    assert(keys_of(pairs_view(s)) =~= s.map_values(|e: (String, V)| e.0@));
}

/// Where the entry named `k` stands.
fn find_key<V: View>(s: &Vec<(String, V)>, k: &String) -> (r: Option<usize>)
    ensures
        match r {
            Some(i) => position_of(pairs_view(s@), k@) == Some(i as nat) && i < s.len(),
            None => position_of(pairs_view(s@), k@) is None,
        },
{
    let ghost keys = keys_of(pairs_view(s@));
    proof {
        lemma_keys_of_view(s@);
    }
    let mut i: usize = 0;
    while i < s.len()
        invariant
            i <= s.len(),
            keys == keys_of(pairs_view(s@)),
            keys.len() == s.len(),
            forall|j: int| 0 <= j < s.len() ==> #[trigger] keys[j] == s@[j].0@,
            index_from(keys, k@, 0) == index_from(keys, k@, i as nat),
        decreases s.len() - i,
    {
        if s[i].0.eq(k) {
            return Some(i);
        }
        i = i + 1;
    }
    None
}

/// Sets the entry named `k` to `v`.
fn put<V: View>(s: &mut Vec<(String, V)>, k: String, v: V)
    ensures
        pairs_view(final(s)@) == assign(pairs_view(old(s)@), k@, v@),
{
    match find_key(s, &k) {
        Some(i) => {
            let ghost before = s@;
            s.set(i, (k, v));
            proof {
                assert(pairs_view(s@) =~= pairs_view(before).update(i as int, (k@, v@)));
            }
        },
        None => {
            let ghost before = s@;
            s.push((k, v));
            proof {
                assert(pairs_view(s@) =~= pairs_view(before).push((k@, v@)));
            }
        },
    }
}

// ---------------------------------------------------------------- diagnostics

/// A diagnostic as a view: kind, phase, message, line and column.
pub type ErrView = (DrcKind, Phase, Seq<char>, Option<usize>, Option<usize>);

/// The view of a diagnostic.
pub open spec fn err_view(e: VesselError) -> ErrView {
    (e.kind, e.phase, e.message@, e.line, e.col)
}

/// The diagnostic a failed outcome carries, if any.
pub open spec fn failure_of(r: VesselResult<()>) -> Option<ErrView> {
    match r {
        Ok(()) => None,
        Err(e) => Some(err_view(e)),
    }
}

/// How `e^-1` and `e^-1/2` are shown: `0.3679` and `0.6065`.
pub open spec fn zone_text() -> Seq<char> {
    "("@ + fixed4_text((false, forbidden_low_digits(), 17)) + ", "@ + fixed4_text(
        (false, forbidden_high_digits(), 17),
    ) + ")"@
}

/// R1: a vessel's kappa names a vessel not seen before it.
pub open spec fn unknown_kappa_error(name: Seq<char>, line: nat) -> ErrView {
    (
        DrcKind::Primary,
        Phase::KappaInfer,
        "Kappa references unknown vessel '"@ + name + "'"@,
        Some(line as usize),
        Some(0usize),
    )
}

/// R3: a vessel that is not sentient has a range meeting the forbidden zone,
/// a fatal (secondary) violation.
pub open spec fn forbidden_error(name: Seq<char>, k: RangeView) -> ErrView {
    (
        DrcKind::Secondary,
        Phase::KappaInfer,
        "Vessel '"@ + name + "' kappa range ["@ + fixed4_text(k.0) + ", "@ + fixed4_text(k.1)
            + "] overlaps forbidden zone "@ + zone_text()
            + ". Only sentient vessels may occupy this zone."@,
        None,
        None,
    )
}

/// R2: a couple names a vessel that is not declared.
pub open spec fn unknown_couple_error(name: Seq<char>, line: nat) -> ErrView {
    (
        DrcKind::Primary,
        Phase::KappaInfer,
        "Couple references unknown vessel '"@ + name + "'"@,
        Some(line as usize),
        Some(0usize),
    )
}

/// R2: two coupled vessels lie apart in the same zone.
pub open spec fn disjoint_error(src: Seq<char>, dst: Seq<char>, a: RangeView, b: RangeView) -> ErrView {
    (
        DrcKind::Secondary,
        Phase::KappaInfer,
        "Coupling '"@ + src + "'->'"@ + dst + "': kappa ranges ["@ + fixed4_text(a.0) + ","@
            + fixed4_text(a.1) + "] and ["@ + fixed4_text(b.0) + ","@ + fixed4_text(b.1)
            + "] do not intersect; coupling cannot propagate."@,
        None,
        None,
    )
}

/// R9: the `i`-th argument, a literal, lies outside the parameter's range.
pub open spec fn argument_error(
    i: nat,
    av: DecimalView,
    callee: Seq<char>,
    pname: Seq<char>,
    k: RangeView,
) -> ErrView {
    (
        DrcKind::Tertiary,
        Phase::KappaInfer,
        "R9: Argument "@ + decimal_text(i) + " ("@ + fixed4_text(av) + ") to '"@ + callee + "' param '"@
            + pname + "' is outside expected range ["@ + fixed4_text(k.0) + ","@ + fixed4_text(k.1)
            + "]."@,
        None,
        None,
    )
}

/// `"a" + name + "b"`.
fn quoted(a: &str, name: &String, b: &str) -> (s: String)
    ensures
        s@ == a@ + name@ + b@,
{
    let mut s = String::from_str(a);
    s.append(name.as_str());
    s.append(b);
    s
}

/// Appends a number shown with four decimals.
fn push_fixed4(s: &mut String, d: &Decimal)
    requires
        decimal_small(d@),
    ensures
        final(s)@ == old(s)@ + fixed4_text(d@),
{
    let t = fixed4(d);
    s.append(t.as_str());
}

fn unknown_kappa(name: &String, line: usize) -> (e: VesselError)
    ensures
        err_view(e) == unknown_kappa_error(name@, line as nat),
{
    VesselError::primary_at(Phase::KappaInfer, line, 0, quoted("Kappa references unknown vessel '", name, "'"))
}

fn unknown_couple(name: &String, line: usize) -> (e: VesselError)
    ensures
        err_view(e) == unknown_couple_error(name@, line as nat),
{
    VesselError::primary_at(Phase::KappaInfer, line, 0, quoted("Couple references unknown vessel '", name, "'"))
}

fn forbidden(name: &String, k: &KappaRange) -> (e: VesselError)
    requires
        range_small(k@),
    ensures
        err_view(e) == forbidden_error(name@, k@),
{
    let mut m = quoted("Vessel '", name, "' kappa range [");
    push_fixed4(&mut m, &k.lo);
    m.append(", ");
    push_fixed4(&mut m, &k.hi);
    m.append("] overlaps forbidden zone (");
    push_fixed4(&mut m, &forbidden_low());
    m.append(", ");
    push_fixed4(&mut m, &forbidden_high());
    m.append("). Only sentient vessels may occupy this zone.");
    proof {
        reveal_strlit(", ");
        reveal_strlit("] overlaps forbidden zone (");
        reveal_strlit("] overlaps forbidden zone ");
        reveal_strlit("(");
        reveal_strlit(")");
        reveal_strlit("). Only sentient vessels may occupy this zone.");
        reveal_strlit(". Only sentient vessels may occupy this zone.");
    }
    assert(m@ =~= forbidden_error(name@, k@).2);
    VesselError::drc(DrcKind::Secondary, Phase::KappaInfer, m)
}

fn disjoint(src: &String, dst: &String, a: &KappaRange, b: &KappaRange) -> (e: VesselError)
    requires
        range_small(a@),
        range_small(b@),
    ensures
        err_view(e) == disjoint_error(src@, dst@, a@, b@),
{
    let mut m = quoted("Coupling '", src, "'->'");
    m.append(dst.as_str());
    m.append("': kappa ranges [");
    push_fixed4(&mut m, &a.lo);
    m.append(",");
    push_fixed4(&mut m, &a.hi);
    m.append("] and [");
    push_fixed4(&mut m, &b.lo);
    m.append(",");
    push_fixed4(&mut m, &b.hi);
    m.append("] do not intersect; coupling cannot propagate.");
    assert(m@ =~= disjoint_error(src@, dst@, a@, b@).2);
    VesselError::drc(DrcKind::Secondary, Phase::KappaInfer, m)
}

fn argument_outside(i: usize, av: &Decimal, callee: &String, pname: &String, k: &KappaRange) -> (e: VesselError)
    requires
        decimal_small(av@),
        range_small(k@),
    ensures
        err_view(e) == argument_error(i as nat, av@, callee@, pname@, k@),
{
    let mut m = String::from_str("R9: Argument ");
    push_decimal(&mut m, i);
    m.append(" (");
    push_fixed4(&mut m, av);
    m.append(") to '");
    m.append(callee.as_str());
    m.append("' param '");
    m.append(pname.as_str());
    m.append("' is outside expected range [");
    push_fixed4(&mut m, &k.lo);
    m.append(",");
    push_fixed4(&mut m, &k.hi);
    m.append("].");
    assert(m@ =~= argument_error(i as nat, av@, callee@, pname@, k@).2);
    VesselError::drc(DrcKind::Tertiary, Phase::KappaInfer, m)
}

// ---------------------------------------------------------------- the rules

/// The ranges of a vessel map are all small literals.
pub open spec fn vessels_small(m: VesselMap) -> bool {
    forall|i: int| 0 <= i < m.len() ==> #[trigger] range_small(m[i].1.0)
}

/// The ranges a function inference holds are all small literals.
pub open spec fn fn_inference_small(f: FnInfView) -> bool {
    &&& range_small(f.1)
    &&& forall|j: int| 0 <= j < f.0.len() ==> #[trigger] range_small(f.0[j].1)
}

/// The ranges of a function map are all small literals.
pub open spec fn fns_small(m: FnMap) -> bool {
    forall|i: int| 0 <= i < m.len() ==> #[trigger] fn_inference_small(m[i].1)
}

/// R1: the seed range of a vessel: a literal gives the point, a name the
/// range already inferred for that vessel, any other expression `[0, 1]`.
pub open spec fn seed_range(v: VesselView, m: VesselMap) -> Result<RangeView, ErrView> {
    match v.kappa {
        ExprView::FloatLit(d) => Ok((d, d)),
        ExprView::Ident(name) => match lookup(m, name) {
            Some(inf) => Ok(inf.0),
            None => Err(unknown_kappa_error(name, v.line)),
        },
        _ => Ok(full_view()),
    }
}

/// R1 over the vessels from `i` on: each is seeded in turn, and the first
/// unknown name stops the pass.
pub open spec fn seed_from(vs: Seq<VesselView>, i: nat, m: VesselMap) -> (VesselMap, Option<ErrView>)
    decreases vs.len() - i,
{
    if i >= vs.len() {
        (m, None)
    } else {
        match seed_range(vs[i as int], m) {
            Err(e) => (m, Some(e)),
            Ok(k) => seed_from(vs, i + 1, assign(m, vs[i as int].name, (k, vs[i as int].sentient))),
        }
    }
}

/// The forbidden zone, pulled in by `10^-9` at each edge.
pub open spec fn forbidden_zone() -> (Num, Num) {
    ((36787944217144233, 17), (60653065871263342, 17))
}

/// R3 over the vessels from `i` on: the first that is not sentient and whose
/// range meets the forbidden zone.
pub open spec fn exclusion_from(vs: Seq<VesselView>, i: nat, m: VesselMap) -> Option<ErrView>
    decreases vs.len() - i,
{
    if i >= vs.len() {
        None
    } else {
        match lookup(m, vs[i as int].name) {
            Some(inf) => if !inf.1 && nums_meet(range_num(inf.0), forbidden_zone()) {
                Some(forbidden_error(vs[i as int].name, inf.0))
            } else {
                exclusion_from(vs, i + 1, m)
            },
            None => exclusion_from(vs, i + 1, m),
        }
    }
}

/// R2 for one couple: both vessels must be known, and two that are not
/// sentient, lie in the same zone outside the forbidden one (both below
/// `e^-1`, or both above `e^-1/2`) and do not meet, cannot be coupled.
pub open spec fn coupling_check(c: CoupleView, m: VesselMap) -> Option<ErrView> {
    match lookup(m, c.src) {
        None => Some(unknown_couple_error(c.src, c.line)),
        Some(a) => match lookup(m, c.dst) {
            None => Some(unknown_couple_error(c.dst, c.line)),
            Some(b) => {
                let both_low = num_lt(num_of(a.0.1), forbidden_low_num()) && num_lt(
                    num_of(b.0.1),
                    forbidden_low_num(),
                );
                let both_high = num_lt(forbidden_high_num(), num_of(a.0.0)) && num_lt(
                    forbidden_high_num(),
                    num_of(b.0.0),
                );
                if !a.1 && !b.1 && (both_low || both_high) && !nums_meet(range_num(a.0), range_num(b.0)) {
                    Some(disjoint_error(c.src, c.dst, a.0, b.0))
                } else {
                    None
                }
            },
        },
    }
}

/// R2 over the couples from `i` on.
pub open spec fn coupling_from(cs: Seq<CoupleView>, i: nat, m: VesselMap) -> Option<ErrView>
    decreases cs.len() - i,
{
    if i >= cs.len() {
        None
    } else {
        match coupling_check(cs[i as int], m) {
            Some(e) => Some(e),
            None => coupling_from(cs, i + 1, m),
        }
    }
}

/// R4 for one range and a literal boundary `b`: a boundary below `hi`
/// becomes `hi` (R4a), one above `lo` becomes `lo` (R4b), and when both ends
/// then lie within `10^-9` of it the range is the point `b` (R4c).
pub open spec fn narrowed(k: RangeView, b: DecimalView) -> RangeView {
    let hi = if num_lt(num_of(b), num_of(k.1)) { b } else { k.1 };
    let lo = if num_lt(num_of(k.0), num_of(b)) { b } else { k.0 };
    if num_within_eps(num_of(b), num_of(lo)) && num_within_eps(num_of(b), num_of(hi)) {
        (b, b)
    } else {
        (lo, hi)
    }
}

/// R4 over the vessels from `i` on: each literal boundary narrows its vessel's range.
pub open spec fn narrow_from(vs: Seq<VesselView>, i: nat, m: VesselMap) -> VesselMap
    decreases vs.len() - i,
{
    if i >= vs.len() {
        m
    } else {
        let v = vs[i as int];
        let m2 = match v.boundary {
            ExprView::FloatLit(b) => match position_of(m, v.name) {
                Some(j) => m.update(j as int, (m[j as int].0, (narrowed(m[j as int].1.0, b), m[j as int].1.1))),
                None => m,
            },
            _ => m,
        };
        narrow_from(vs, i + 1, m2)
    }
}

/// A parameter's range: its hint, or `[0, 1]`.
pub open spec fn hint_or_full(h: Option<RangeView>) -> RangeView {
    match h {
        Some(r) => r,
        None => full_view(),
    }
}

/// R7 over the parameters from `i` on, after those in `acc`.
pub open spec fn params_from(
    ps: Seq<(Seq<char>, Option<RangeView>)>,
    i: nat,
    acc: Seq<(Seq<char>, RangeView)>,
) -> Seq<(Seq<char>, RangeView)>
    decreases ps.len() - i,
{
    if i >= ps.len() {
        acc
    } else {
        params_from(ps, i + 1, assign(acc, ps[i as int].0, hint_or_full(ps[i as int].1)))
    }
}

/// R7 and R8 for one function.
pub open spec fn fn_inference(f: FnView) -> FnInfView {
    (params_from(f.params, 0, Seq::empty()), hint_or_full(f.ret_hint))
}

/// R7 and R8 over the functions from `i` on.
pub open spec fn fns_from(fs: Seq<FnView>, i: nat, m: FnMap) -> FnMap
    decreases fs.len() - i,
{
    if i >= fs.len() {
        m
    } else {
        fns_from(fs, i + 1, assign(m, fs[i as int].name, fn_inference(fs[i as int])))
    }
}

/// R9 for the parameters of a call from `i` on: the first literal argument
/// outside its parameter's range, parameters and arguments paired in order.
pub open spec fn arguments_from(
    callee: Seq<char>,
    args: Seq<ExprView>,
    ps: Seq<(Seq<char>, RangeView)>,
    i: nat,
) -> Option<ErrView>
    decreases ps.len() - i,
{
    if i >= ps.len() {
        None
    } else if i < args.len() && args[i as int] is FloatLit && !num_in(
        range_num(ps[i as int].1),
        num_of(args[i as int]->FloatLit_0),
    ) {
        Some(argument_error(i, args[i as int]->FloatLit_0, callee, ps[i as int].0, ps[i as int].1))
    } else {
        arguments_from(callee, args, ps, i + 1)
    }
}

/// R9 over an expression: each call of a known function is checked, then
/// its arguments, left to right.
pub open spec fn composition_expr(e: ExprView, m: FnMap) -> Option<ErrView>
    decreases e, 0nat,
{
    match e {
        ExprView::Call(callee, args) => {
            let own = match lookup(m, callee) {
                Some(fi) => arguments_from(callee, args, fi.0, 0),
                None => None,
            };
            if own is Some {
                own
            } else {
                composition_args(args, 0, m)
            }
        },
        ExprView::BinOp(_, l, r) => match composition_expr(*l, m) {
            Some(x) => Some(x),
            None => composition_expr(*r, m),
        },
        ExprView::UnaryOp(_, x) => composition_expr(*x, m),
        ExprView::Member(o, _) => composition_expr(*o, m),
        ExprView::Forall(_, b) => composition_expr(*b, m),
        ExprView::If(c, t, f) => match composition_expr(*c, m) {
            Some(x) => Some(x),
            None => match composition_expr(*t, m) {
                Some(x) => Some(x),
                None => composition_expr(*f, m),
            },
        },
        _ => None,
    }
}

/// R9 over the arguments from `i` on.
pub open spec fn composition_args(args: Seq<ExprView>, i: nat, m: FnMap) -> Option<ErrView>
    decreases args, args.len() - i,
{
    if i >= args.len() {
        None
    } else {
        match composition_expr(args[i as int], m) {
            Some(x) => Some(x),
            None => composition_args(args, i + 1, m),
        }
    }
}

/// R9 over the statements of a body from `i` on.
pub open spec fn composition_body(body: Seq<StmtView>, i: nat, m: FnMap) -> Option<ErrView>
    decreases body.len() - i,
{
    if i >= body.len() {
        None
    } else {
        match composition_expr(stmt_value(body[i as int]), m) {
            Some(x) => Some(x),
            None => composition_body(body, i + 1, m),
        }
    }
}

/// R9 over the functions from `i` on.
pub open spec fn composition_from(fs: Seq<FnView>, i: nat, m: FnMap) -> Option<ErrView>
    decreases fs.len() - i,
{
    if i >= fs.len() {
        None
    } else {
        match composition_body(fs[i as int].body, 0, m) {
            Some(x) => Some(x),
            None => composition_from(fs, i + 1, m),
        }
    }
}

/// The whole pass over a program from the state `s0`: R1, R3, R2, R4,
/// R7/R8 and R9 in turn.  The state it leaves, and the diagnostic that
/// stopped it, if any.
pub open spec fn inference(p: ProgramView, s0: (VesselMap, FnMap)) -> ((VesselMap, FnMap), Option<ErrView>) {
    let (m1, e1) = seed_from(p.vessels, 0, s0.0);
    if e1 is Some {
        ((m1, s0.1), e1)
    } else {
        let e3 = exclusion_from(p.vessels, 0, m1);
        if e3 is Some {
            ((m1, s0.1), e3)
        } else {
            let e2 = coupling_from(p.couples, 0, m1);
            if e2 is Some {
                ((m1, s0.1), e2)
            } else {
                let m4 = narrow_from(p.vessels, 0, m1);
                let f = fns_from(p.fns, 0, s0.1);
                ((m4, f), composition_from(p.fns, 0, f))
            }
        }
    }
}

// ---------------------------------------------------------------- small ranges stay small

/// A position found for a name is one of the entries, and holds that name.
pub proof fn lemma_position<V>(m: Seq<(Seq<char>, V)>, k: Seq<char>)
    ensures
        position_of(m, k) matches Some(j) ==> j < m.len() && m[j as int].0 == k,
        position_of(m, k) is None ==> forall|j: int| 0 <= j < m.len() ==> m[j].0 != k,
{
    lemma_index_from(keys_of(m), k, 0);
    if position_of(m, k) is None {
        assert forall|j: int| 0 <= j < m.len() implies m[j].0 != k by {
            assert(keys_of(m)[j] == m[j].0);
        }
    }
}

proof fn lemma_assign_vessels_small(m: VesselMap, k: Seq<char>, v: VesselInfView)
    requires
        vessels_small(m),
        range_small(v.0),
    ensures
        vessels_small(assign(m, k, v)),
{
    lemma_position(m, k);
    let m2 = assign(m, k, v);
    assert forall|i: int| 0 <= i < m2.len() implies #[trigger] range_small(m2[i].1.0) by {
        if position_of(m, k) is None && i == m.len() {
        } else {
            assert(m2[i] == m[i] || m2[i] == (k, v));
        }
    }
}

proof fn lemma_assign_fns_small(m: FnMap, k: Seq<char>, v: FnInfView)
    requires
        fns_small(m),
        fn_inference_small(v),
    ensures
        fns_small(assign(m, k, v)),
{
    lemma_position(m, k);
    let m2 = assign(m, k, v);
    assert forall|i: int| 0 <= i < m2.len() implies #[trigger] fn_inference_small(m2[i].1) by {
        if position_of(m, k) is None && i == m.len() {
        } else {
            assert(m2[i] == m[i] || m2[i] == (k, v));
        }
    }
}

proof fn lemma_assign_params_small(m: Seq<(Seq<char>, RangeView)>, k: Seq<char>, v: RangeView)
    requires
        forall|j: int| 0 <= j < m.len() ==> #[trigger] range_small(m[j].1),
        range_small(v),
    ensures
        forall|j: int| 0 <= j < assign(m, k, v).len() ==> #[trigger] range_small(assign(m, k, v)[j].1),
{
    lemma_position(m, k);
    let m2 = assign(m, k, v);
    assert forall|j: int| 0 <= j < m2.len() implies #[trigger] range_small(m2[j].1) by {
        if position_of(m, k) is None && j == m.len() {
        } else {
            assert(m2[j] == m[j] || m2[j] == (k, v));
        }
    }
}

/// `[0, 1]` is small.
proof fn lemma_full_small()
    ensures
        range_small(full_view()),
{
    assert(SOURCE_LIMIT >= 1);
}

// ---------------------------------------------------------------- names occur once

/// No name stands twice among the entries.
pub open spec fn distinct_names<V>(m: Seq<(Seq<char>, V)>) -> bool {
    forall|i: int, j: int| 0 <= i < j < m.len() ==> #[trigger] m[i].0 != #[trigger] m[j].0
}

/// Setting a name keeps names distinct.
pub proof fn lemma_assign_distinct<V>(m: Seq<(Seq<char>, V)>, k: Seq<char>, v: V)
    requires
        distinct_names(m),
    ensures
        distinct_names(assign(m, k, v)),
{
    lemma_position(m, k);
    let m2 = assign(m, k, v);
    assert forall|i: int, j: int| 0 <= i < j < m2.len() implies #[trigger] m2[i].0 != #[trigger] m2[j].0 by {
        match position_of(m, k) {
            Some(p) => {
                assert(m2[i].0 == m[i].0);
                assert(m2[j].0 == m[j].0);
            },
            None => {
                if j == m.len() {
                    assert(m2[i].0 == m[i].0);
                } else {
                    assert(m2[i].0 == m[i].0);
                    assert(m2[j].0 == m[j].0);
                }
            },
        }
    }
}

pub proof fn lemma_seed_distinct(vs: Seq<VesselView>, i: nat, m: VesselMap)
    requires
        distinct_names(m),
    ensures
        distinct_names(seed_from(vs, i, m).0),
    decreases vs.len() - i,
{
    if i < vs.len() {
        if let Ok(k) = seed_range(vs[i as int], m) {
            let m2 = assign(m, vs[i as int].name, (k, vs[i as int].sentient));
            lemma_assign_distinct(m, vs[i as int].name, (k, vs[i as int].sentient));
            lemma_seed_distinct(vs, i + 1, m2);
        }
    }
}

pub proof fn lemma_narrow_distinct(vs: Seq<VesselView>, i: nat, m: VesselMap)
    requires
        distinct_names(m),
    ensures
        distinct_names(narrow_from(vs, i, m)),
    decreases vs.len() - i,
{
    if i < vs.len() {
        let v = vs[i as int];
        let m2 = match v.boundary {
            ExprView::FloatLit(b) => match position_of(m, v.name) {
                Some(j) => m.update(j as int, (m[j as int].0, (narrowed(m[j as int].1.0, b), m[j as int].1.1))),
                None => m,
            },
            _ => m,
        };
        lemma_position(m, v.name);
        assert(keys_of(m2) =~= keys_of(m));
        assert forall|a: int, c: int| 0 <= a < c < m2.len() implies #[trigger] m2[a].0 != #[trigger] m2[c].0 by {
            assert(keys_of(m2)[a] == m2[a].0 && keys_of(m)[a] == m[a].0);
            assert(keys_of(m2)[c] == m2[c].0 && keys_of(m)[c] == m[c].0);
        }
        lemma_narrow_distinct(vs, i + 1, m2);
    }
}

pub proof fn lemma_params_distinct(
    ps: Seq<(Seq<char>, Option<RangeView>)>,
    i: nat,
    acc: Seq<(Seq<char>, RangeView)>,
)
    requires
        distinct_names(acc),
    ensures
        distinct_names(params_from(ps, i, acc)),
    decreases ps.len() - i,
{
    if i < ps.len() {
        let acc2 = assign(acc, ps[i as int].0, hint_or_full(ps[i as int].1));
        lemma_assign_distinct(acc, ps[i as int].0, hint_or_full(ps[i as int].1));
        lemma_params_distinct(ps, i + 1, acc2);
    }
}

/// Every function inference's parameters are distinct by name.
pub open spec fn params_distinct(m: FnMap) -> bool {
    forall|i: int| 0 <= i < m.len() ==> #[trigger] distinct_names(m[i].1.0)
}

pub proof fn lemma_fns_distinct(fs: Seq<FnView>, i: nat, m: FnMap)
    requires
        distinct_names(m),
        params_distinct(m),
    ensures
        distinct_names(fns_from(fs, i, m)),
        params_distinct(fns_from(fs, i, m)),
    decreases fs.len() - i,
{
    if i < fs.len() {
        let fi = fn_inference(fs[i as int]);
        lemma_params_distinct(fs[i as int].params, 0, Seq::empty());
        let m2 = assign(m, fs[i as int].name, fi);
        lemma_assign_distinct(m, fs[i as int].name, fi);
        lemma_position(m, fs[i as int].name);
        assert forall|j: int| 0 <= j < m2.len() implies #[trigger] distinct_names(m2[j].1.0) by {
            if position_of(m, fs[i as int].name) is None && j == m.len() {
            } else {
                assert(m2[j] == m[j] || m2[j].1 == fi);
            }
        }
        lemma_fns_distinct(fs, i + 1, m2);
    }
}

// ---------------------------------------------------------------- the pass

/// `a < b` as numbers.
fn less(a: &Decimal, b: &Decimal) -> (r: bool)
    requires
        decimal_small(a@),
        decimal_small(b@),
    ensures
        r == num_lt(num_of(a@), num_of(b@)),
{
    matches!(compare(a, b), Order::Less)
}

/// R4 for one range and a literal boundary.
fn narrow(k: &KappaRange, b: &Decimal) -> (r: KappaRange)
    requires
        range_small(k@),
        decimal_small(b@),
    ensures
        r@ == narrowed(k@, b@),
        range_small(r@),
{
    // R4a: upper narrowing
    let hi = if less(b, &k.hi) { b.duplicate() } else { k.hi.duplicate() };
    // R4b: lower narrowing
    let lo = if less(&k.lo, b) { b.duplicate() } else { k.lo.duplicate() };
    // R4c: point propagation
    if is_within_eps(b, &lo) && is_within_eps(b, &hi) {
        KappaRange::point(b.duplicate())
    } else {
        KappaRange::new(lo, hi)
    }
}

impl KappaInfer {
    /// Every range the state holds is a small literal, and no vessel, no
    /// function and no parameter of a function is held twice under one name.
    pub open spec fn wf(&self) -> bool {
        &&& vessels_small(self@.0)
        &&& fns_small(self@.1)
        &&& distinct_names(self@.0)
        &&& distinct_names(self@.1)
        &&& params_distinct(self@.1)
    }

    /// No vessels and no functions yet.
    pub fn new() -> (k: Self)
        ensures
            k@.0 == Seq::<(Seq<char>, VesselInfView)>::empty(),
            k@.1 == Seq::<(Seq<char>, FnInfView)>::empty(),
            k.wf(),
    {
        let k = KappaInfer { vessels: Vec::new(), fns: Vec::new() };
        assert(k@.0 =~= Seq::<(Seq<char>, VesselInfView)>::empty());
        assert(k@.1 =~= Seq::<(Seq<char>, FnInfView)>::empty());
        k
    }

    /// What is inferred for the vessel named `name`.
    pub fn vessel(&self, name: &String) -> (r: Option<&VesselInference>)
        ensures
            match r {
                Some(v) => lookup(self@.0, name@) == Some(v@),
                None => lookup(self@.0, name@) is None,
            },
    {
        match find_key(&self.vessels, name) {
            Some(j) => {
                assert(pairs_view(self.vessels@)[j as int].1 == self.vessels@[j as int].1@);
                Some(&self.vessels[j].1)
            },
            None => None,
        }
    }

    /// What is inferred for the function named `name`.
    pub fn function(&self, name: &String) -> (r: Option<&FnInference>)
        ensures
            match r {
                Some(f) => lookup(self@.1, name@) == Some(f@),
                None => lookup(self@.1, name@) is None,
            },
    {
        match find_key(&self.fns, name) {
            Some(j) => {
                assert(pairs_view(self.fns@)[j as int].1 == self.fns@[j as int].1@);
                Some(&self.fns[j].1)
            },
            None => None,
        }
    }

    /// R1 for one vessel.
    fn seed_range_of(&self, vd: &VesselDecl) -> (r: VesselResult<KappaRange>)
        requires
            vessels_small(self@.0),
            vessel_ready(vd@),
        ensures
            match seed_range(vd@, self@.0) {
                Ok(k) => r matches Ok(x) && x@ == k && range_small(k),
                Err(e) => r matches Err(x) && err_view(x) == e,
            },
    {
        match &vd.kappa {
            Expr::FloatLit(v) => Ok(KappaRange::point(v.duplicate())),
            Expr::Ident(name) => match find_key(&self.vessels, name) {
                // a reference to another vessel's kappa
                Some(j) => {
                    proof {
                        assert(pairs_view(self.vessels@)[j as int].1.0 == self.vessels@[j as int].1.kappa@);
                    }
                    Ok(self.vessels[j].1.kappa.duplicate())
                },
                None => Err(unknown_kappa(name, vd.line)),
            },
            // other expressions fall back to the full range, for R4 to narrow
            _ => {
                proof {
                    lemma_full_small();
                }
                Ok(KappaRange::full())
            },
        }
    }

    /// R1: seeds every vessel in turn.
    fn seed_vessels(&mut self, vessels: &Vec<VesselDecl>) -> (r: VesselResult<()>)
        requires
            vessels_small(old(self)@.0),
            forall|i: int| 0 <= i < vessels.len() ==> #[trigger] vessel_ready(vessels@[i]@),
        ensures
            final(self)@.1 == old(self)@.1,
            vessels_small(final(self)@.0),
            (final(self)@.0, failure_of(r)) == seed_from(vessels@.map_values(|v: VesselDecl| v@), 0, old(self)@.0),
    {
        let ghost vs = vessels@.map_values(|v: VesselDecl| v@);
        let mut i: usize = 0;
        while i < vessels.len()
            invariant
                i <= vessels.len(),
                vs == vessels@.map_values(|v: VesselDecl| v@),
                forall|j: int| 0 <= j < vessels.len() ==> #[trigger] vessel_ready(vessels@[j]@),
                vessels_small(self@.0),
                self@.1 == old(self)@.1,
                seed_from(vs, 0, old(self)@.0) == seed_from(vs, i as nat, self@.0),
            decreases vessels.len() - i,
        {
            let vd = &vessels[i];
            assert(vs[i as int] == vd@);
            let k = match self.seed_range_of(vd) {
                Ok(k) => k,
                Err(e) => return Err(e),
            };
            let ghost before = self@.0;
            put(&mut self.vessels, vd.name.clone(), VesselInference { kappa: k, sentient: vd.sentient });
            proof {
                lemma_assign_vessels_small(before, vd.name@, (k@, vd.sentient));
            }
            i = i + 1;
        }
        Ok(())
    }

    /// The forbidden zone pulled in by `10^-9` at each edge.
    fn zone() -> (z: KappaRange)
        ensures
            z.fits(),
            range_num(z@) == forbidden_zone(),
    {
        let fl = forbidden_low();
        let fh = forbidden_high();
        let e = eps();
        let lo = plus(&fl, &e);
        let hi = minus(&fh, &e);
        proof {
            reveal_with_fuel(crate::decimal::pow10, 9);
            let p8 = crate::decimal::pow10(8);
            assert(p8 == 100000000);
            assert(e.value().0 * p8 == 100000000) by (nonlinear_arith)
                requires
                    e.value().0 == 1,
                    p8 == 100000000,
            ;
            let p0 = crate::decimal::pow10(0);
            assert(p0 == 1);
            assert(fl.value().0 * p0 == 36787944117144233) by (nonlinear_arith)
                requires
                    fl.value().0 == 36787944117144233,
                    p0 == 1,
            ;
            assert(fh.value().0 * p0 == 60653065971263342) by (nonlinear_arith)
                requires
                    fh.value().0 == 60653065971263342,
                    p0 == 1,
            ;
        }
        KappaRange::new(lo, hi)
    }

    /// R3: no vessel that is not sentient may have a range meeting the
    /// forbidden zone.
    fn check_exclusion(&self, vessels: &Vec<VesselDecl>) -> (r: VesselResult<()>)
        requires
            vessels_small(self@.0),
        ensures
            failure_of(r) == exclusion_from(vessels@.map_values(|v: VesselDecl| v@), 0, self@.0),
    {
        let ghost vs = vessels@.map_values(|v: VesselDecl| v@);
        let zone = Self::zone();
        let mut i: usize = 0;
        while i < vessels.len()
            invariant
                i <= vessels.len(),
                vs == vessels@.map_values(|v: VesselDecl| v@),
                vessels_small(self@.0),
                zone.fits(),
                range_num(zone@) == forbidden_zone(),
                exclusion_from(vs, 0, self@.0) == exclusion_from(vs, i as nat, self@.0),
            decreases vessels.len() - i,
        {
            let vd = &vessels[i];
            assert(vs[i as int] == vd@);
            match find_key(&self.vessels, &vd.name) {
                Some(j) => {
                    let inf = &self.vessels[j].1;
                    assert(pairs_view(self.vessels@)[j as int].1 == inf@);
                    assert(range_small(inf.kappa@));
                    if !inf.sentient && inf.kappa.intersects(&zone) {
                        return Err(forbidden(&vd.name, &inf.kappa));
                    }
                },
                None => {},
            }
            i = i + 1;
        }
        Ok(())
    }

    /// R2: every couple names known vessels that can be coupled.
    fn check_couplings(&self, couples: &Vec<CoupleDecl>) -> (r: VesselResult<()>)
        requires
            vessels_small(self@.0),
        ensures
            failure_of(r) == coupling_from(couples@.map_values(|c: CoupleDecl| c@), 0, self@.0),
    {
        let ghost cs = couples@.map_values(|c: CoupleDecl| c@);
        let fl = forbidden_low();
        let fh = forbidden_high();
        let mut i: usize = 0;
        while i < couples.len()
            invariant
                i <= couples.len(),
                cs == couples@.map_values(|c: CoupleDecl| c@),
                vessels_small(self@.0),
                decimal_small(fl@),
                decimal_small(fh@),
                num_of(fl@) == forbidden_low_num(),
                num_of(fh@) == forbidden_high_num(),
                coupling_from(cs, 0, self@.0) == coupling_from(cs, i as nat, self@.0),
            decreases couples.len() - i,
        {
            let cd = &couples[i];
            assert(cs[i as int] == cd@);
            let a = match find_key(&self.vessels, &cd.src) {
                Some(j) => j,
                None => return Err(unknown_couple(&cd.src, cd.line)),
            };
            let b = match find_key(&self.vessels, &cd.dst) {
                Some(j) => j,
                None => return Err(unknown_couple(&cd.dst, cd.line)),
            };
            let src = &self.vessels[a].1;
            let dst = &self.vessels[b].1;
            assert(pairs_view(self.vessels@)[a as int].1 == src@);
            assert(pairs_view(self.vessels@)[b as int].1 == dst@);
            assert(range_small(pairs_view(self.vessels@)[a as int].1.0));
            assert(range_small(pairs_view(self.vessels@)[b as int].1.0));
            // both below e^-1, or both above e^-1/2
            let both_low = less(&src.kappa.hi, &fl) && less(&dst.kappa.hi, &fl);
            let both_high = less(&fh, &src.kappa.lo) && less(&fh, &dst.kappa.lo);
            if !src.sentient && !dst.sentient && (both_low || both_high) && !src.kappa.intersects(&dst.kappa) {
                return Err(disjoint(&cd.src, &cd.dst, &src.kappa, &dst.kappa));
            }
            i = i + 1;
        }
        Ok(())
    }

    /// R4: each literal boundary narrows its vessel's range.
    fn narrow_vessels(&mut self, vessels: &Vec<VesselDecl>)
        requires
            vessels_small(old(self)@.0),
            forall|i: int| 0 <= i < vessels.len() ==> #[trigger] vessel_ready(vessels@[i]@),
        ensures
            final(self)@.0 == narrow_from(vessels@.map_values(|v: VesselDecl| v@), 0, old(self)@.0),
            final(self)@.1 == old(self)@.1,
            vessels_small(final(self)@.0),
    {
        let ghost vs = vessels@.map_values(|v: VesselDecl| v@);
        let mut i: usize = 0;
        while i < vessels.len()
            invariant
                i <= vessels.len(),
                vs == vessels@.map_values(|v: VesselDecl| v@),
                forall|j: int| 0 <= j < vessels.len() ==> #[trigger] vessel_ready(vessels@[j]@),
                vessels_small(self@.0),
                self@.1 == old(self)@.1,
                narrow_from(vs, 0, old(self)@.0) == narrow_from(vs, i as nat, self@.0),
            decreases vessels.len() - i,
        {
            let vd = &vessels[i];
            assert(vs[i as int] == vd@);
            assert(vessel_ready(vd@));
            match &vd.boundary {
                Expr::FloatLit(bv) => match find_key(&self.vessels, &vd.name) {
                    Some(j) => {
                        let ghost before = self.vessels@;
                        assert(pairs_view(before)[j as int].1 == before[j as int].1@);
                        let k = narrow(&self.vessels[j].1.kappa, bv);
                        let sentient = self.vessels[j].1.sentient;
                        let name = self.vessels[j].0.clone();
                        self.vessels.set(j, (name, VesselInference { kappa: k, sentient }));
                        proof {
                            let m = pairs_view(before);
                            assert(pairs_view(self.vessels@) =~= m.update(
                                j as int,
                                (m[j as int].0, (narrowed(m[j as int].1.0, bv@), m[j as int].1.1)),
                            ));
                            assert forall|t: int| 0 <= t < self@.0.len() implies #[trigger] range_small(
                                self@.0[t].1.0,
                            ) by {
                                if t != j {
                                    assert(self@.0[t] == m[t]);
                                }
                            }
                        }
                    },
                    None => {},
                },
                _ => {},
            }
            i = i + 1;
        }
    }

    /// R7 and R8 for one function: each parameter's hint, or `[0, 1]`, and
    /// the return hint, or `[0, 1]`.
    fn fn_inference_of(fd: &FnDecl) -> (r: FnInference)
        requires
            fn_ready(fd@),
        ensures
            r@ == fn_inference(fd@),
            fn_inference_small(r@),
    {
        let ghost ps = fd@.params;
        let mut params: Vec<(String, KappaRange)> = Vec::new();
        proof {
            assert(pairs_view(params@) =~= Seq::<(Seq<char>, RangeView)>::empty());
            lemma_full_small();
        }
        let mut i: usize = 0;
        while i < fd.params.len()
            invariant
                i <= fd.params.len(),
                ps == fd@.params,
                ps.len() == fd.params.len(),
                fn_ready(fd@),
                forall|j: int| 0 <= j < pairs_view(params@).len() ==> #[trigger] range_small(
                    pairs_view(params@)[j].1,
                ),
                params_from(ps, 0, Seq::empty()) == params_from(ps, i as nat, pairs_view(params@)),
            decreases fd.params.len() - i,
        {
            let (pname, hint) = &fd.params[i];
            assert(ps[i as int] == (pname@, crate::ast::hint_view(*hint)));
            assert(hint_small(ps[i as int].1));
            let range = match hint {
                Some(h) => h.duplicate(),
                None => KappaRange::full(),
            };
            let ghost before = pairs_view(params@);
            put(&mut params, pname.clone(), range);
            proof {
                lemma_full_small();
                lemma_assign_params_small(before, pname@, range@);
            }
            i = i + 1;
        }
        let ret = match &fd.ret_hint {
            Some(h) => h.duplicate(),
            None => KappaRange::full(),
        };
        proof {
            lemma_full_small();
        }
        FnInference { params, ret }
    }

    /// R7 and R8 for every function.
    fn infer_fns(&mut self, fns: &Vec<FnDecl>)
        requires
            fns_small(old(self)@.1),
            forall|i: int| 0 <= i < fns.len() ==> #[trigger] fn_ready(fns@[i]@),
        ensures
            final(self)@.1 == fns_from(fns@.map_values(|f: FnDecl| f@), 0, old(self)@.1),
            final(self)@.0 == old(self)@.0,
            fns_small(final(self)@.1),
    {
        let ghost fs = fns@.map_values(|f: FnDecl| f@);
        let mut i: usize = 0;
        while i < fns.len()
            invariant
                i <= fns.len(),
                fs == fns@.map_values(|f: FnDecl| f@),
                forall|j: int| 0 <= j < fns.len() ==> #[trigger] fn_ready(fns@[j]@),
                fns_small(self@.1),
                self@.0 == old(self)@.0,
                fns_from(fs, 0, old(self)@.1) == fns_from(fs, i as nat, self@.1),
            decreases fns.len() - i,
        {
            let fd = &fns[i];
            assert(fs[i as int] == fd@);
            let fi = Self::fn_inference_of(fd);
            let ghost before = self@.1;
            put(&mut self.fns, fd.name.clone(), fi);
            proof {
                lemma_assign_fns_small(before, fd.name@, fi@);
            }
            i = i + 1;
        }
    }

    /// R9 for the parameters of a call: each literal argument must lie in
    /// its parameter's range.
    fn check_arguments(
        &self,
        callee: &String,
        args: &Vec<Expr>,
        params: &Vec<(String, KappaRange)>,
    ) -> (r: VesselResult<()>)
        requires
            forall|j: int| 0 <= j < params.len() ==> #[trigger] range_small(params@[j].1@),
            forall|j: int| 0 <= j < args.len() ==> #[trigger] expr_ok(args@[j]@),
        ensures
            failure_of(r) == arguments_from(callee@, exprs_view(args@), pairs_view(params@), 0),
    {
        let ghost xs = exprs_view(args@);
        let ghost ps = pairs_view(params@);
        proof {
            lemma_exprs_view_index(args@);
        }
        let mut i: usize = 0;
        while i < params.len()
            invariant
                i <= params.len(),
                xs == exprs_view(args@),
                xs.len() == args.len(),
                forall|j: int| 0 <= j < args.len() ==> #[trigger] xs[j] == args@[j]@,
                ps == pairs_view(params@),
                forall|j: int| 0 <= j < params.len() ==> #[trigger] range_small(params@[j].1@),
                forall|j: int| 0 <= j < args.len() ==> #[trigger] expr_ok(args@[j]@),
                arguments_from(callee@, xs, ps, 0) == arguments_from(callee@, xs, ps, i as nat),
            decreases params.len() - i,
        {
            if i < args.len() {
                assert(xs[i as int] == args@[i as int]@);
                assert(expr_ok(args@[i as int]@));
                if let Expr::FloatLit(av) = &args[i] {
                    let (pname, expected) = &params[i];
                    assert(ps[i as int] == (pname@, expected@));
                    assert(range_small(params@[i as int].1@));
                    if !expected.contains(av) {
                        return Err(argument_outside(i, av, callee, pname, expected));
                    }
                }
            }
            i = i + 1;
        }
        Ok(())
    }

    /// R9 over an expression.
    #[verifier::loop_isolation(false)]
    fn check_expr(&self, e: &Expr) -> (r: VesselResult<()>)
        requires
            fns_small(self@.1),
            expr_ok(e@),
        ensures
            failure_of(r) == composition_expr(e@, self@.1),
        decreases e,
    {
        match e {
            Expr::Call { callee, args } => {
                let ghost xs = exprs_view(args@);
                proof {
                    lemma_exprs_view_index(args@);
                    assert(e@ == ExprView::Call(callee@, xs));
                    lemma_call_args_ok(callee@, xs);
                    assert forall|j: int| 0 <= j < args.len() implies #[trigger] expr_ok(args@[j]@) by {
                        assert(xs[j] == args@[j]@);
                    }
                }
                match find_key(&self.fns, callee) {
                    Some(j) => {
                        let fi = &self.fns[j].1;
                        assert(pairs_view(self.fns@)[j as int].1 == fi@);
                        assert(fn_inference_small(fi@));
                        assert forall|t: int| 0 <= t < fi.params.len() implies #[trigger] range_small(
                            fi.params@[t].1@,
                        ) by {
                            assert(pairs_view(fi.params@)[t].1 == fi.params@[t].1@);
                        }
                        match self.check_arguments(callee, args, &fi.params) {
                            Ok(()) => {},
                            Err(x) => return Err(x),
                        }
                    },
                    None => {},
                }
                let mut i: usize = 0;
                while i < args.len()
                    invariant
                        i <= args.len(),
                        xs == exprs_view(args@),
                        xs.len() == args.len(),
                        forall|j: int| 0 <= j < args.len() ==> #[trigger] xs[j] == args@[j]@,
                        forall|j: int| 0 <= j < args.len() ==> #[trigger] expr_ok(args@[j]@),
                        fns_small(self@.1),
                        composition_args(xs, 0, self@.1) == composition_args(xs, i as nat, self@.1),
                    decreases args.len() - i,
                {
                    assert(xs[i as int] == args@[i as int]@);
                    proof {
                        assert(*args == e->args);
                        assert(decreases_to!(*e => e->args));
                        assert(decreases_to!(args => args@));
                        assert(decreases_to!(args@ => args@[i as int]));
                    }
                    match self.check_expr(&args[i]) {
                        Ok(()) => {},
                        Err(x) => return Err(x),
                    }
                    i = i + 1;
                }
                Ok(())
            },
            Expr::BinOp { left, right, .. } => {
                match self.check_expr(left) {
                    Ok(()) => {},
                    Err(x) => return Err(x),
                }
                self.check_expr(right)
            },
            Expr::UnaryOp { expr, .. } => self.check_expr(expr),
            Expr::Member { object, .. } => self.check_expr(object),
            Expr::Forall { body, .. } => self.check_expr(body),
            Expr::If { cond, then, else_ } => {
                match self.check_expr(cond) {
                    Ok(()) => {},
                    Err(x) => return Err(x),
                }
                match self.check_expr(then) {
                    Ok(()) => {},
                    Err(x) => return Err(x),
                }
                self.check_expr(else_)
            },
            _ => Ok(()),
        }
    }

    /// R9 over a statement.
    fn check_stmt(&self, stmt: &Stmt) -> (r: VesselResult<()>)
        requires
            fns_small(self@.1),
            expr_ok(stmt_value(stmt@)),
        ensures
            failure_of(r) == composition_expr(stmt_value(stmt@), self@.1),
    {
        match stmt {
            Stmt::Let { value, .. } => self.check_expr(value),
            Stmt::Return { value, .. } => self.check_expr(value),
            Stmt::Expr { value, .. } => self.check_expr(value),
        }
    }

    /// R9 over every function body.
    fn check_composition(&self, fns: &Vec<FnDecl>) -> (r: VesselResult<()>)
        requires
            fns_small(self@.1),
            forall|i: int| 0 <= i < fns.len() ==> #[trigger] fn_ready(fns@[i]@),
        ensures
            failure_of(r) == composition_from(fns@.map_values(|f: FnDecl| f@), 0, self@.1),
    {
        let ghost fs = fns@.map_values(|f: FnDecl| f@);
        let mut i: usize = 0;
        while i < fns.len()
            invariant
                i <= fns.len(),
                fs == fns@.map_values(|f: FnDecl| f@),
                forall|j: int| 0 <= j < fns.len() ==> #[trigger] fn_ready(fns@[j]@),
                fns_small(self@.1),
                composition_from(fs, 0, self@.1) == composition_from(fs, i as nat, self@.1),
            decreases fns.len() - i,
        {
            let fd = &fns[i];
            assert(fs[i as int] == fd@);
            assert(fn_ready(fd@));
            let ghost body = fd@.body;
            let mut k: usize = 0;
            while k < fd.body.len()
                invariant
                    k <= fd.body.len(),
                    body == fd@.body,
                    body.len() == fd.body.len(),
                    fn_ready(fd@),
                    fns_small(self@.1),
                    i < fns.len(),
                    fs == fns@.map_values(|f: FnDecl| f@),
                    fs[i as int] == fd@,
                    forall|j: int| 0 <= j < fns.len() ==> #[trigger] fn_ready(fns@[j]@),
                    composition_from(fs, 0, self@.1) == composition_from(fs, i as nat, self@.1),
                    composition_body(body, 0, self@.1) == composition_body(body, k as nat, self@.1),
                decreases fd.body.len() - k,
            {
                assert(body[k as int] == fd.body@[k as int]@);
                match self.check_stmt(&fd.body[k]) {
                    Ok(()) => {},
                    Err(x) => return Err(x),
                }
                k = k + 1;
            }
            i = i + 1;
        }
        Ok(())
    }

    /// Runs the whole pass over a program: R1 seeds the ranges, R3 keeps
    /// vessels that are not sentient out of the forbidden zone, R2 checks
    /// the couplings, R4 narrows by the boundaries, R7 and R8 read the
    /// functions' hints and R9 checks the calls.  The first rule that fails
    /// gives the diagnostic, and the state keeps what the pass had inferred.
    pub fn infer(&mut self, program: &Program) -> (r: VesselResult<()>)
        requires
            old(self).wf(),
            program_ready(program@),
        ensures
            final(self).wf(),
            (final(self)@, failure_of(r)) == inference(program@, old(self)@),
    {
        assert(forall|i: int| 0 <= i < program.vessels.len() ==> #[trigger] vessel_ready(program.vessels@[i]@)) by {
            assert forall|i: int| 0 <= i < program.vessels.len() implies #[trigger] vessel_ready(
                program.vessels@[i]@,
            ) by {
                assert(program@.vessels[i] == program.vessels@[i]@);
            }
        }
        assert(forall|i: int| 0 <= i < program.fns.len() ==> #[trigger] fn_ready(program.fns@[i]@)) by {
            assert forall|i: int| 0 <= i < program.fns.len() implies #[trigger] fn_ready(program.fns@[i]@) by {
                assert(program@.fns[i] == program.fns@[i]@);
            }
        }
        proof {
            crate::laws::law_names_recorded_once(program@, old(self)@);
        }
        // R1: seed vessels from their kappa expressions
        match self.seed_vessels(&program.vessels) {
            Ok(()) => {},
            Err(e) => return Err(e),
        }
        // R3: forbidden exclusion
        match self.check_exclusion(&program.vessels) {
            Ok(()) => {},
            Err(e) => return Err(e),
        }
        // R2: coupling safety
        match self.check_couplings(&program.couples) {
            Ok(()) => {},
            Err(e) => return Err(e),
        }
        // R4a/R4b/R4c: boundaries narrow the ranges
        self.narrow_vessels(&program.vessels);
        // R7/R8: function parameter and return ranges
        self.infer_fns(&program.fns);
        // R9: calls against the callees' parameter ranges
        self.check_composition(&program.fns)
    }
}

} // verus!
