//! What the inference rules R2, R7/R8 and R9 decide, stated over the
//! values involved: sentient vessels, literal arguments, return ranges.

use vstd::prelude::*;
use crate::ast::{CoupleView, DecimalView, ExprView, FnView, ProgramView, RangeView, full_view, num_le, num_lt, num_of};
use crate::constants::{forbidden_high_num, forbidden_low_num};
use crate::kappa_infer::{
    FnInfView, FnMap, VesselInfView, VesselMap, argument_error, arguments_from, composition_expr,
    coupling_check, coupling_from, disjoint_error, unknown_couple_error, fn_inference, fns_from, hint_or_full, inference,
    lemma_position, lookup, params_from, position_of,
};
use crate::laws::law_functions_recorded;

verus! {

// ---------------------------------------------------------------- R9

/// `v` lies below the range's low end or above its high end.
pub open spec fn outside(r: RangeView, v: DecimalView) -> bool {
    num_lt(num_of(v), num_of(r.0)) || num_lt(num_of(r.1), num_of(v))
}

/// The `j`-th argument, if it is a literal, lies within its parameter's range.
pub open spec fn literal_fits(args: Seq<ExprView>, ps: Seq<(Seq<char>, RangeView)>, j: int) -> bool {
    args[j] matches ExprView::FloatLit(v) ==> !outside(ps[j].1, v)
}

proof fn lemma_args_outside(
    callee: Seq<char>,
    args: Seq<ExprView>,
    ps: Seq<(Seq<char>, RangeView)>,
    i: nat,
    k: nat,
)
    requires
        i < ps.len(),
        i < args.len(),
        args[i as int] is FloatLit,
        outside(ps[i as int].1, args[i as int]->FloatLit_0),
        forall|j: int| 0 <= j < i && j < args.len() ==> #[trigger] literal_fits(args, ps, j),
        k <= i,
    ensures
        arguments_from(callee, args, ps, k) == Some(
            argument_error(i, args[i as int]->FloatLit_0, callee, ps[i as int].0, ps[i as int].1),
        ),
    decreases i - k,
{
    if k < i {
        lemma_args_outside(callee, args, ps, i, k + 1);
        assert(literal_fits(args, ps, k as int));
    }
}

proof fn lemma_args_inside(callee: Seq<char>, args: Seq<ExprView>, ps: Seq<(Seq<char>, RangeView)>, k: nat)
    requires
        forall|j: int| 0 <= j < ps.len() && j < args.len() ==> #[trigger] literal_fits(args, ps, j),
    ensures
        arguments_from(callee, args, ps, k) is None,
    decreases ps.len() - k,
{
    if k < ps.len() {
        lemma_args_inside(callee, args, ps, k + 1);
        if k < args.len() {
            assert(literal_fits(args, ps, k as int));
        }
    }
}

/// R9 checks both ends of a parameter's range. In a call of a known
/// function, the first literal argument that lies below its parameter's low
/// end or above its high end gives the R9 diagnostic for that argument; when
/// every literal argument lies within its parameter's range, the call itself
/// gives none. Arguments and parameters pair in order.
pub proof fn law_call_arguments_in_range(
    callee: Seq<char>,
    args: Seq<ExprView>,
    m: FnMap,
    fi: FnInfView,
    i: nat,
)
    requires
        lookup(m, callee) == Some(fi),
    ensures
        (i < fi.0.len() && i < args.len() && args[i as int] is FloatLit
            && outside(fi.0[i as int].1, args[i as int]->FloatLit_0)
            && (forall|j: int| 0 <= j < i && j < args.len() ==> #[trigger] literal_fits(args, fi.0, j)))
            ==> composition_expr(ExprView::Call(callee, args), m) == Some(
            argument_error(i, args[i as int]->FloatLit_0, callee, fi.0[i as int].0, fi.0[i as int].1),
        ),
        (forall|j: int| 0 <= j < fi.0.len() && j < args.len() ==> #[trigger] literal_fits(args, fi.0, j))
            ==> arguments_from(callee, args, fi.0, 0) is None,
{
    if i < fi.0.len() && i < args.len() && args[i as int] is FloatLit && outside(
        fi.0[i as int].1,
        args[i as int]->FloatLit_0,
    ) && (forall|j: int| 0 <= j < i && j < args.len() ==> #[trigger] literal_fits(args, fi.0, j)) {
        lemma_args_outside(callee, args, fi.0, i, 0);
    }
    if forall|j: int| 0 <= j < fi.0.len() && j < args.len() ==> #[trigger] literal_fits(args, fi.0, j) {
        lemma_args_inside(callee, args, fi.0, 0);
    }
}

// ---------------------------------------------------------------- R2

/// R2 never rejects a coupling with a sentient vessel: when both vessels
/// are known and either is sentient, the couple passes.
pub proof fn law_sentient_couple_passes(c: CoupleView, m: VesselMap, a: VesselInfView, b: VesselInfView)
    requires
        lookup(m, c.src) == Some(a),
        lookup(m, c.dst) == Some(b),
        a.1 || b.1,
    ensures
        coupling_check(c, m) is None,
{
}

/// When every couple joins known vessels and at least one of each pair is
/// sentient, the coupling pass gives no diagnostic.
pub proof fn law_sentient_couplings_pass(cs: Seq<CoupleView>, m: VesselMap, k: nat)
    requires
        forall|i: int| 0 <= i < cs.len() ==> #[trigger] sentient_pair(cs[i], m),
    ensures
        coupling_from(cs, k, m) is None,
    decreases cs.len() - k,
{
    if k < cs.len() {
        assert(sentient_pair(cs[k as int], m));
        law_sentient_couplings_pass(cs, m, k + 1);
    }
}

/// Both vessels of the couple are known and one of them is sentient.
pub open spec fn sentient_pair(c: CoupleView, m: VesselMap) -> bool {
    &&& lookup(m, c.src) matches Some(a)
    &&& lookup(m, c.dst) matches Some(b)
    &&& (a.1 || b.1)
}

/// `x < y` and `y <= x` never hold together.
proof fn lemma_lt_not_ge(x: crate::decimal::Num, y: crate::decimal::Num)
    ensures
        num_lt(x, y) ==> !num_le(y, x),
{
}

/// Two known vessels that are not sentient, in the same zone (both ranges
/// below `e^-1`, or both above `e^-1/2`), whose ranges lie apart cannot be
/// coupled: the couple gives the disjoint-coupling diagnostic.
pub proof fn law_apart_couple_rejected(c: CoupleView, m: VesselMap, a: VesselInfView, b: VesselInfView)
    requires
        lookup(m, c.src) == Some(a),
        lookup(m, c.dst) == Some(b),
        !a.1,
        !b.1,
        (num_lt(num_of(a.0.1), forbidden_low_num()) && num_lt(num_of(b.0.1), forbidden_low_num()))
            || (num_lt(forbidden_high_num(), num_of(a.0.0)) && num_lt(forbidden_high_num(), num_of(b.0.0))),
        num_lt(num_of(a.0.1), num_of(b.0.0)) || num_lt(num_of(b.0.1), num_of(a.0.0)),
    ensures
        coupling_check(c, m) == Some(disjoint_error(c.src, c.dst, a.0, b.0)),
{
    lemma_lt_not_ge(num_of(a.0.1), num_of(b.0.0));
    lemma_lt_not_ge(num_of(b.0.1), num_of(a.0.0));
}

/// Two known vessels whose ranges share a point can always be coupled.
pub proof fn law_meeting_couple_passes(c: CoupleView, m: VesselMap, a: VesselInfView, b: VesselInfView)
    requires
        lookup(m, c.src) == Some(a),
        lookup(m, c.dst) == Some(b),
        !num_lt(num_of(a.0.1), num_of(b.0.0)),
        !num_lt(num_of(b.0.1), num_of(a.0.0)),
    ensures
        coupling_check(c, m) is None,
{
}

/// A couple that names an undeclared vessel is refused for that name: the
/// source is checked first, then the destination.
pub proof fn law_unknown_couple_rejected(c: CoupleView, m: VesselMap)
    ensures
        lookup(m, c.src) is None ==> coupling_check(c, m) == Some(unknown_couple_error(c.src, c.line)),
        lookup(m, c.src) is Some && lookup(m, c.dst) is None ==> coupling_check(c, m) == Some(
            unknown_couple_error(c.dst, c.line),
        ),
{
}

// ---------------------------------------------------------------- R7/R8

/// After inference succeeds, the return range recorded for a function (its
/// last declaration under its name) is its return annotation when it has
/// one, and the full range `[0, 1]` when it has none.
pub proof fn law_return_range(p: ProgramView, s0: (VesselMap, FnMap), i: int)
    requires
        inference(p, s0).1 is None,
        0 <= i < p.fns.len(),
        forall|j: int| i < j < p.fns.len() ==> #[trigger] p.fns[j].name != p.fns[i].name,
    ensures
        lookup(inference(p, s0).0.1, p.fns[i].name) matches Some(fi) && match p.fns[i].ret_hint {
            Some(h) => fi.1 == h,
            None => num_of(fi.1.0) == (0int, 0nat) && num_of(fi.1.1) == (1int, 0nat),
        },
{
    law_functions_recorded(p, s0, i);
    assert(inference(p, s0).0.1 == fns_from(p.fns, 0, s0.1));
    lemma_full_values();
}

/// The full range `[0, 1]`, by value.
proof fn lemma_full_values()
    ensures
        num_of(full_view().0) == (0int, 0nat),
        num_of(full_view().1) == (1int, 0nat),
{
    let z: Seq<u8> = seq![0u8];
    let o: Seq<u8> = seq![1u8];
    assert(z.drop_last() =~= Seq::<u8>::empty());
    assert(o.drop_last() =~= Seq::<u8>::empty());
    assert(crate::decimal::digits_value(Seq::<u8>::empty()) == 0);
    assert(z.last() == 0u8 && o.last() == 1u8);
    assert(crate::decimal::digits_value(z) == 0);
    assert(crate::decimal::digits_value(o) == 1);
}

/// The range a parameter gets: its annotation, or `[0, 1]` by value.
pub open spec fn param_range_fits(h: Option<RangeView>, r: RangeView) -> bool {
    match h {
        Some(k) => r == k,
        None => num_of(r.0) == (0int, 0nat) && num_of(r.1) == (1int, 0nat),
    }
}

proof fn lemma_params_from(ps: Seq<(Seq<char>, Option<RangeView>)>, i: nat, acc: Seq<(Seq<char>, RangeView)>)
    requires
        i <= ps.len(),
        acc.len() == i,
        forall|a: int, b: int| 0 <= a < b < ps.len() ==> #[trigger] ps[a].0 != #[trigger] ps[b].0,
        forall|j: int| 0 <= j < i ==> #[trigger] acc[j] == (ps[j].0, hint_or_full(ps[j].1)),
    ensures
        params_from(ps, i, acc).len() == ps.len(),
        forall|j: int| 0 <= j < ps.len() ==> #[trigger] params_from(ps, i, acc)[j] == (ps[j].0, hint_or_full(ps[j].1)),
    decreases ps.len() - i,
{
    if i < ps.len() {
        let k = ps[i as int].0;
        lemma_position(acc, k);
        if let Some(j) = position_of(acc, k) {
            assert(acc[j as int] == (ps[j as int].0, hint_or_full(ps[j as int].1)));
            assert(false);
        }
        let acc2 = acc.push((k, hint_or_full(ps[i as int].1)));
        assert(params_from(ps, i, acc) == params_from(ps, i + 1, acc2));
        lemma_params_from(ps, i + 1, acc2);
    }
}

/// R7: a function whose parameters have distinct names records one range
/// per parameter, in order: its annotation, or the full range `[0, 1]`
/// when it has none.
pub proof fn law_param_ranges(f: FnView)
    requires
        forall|a: int, b: int| 0 <= a < b < f.params.len() ==> #[trigger] f.params[a].0 != #[trigger] f.params[b].0,
    ensures
        fn_inference(f).0.len() == f.params.len(),
        forall|j: int| 0 <= j < f.params.len() ==> #[trigger] fn_inference(f).0[j].0 == f.params[j].0
            && param_range_fits(f.params[j].1, fn_inference(f).0[j].1),
{
    lemma_params_from(f.params, 0, Seq::empty());
    lemma_full_values();
}

} // verus!
