//! Properties of kappa ranges and of kappa inference that hold for every input.

use vstd::prelude::*;
use vstd::arithmetic::mul::{lemma_mul_is_associative, lemma_mul_strict_inequality};
use crate::ast::{
    CoupleView, DecimalView, ProgramView, RangeView, VesselView, full_view, num_in, num_le, num_lt,
    num_of, nums_meet, range_num, range_overlap,
};
use crate::constants::{forbidden_high_num, forbidden_low_num};
use crate::decimal::{
    Num, Order, lemma_pow10_add, lemma_pow10_positive, max_scale, num_order, num_within_eps,
    order_of, pow10, scale_to,
};
use crate::lexer::{
    Scan, Token, TokenKind, keyword, lemma_scan_end, lemma_skip_trivia_ge, lex_spec, lexed, line_col,
    scan_at, skip_trivia, token_fits,
};
use crate::parser::{kind_at, p_couple, p_fn, p_law, p_program, p_vessel, same_variant};
use crate::kappa_infer::{
    FnMap, VesselMap, assign, coupling_check, coupling_from, distinct_names, exclusion_from,
    fn_inference, fns_from, forbidden_zone, index_from, inference, keys_of, lemma_fns_distinct,
    lemma_index_from, lemma_narrow_distinct, lemma_position, lemma_seed_distinct, lookup, narrowed,
    params_distinct, position_of, seed_from,
};

verus! {

// ---------------------------------------------------------------- numbers

/// Multiplying both sides by a positive number keeps their order.
proof fn lemma_order_scaled(a: int, b: int, p: int)
    requires
        p >= 1,
    ensures
        order_of(a * p, b * p) == order_of(a, b),
{
    if a < b {
        lemma_mul_strict_inequality(a, b, p);
    } else if b < a {
        lemma_mul_strict_inequality(b, a, p);
    }
}

/// A number written over a larger power of ten.
proof fn lemma_scale_to_up(x: Num, s: nat, t: nat)
    requires
        x.1 <= s <= t,
    ensures
        scale_to(x, t) == scale_to(x, s) * pow10((t - s) as nat),
{
    lemma_pow10_add((s - x.1) as nat, (t - s) as nat);
    assert((s - x.1) as nat + (t - s) as nat == (t - x.1) as nat);
    lemma_mul_is_associative(x.0, pow10((s - x.1) as nat) as int, pow10((t - s) as nat) as int);
}

/// Two numbers compare as their numerators over any common power of ten.
pub proof fn lemma_order_at(x: Num, y: Num, t: nat)
    requires
        x.1 <= t,
        y.1 <= t,
    ensures
        num_order(x, y) == order_of(scale_to(x, t), scale_to(y, t)),
{
    let s = max_scale(x, y);
    lemma_scale_to_up(x, s, t);
    lemma_scale_to_up(y, s, t);
    lemma_pow10_positive((t - s) as nat);
    lemma_order_scaled(scale_to(x, s), scale_to(y, s), pow10((t - s) as nat) as int);
}

/// Every pair of the numbers `xs` compares over the power of ten `t`.
proof fn lemma_orders_at(xs: Seq<Num>, t: nat)
    requires
        forall|i: int| 0 <= i < xs.len() ==> #[trigger] xs[i].1 <= t,
    ensures
        forall|i: int, j: int|
            0 <= i < xs.len() && 0 <= j < xs.len() ==> #[trigger] num_order(xs[i], xs[j]) == order_of(
                scale_to(xs[i], t),
                scale_to(xs[j], t),
            ),
{
    assert forall|i: int, j: int| 0 <= i < xs.len() && 0 <= j < xs.len() implies #[trigger] num_order(
        xs[i],
        xs[j],
    ) == order_of(scale_to(xs[i], t), scale_to(xs[j], t)) by {
        lemma_order_at(xs[i], xs[j], t);
    }
}

/// The larger of two naturals.
spec fn nmax(a: nat, b: nat) -> nat {
    if a >= b { a } else { b }
}

// ---------------------------------------------------------------- ranges

/// `[lo, hi]` with `lo <= hi`.
pub open spec fn ordered(r: RangeView) -> bool {
    num_le(num_of(r.0), num_of(r.1))
}

/// Whether two ranges share a point does not depend on their order.
pub proof fn law_meet_symmetric(a: RangeView, b: RangeView)
    ensures
        nums_meet(range_num(a), range_num(b)) == nums_meet(range_num(b), range_num(a)),
{
}

/// Two ordered ranges overlap exactly when they share a point, and the
/// overlap holds exactly the numbers that both ranges hold.
pub proof fn law_overlap(a: RangeView, b: RangeView, v: Num)
    requires
        ordered(a),
        ordered(b),
    ensures
        range_overlap(a, b) is Some <==> nums_meet(range_num(a), range_num(b)),
        range_overlap(a, b) matches Some(r) ==> (num_in(range_num(r), v) <==> num_in(range_num(a), v) && num_in(
            range_num(b),
            v,
        )),
{
    let (a0, a1) = range_num(a);
    let (b0, b1) = range_num(b);
    let t = nmax(nmax(nmax(a0.1, a1.1), nmax(b0.1, b1.1)), v.1);
    let xs = seq![a0, a1, b0, b1, v];
    assert forall|i: int| 0 <= i < xs.len() implies #[trigger] xs[i].1 <= t by {}
    lemma_orders_at(xs, t);
    assert(xs[0] == a0 && xs[1] == a1 && xs[2] == b0 && xs[3] == b1 && xs[4] == v);
    assert(num_order(a0, a1) == order_of(scale_to(a0, t), scale_to(a1, t)));
    assert(num_order(b0, b1) == order_of(scale_to(b0, t), scale_to(b1, t)));
    assert(num_order(a0, b0) == order_of(scale_to(a0, t), scale_to(b0, t)));
    assert(num_order(b1, a1) == order_of(scale_to(b1, t), scale_to(a1, t)));
    assert(num_order(a0, b1) == order_of(scale_to(a0, t), scale_to(b1, t)));
    assert(num_order(b0, a1) == order_of(scale_to(b0, t), scale_to(a1, t)));
    assert(num_order(a0, v) == order_of(scale_to(a0, t), scale_to(v, t)));
    assert(num_order(b0, v) == order_of(scale_to(b0, t), scale_to(v, t)));
    assert(num_order(v, a1) == order_of(scale_to(v, t), scale_to(a1, t)));
    assert(num_order(v, b1) == order_of(scale_to(v, t), scale_to(b1, t)));
}

/// A point range holds exactly the numbers equal to its point.
pub proof fn law_point_contains(d: DecimalView, v: Num)
    ensures
        num_in(range_num((d, d)), v) <==> num_order(num_of(d), v) == Order::Equal,
{
    let x = num_of(d);
    let t = max_scale(x, v);
    lemma_order_at(x, v, t);
    lemma_order_at(v, x, t);
}

/// The full range holds exactly the numbers from 0 to 1.
pub proof fn law_full_contains(v: Num)
    ensures
        num_in(range_num(full_view()), v) <==> 0 <= v.0 && v.0 <= pow10(v.1),
{
    reveal_with_fuel(crate::decimal::digits_value, 2);
    let zero = num_of(full_view().0);
    let one = num_of(full_view().1);
    assert(zero == (0int, 0nat));
    assert(one == (1int, 0nat));
    lemma_order_at(zero, v, v.1);
    lemma_order_at(v, one, v.1);
    assert(pow10(0) == 1);
    assert(scale_to(v, v.1) == v.0) by {
        assert(v.0 * 1 == v.0);
    }
    assert(scale_to(one, v.1) == 1 * pow10(v.1));
}

/// R4c: a literal boundary that lies in a vessel's range narrows it to the
/// point of the boundary.
pub proof fn law_boundary_inside_gives_point(k: RangeView, b: DecimalView)
    requires
        num_in(range_num(k), num_of(b)),
    ensures
        narrowed(k, b) == (b, b),
{
    let x = num_of(b);
    let lo = num_of(k.0);
    let hi = num_of(k.1);
    let t = nmax(nmax(x.1, lo.1), hi.1);
    lemma_order_at(x, hi, t);
    lemma_order_at(lo, x, t);
    // each end either is the boundary or equals it in value
    let h2 = if num_lt(x, hi) { b } else { k.1 };
    let l2 = if num_lt(lo, x) { b } else { k.0 };
    lemma_equal_within_eps(x, num_of(h2));
    lemma_equal_within_eps(x, num_of(l2));
}

/// Numbers equal in value lie within `10^-9` of each other.
proof fn lemma_equal_within_eps(x: Num, y: Num)
    requires
        num_order(x, y) == Order::Equal || num_order(y, x) == Order::Equal || x == y,
    ensures
        num_within_eps(x, y),
{
    let s = max_scale(x, y);
    lemma_pow10_positive(s);
    lemma_order_at(x, y, s);
    lemma_order_at(y, x, s);
    let d = scale_to(x, s) - scale_to(y, s);
    assert(d == 0);
    assert(0int * pow10(9) == 0);
}

// ---------------------------------------------------------------- entries by name

/// A position found in keys with one more key at the end.
proof fn lemma_index_push(keys: Seq<Seq<char>>, k: Seq<char>, k2: Seq<char>, i: nat)
    requires
        i <= keys.len(),
    ensures
        index_from(keys.push(k), k2, i) == match index_from(keys, k2, i) {
            Some(j) => Some(j),
            None => if k2 == k { Some(keys.len()) } else { None },
        },
    decreases keys.len() - i,
{
    if i < keys.len() {
        assert(keys.push(k)[i as int] == keys[i as int]);
        lemma_index_push(keys, k, k2, i + 1);
    } else {
        assert(keys.push(k)[i as int] == k);
        assert(index_from(keys, k2, i) is None);
        if k2 != k {
            assert(index_from(keys.push(k), k2, i + 1) is None);
        }
    }
}

/// After setting `k` to `v`, `k` holds `v` and every other name what it held.
pub proof fn lemma_assign_lookup<V>(m: Seq<(Seq<char>, V)>, k: Seq<char>, v: V, k2: Seq<char>)
    ensures
        lookup(assign(m, k, v), k2) == if k2 == k { Some(v) } else { lookup(m, k2) },
{
    lemma_position(m, k);
    match position_of(m, k) {
        Some(j) => {
            let m2 = m.update(j as int, (k, v));
            assert(keys_of(m2) =~= keys_of(m));
            lemma_position(m, k2);
            if k2 == k {
                lemma_index_from(keys_of(m), k, 0);
            }
        },
        None => {
            let m2 = m.push((k, v));
            assert(keys_of(m2) =~= keys_of(m).push(k));
            lemma_index_push(keys_of(m), k, k2, 0);
            lemma_position(m, k2);
        },
    }
}


// ---------------------------------------------------------------- inference

/// R1 keeps every name it was given and adds each vessel's.
proof fn lemma_seed_names(vs: Seq<VesselView>, i: nat, m: VesselMap)
    requires
        seed_from(vs, i, m).1 is None,
    ensures
        forall|j: int| i <= j < vs.len() ==> #[trigger] lookup(seed_from(vs, i, m).0, vs[j].name) is Some,
        forall|k: Seq<char>| #[trigger] lookup(m, k) is Some ==> lookup(seed_from(vs, i, m).0, k) is Some,
    decreases vs.len() - i,
{
    if i < vs.len() {
        let v = vs[i as int];
        let k = crate::kappa_infer::seed_range(v, m)->Ok_0;
        let m2 = assign(m, v.name, (k, v.sentient));
        lemma_seed_names(vs, i + 1, m2);
        assert forall|k2: Seq<char>| #[trigger] lookup(m, k2) is Some implies lookup(m2, k2) is Some by {
            lemma_assign_lookup(m, v.name, (k, v.sentient), k2);
        }
        lemma_assign_lookup(m, v.name, (k, v.sentient), v.name);
    }
}

/// R3 over the vessels from `i` on found nothing.
proof fn lemma_exclusion(vs: Seq<VesselView>, i: nat, m: VesselMap)
    requires
        exclusion_from(vs, i, m) is None,
    ensures
        forall|j: int|
            i <= j < vs.len() ==> (#[trigger] lookup(m, vs[j].name) matches Some(inf) ==> (!inf.1 ==> !nums_meet(
                range_num(inf.0),
                forbidden_zone(),
            ))),
    decreases vs.len() - i,
{
    if i < vs.len() {
        lemma_exclusion(vs, i + 1, m);
    }
}

/// R2 over the couples from `i` on found nothing.
proof fn lemma_coupling(cs: Seq<CoupleView>, i: nat, m: VesselMap)
    requires
        coupling_from(cs, i, m) is None,
    ensures
        forall|j: int| i <= j < cs.len() ==> #[trigger] coupling_check(cs[j], m) is None,
    decreases cs.len() - i,
{
    if i < cs.len() {
        lemma_coupling(cs, i + 1, m);
    }
}

/// The ranges that R1 seeds for a program, from the state `s0`.
pub open spec fn seeded(p: ProgramView, s0: (VesselMap, FnMap)) -> VesselMap {
    seed_from(p.vessels, 0, s0.0).0
}

/// R3: when inference succeeds, every vessel of the program was seeded, and
/// the range of each that is not sentient stays clear of the forbidden zone
/// `(e^-1 + 10^-9, e^-1/2 - 10^-9)`.
pub proof fn law_forbidden_zone_excluded(p: ProgramView, s0: (VesselMap, FnMap))
    requires
        inference(p, s0).1 is None,
    ensures
        forall|i: int|
            0 <= i < p.vessels.len() ==> (#[trigger] lookup(seeded(p, s0), p.vessels[i].name) matches Some(
                inf,
            ) && (!inf.1 ==> !nums_meet(range_num(inf.0), forbidden_zone()))),
{
    lemma_seed_names(p.vessels, 0, s0.0);
    lemma_exclusion(p.vessels, 0, seeded(p, s0));
}

/// R2: when inference succeeds, every couple names two vessels that were
/// seeded, and two that are not sentient and lie in the same zone outside
/// the forbidden one have ranges that meet.
pub proof fn law_couplings_compatible(p: ProgramView, s0: (VesselMap, FnMap))
    requires
        inference(p, s0).1 is None,
    ensures
        forall|i: int| 0 <= i < p.couples.len() ==> {
            let m = seeded(p, s0);
            let c = #[trigger] p.couples[i];
            &&& lookup(m, c.src) matches Some(a)
            &&& lookup(m, c.dst) matches Some(b)
            &&& (!a.1 && !b.1 && ((num_lt(num_of(a.0.1), forbidden_low_num()) && num_lt(
                num_of(b.0.1),
                forbidden_low_num(),
            )) || (num_lt(forbidden_high_num(), num_of(a.0.0)) && num_lt(forbidden_high_num(), num_of(b.0.0))))
                ==> nums_meet(range_num(a.0), range_num(b.0)))
        },
{
    let m = seeded(p, s0);
    lemma_coupling(p.couples, 0, m);
    assert forall|i: int| 0 <= i < p.couples.len() implies {
        let c = #[trigger] p.couples[i];
        &&& lookup(m, c.src) matches Some(a)
        &&& lookup(m, c.dst) matches Some(b)
        &&& (!a.1 && !b.1 && ((num_lt(num_of(a.0.1), forbidden_low_num()) && num_lt(
            num_of(b.0.1),
            forbidden_low_num(),
        )) || (num_lt(forbidden_high_num(), num_of(a.0.0)) && num_lt(forbidden_high_num(), num_of(b.0.0))))
            ==> nums_meet(range_num(a.0), range_num(b.0)))
    } by {
        assert(coupling_check(p.couples[i], m) is None);
    }
}

/// R7/R8: once the checks before them pass, every function of the program
/// has an entry, that of its last declaration under that name.
pub proof fn law_functions_recorded(p: ProgramView, s0: (VesselMap, FnMap), i: int)
    requires
        0 <= i < p.fns.len(),
        forall|j: int| i < j < p.fns.len() ==> #[trigger] p.fns[j].name != p.fns[i].name,
    ensures
        lookup(fns_from(p.fns, 0, s0.1), p.fns[i].name) == Some(fn_inference(p.fns[i])),
{
    lemma_fns_last(p.fns, 0, s0.1, i);
}

/// The entry R7/R8 leave for a function not declared again later.
proof fn lemma_fns_last(fs: Seq<crate::ast::FnView>, k: nat, m: FnMap, i: int)
    requires
        0 <= i < fs.len(),
        forall|j: int| i < j < fs.len() ==> #[trigger] fs[j].name != fs[i].name,
    ensures
        k <= i ==> lookup(fns_from(fs, k, m), fs[i].name) == Some(fn_inference(fs[i])),
        k > i ==> lookup(fns_from(fs, k, m), fs[i].name) == lookup(m, fs[i].name),
    decreases fs.len() - k,
{
    if k < fs.len() {
        let m2 = assign(m, fs[k as int].name, fn_inference(fs[k as int]));
        lemma_fns_last(fs, k + 1, m2, i);
        lemma_assign_lookup(m, fs[k as int].name, fn_inference(fs[k as int]), fs[i].name);
    }
}

// ---------------------------------------------------------------- parsing

/// A program that parses is read to its end: parsing stops only at `Eof`.
pub proof fn law_program_reads_to_eof(t: Seq<Token>, p: nat, acc: ProgramView)
    ensures
        p_program(t, p, acc) matches Ok((_, q)) ==> same_variant(kind_at(t, q), TokenKind::Eof),
    decreases t.len() - p,
{
    reveal(p_program);
    if p < t.len() && !same_variant(kind_at(t, p), TokenKind::Eof) {
        match kind_at(t, p) {
            TokenKind::Vessel => {
                if let Ok((v, q)) = p_vessel(t, p) {
                    if p < q < t.len() {
                        law_program_reads_to_eof(t, q, ProgramView { vessels: acc.vessels.push(v), ..acc });
                    }
                }
            },
            TokenKind::Couple => {
                if let Ok((c, q)) = p_couple(t, p) {
                    if p < q < t.len() {
                        law_program_reads_to_eof(t, q, ProgramView { couples: acc.couples.push(c), ..acc });
                    }
                }
            },
            TokenKind::Law => {
                if let Ok((l, q)) = p_law(t, p) {
                    if p < q < t.len() {
                        law_program_reads_to_eof(t, q, ProgramView { laws: acc.laws.push(l), ..acc });
                    }
                }
            },
            TokenKind::Fn => {
                if let Ok((f, q)) = p_fn(t, p) {
                    if p < q < t.len() {
                        law_program_reads_to_eof(t, q, ProgramView { fns: acc.fns.push(f), ..acc });
                    }
                }
            },
            _ => {},
        }
    }
}

/// Whatever the program and however far inference gets, no vessel, no
/// function, and no parameter of a function is recorded twice under one
/// name, given a state where none was.
pub proof fn law_names_recorded_once(p: ProgramView, s0: (VesselMap, FnMap))
    requires
        distinct_names(s0.0),
        distinct_names(s0.1),
        params_distinct(s0.1),
    ensures
        distinct_names(inference(p, s0).0.0),
        distinct_names(inference(p, s0).0.1),
        params_distinct(inference(p, s0).0.1),
{
    lemma_seed_distinct(p.vessels, 0, s0.0);
    let m1 = seed_from(p.vessels, 0, s0.0).0;
    lemma_narrow_distinct(p.vessels, 0, m1);
    lemma_fns_distinct(p.fns, 0, s0.1);
}

// ---------------------------------------------------------------- lexing

/// The keywords are keyword kinds: none is `Minus` or `Eof`.
proof fn lemma_keyword_kind(w: Seq<char>)
    ensures
        keyword(w) matches Some(k) ==> !(k is Minus) && !(k is Eof),
{
}

/// The token that starts a scan is never `Minus` nor `Eof`.
proof fn lemma_token_kind(t: Token, src: Seq<char>, j: nat)
    requires
        token_fits(t, src, j),
    ensures
        !(t.kind is Minus),
        !(t.kind is Eof),
{
    if let Scan::Word(e) = scan_at(src, j) {
        lemma_keyword_kind(src.subrange(j as int, e as int));
    }
}

/// The lexer never makes a `Minus` token: a `-` begins a comment, an arrow
/// or a negative number, and any other `-` is refused.  `Eof` comes only
/// last.
pub proof fn law_no_minus_token(toks: Seq<Token>, src: Seq<char>, starts: Seq<nat>)
    requires
        lexed(toks, src, starts),
    ensures
        forall|k: int| 0 <= k < toks.len() ==> !(#[trigger] toks[k].kind is Minus),
        forall|k: int| 0 <= k < toks.len() - 1 ==> !(#[trigger] toks[k].kind is Eof),
        toks.last().kind is Eof,
{
    assert forall|k: int| 0 <= k < toks.len() implies !(#[trigger] toks[k].kind is Minus) by {
        if k < starts.len() {
            assert(token_fits(toks[k], src, starts[k]));
            lemma_token_kind(toks[k], src, starts[k]);
        } else {
            assert(toks[k] == toks.last());
        }
    }
    assert forall|k: int| 0 <= k < toks.len() - 1 implies !(#[trigger] toks[k].kind is Eof) by {
        assert(token_fits(toks[k], src, starts[k]));
        lemma_token_kind(toks[k], src, starts[k]);
    }
}

/// The number of line breaks in a text.
pub open spec fn newlines(s: Seq<char>) -> nat
    decreases s.len(),
{
    if s.len() == 0 {
        0
    } else {
        newlines(s.drop_last()) + if s.last() == '\n' { 1nat } else { 0nat }
    }
}

/// The line of a position is one more than the line breaks before it.
proof fn lemma_line_of(src: Seq<char>, i: nat)
    requires
        i <= src.len(),
    ensures
        line_col(src, i).0 == 1 + newlines(src.subrange(0, i as int)),
    decreases i,
{
    if i > 0 {
        lemma_line_of(src, (i - 1) as nat);
        assert(src.subrange(0, i as int).drop_last() =~= src.subrange(0, i - 1));
    }
}

/// Line and column only grow along the text.
proof fn lemma_line_col_grows(src: Seq<char>, a: nat, b: nat)
    requires
        a < b,
    ensures
        line_col(src, a).0 < line_col(src, b).0 || (line_col(src, a).0 == line_col(src, b).0
            && line_col(src, a).1 < line_col(src, b).1),
    decreases b,
{
    if a + 1 < b {
        lemma_line_col_grows(src, a, (b - 1) as nat);
    }
}

/// The starts of the tokens lie in the text, each after the one before.
proof fn lemma_starts_grow(src: Seq<char>, i: nat, st: Seq<nat>)
    requires
        lex_spec(src, i) == Ok::<Seq<nat>, nat>(st),
    ensures
        forall|a: int| 0 <= a < st.len() ==> i <= #[trigger] st[a] < src.len(),
        forall|a: int, b: int| 0 <= a < b < st.len() ==> #[trigger] st[a] < #[trigger] st[b],
    decreases src.len() - i,
{
    let j = skip_trivia(src, i, false);
    lemma_skip_trivia_ge(src, i, false);
    if i <= src.len() && j < src.len() {
        lemma_scan_end(src, j);
        let e = crate::lexer::scan_end(scan_at(src, j), j);
        let rest = lex_spec(src, e)->Ok_0;
        lemma_starts_grow(src, e, rest);
        assert(st == seq![j] + rest);
        assert forall|a: int, b: int| 0 <= a < b < st.len() implies #[trigger] st[a] < #[trigger] st[b] by {
            if a > 0 {
                assert(st[a] == rest[a - 1] && st[b] == rest[b - 1]);
            } else {
                assert(st[b] == rest[b - 1]);
            }
        }
        assert forall|a: int| 0 <= a < st.len() implies i <= #[trigger] st[a] < src.len() by {
            if a > 0 {
                assert(st[a] == rest[a - 1]);
            }
        }
    } else {
        assert(st.len() == 0);
    }
}

/// The tokens of a text come in the order of their positions, each strictly
/// after the one before (by line, then column), and the closing `Eof` stands
/// just past the end, on the line that counts every line break of the text.
pub proof fn law_token_positions(toks: Seq<Token>, src: Seq<char>, starts: Seq<nat>)
    requires
        lex_spec(src, 0) == Ok::<Seq<nat>, nat>(starts),
        lexed(toks, src, starts),
    ensures
        forall|k: int|
            0 <= k < toks.len() - 1 ==> (#[trigger] toks[k].line < toks[k + 1].line || (toks[k].line
                == toks[k + 1].line && toks[k].col < toks[k + 1].col)),
        toks.last().line == 1 + newlines(src),
{
    lemma_starts_grow(src, 0, starts);
    lemma_line_of(src, src.len());
    assert(src.subrange(0, src.len() as int) =~= src);
    assert forall|k: int| 0 <= k < toks.len() - 1 implies (#[trigger] toks[k].line < toks[k + 1].line || (
    toks[k].line == toks[k + 1].line && toks[k].col < toks[k + 1].col)) by {
        assert(token_fits(toks[k], src, starts[k]));
        if k + 1 < starts.len() {
            assert(token_fits(toks[k + 1], src, starts[k + 1]));
            lemma_line_col_grows(src, starts[k], starts[k + 1]);
        } else {
            assert(toks[k + 1] == toks.last());
            lemma_line_col_grows(src, starts[k], src.len());
        }
    }
}

// ---------------------------------------------------------------- the forbidden zone, exactly

/// The literal kappa of a vessel, as a point range.
pub open spec fn literal_point(v: VesselView) -> RangeView {
    (v.kappa->FloatLit_0, v.kappa->FloatLit_0)
}

/// A vessel, not sentient, whose literal kappa lies in the forbidden zone
/// `[e^-1 + 10^-9, e^-1/2 - 10^-9]`.
pub open spec fn literal_in_zone(v: VesselView) -> bool {
    &&& v.kappa is FloatLit
    &&& !v.sentient
    &&& num_in(forbidden_zone(), num_of(v.kappa->FloatLit_0))
}

/// R1 over vessels with literal kappas and distinct names: each gets its point.
proof fn lemma_seed_literals(vs: Seq<VesselView>, i: nat, m: VesselMap)
    requires
        forall|j: int| i <= j < vs.len() ==> #[trigger] vs[j].kappa is FloatLit,
        forall|a: int, b: int| i <= a < b < vs.len() ==> #[trigger] vs[a].name != #[trigger] vs[b].name,
    ensures
        seed_from(vs, i, m).1 is None,
        forall|j: int|
            i <= j < vs.len() ==> #[trigger] lookup(seed_from(vs, i, m).0, vs[j].name) == Some(
                (literal_point(vs[j]), vs[j].sentient),
            ),
        forall|k: Seq<char>|
            (forall|j: int| i <= j < vs.len() ==> vs[j].name != k) ==> #[trigger] lookup(
                seed_from(vs, i, m).0,
                k,
            ) == lookup(m, k),
    decreases vs.len() - i,
{
    if i < vs.len() {
        let v = vs[i as int];
        let val = (literal_point(v), v.sentient);
        let m2 = assign(m, v.name, val);
        lemma_seed_literals(vs, i + 1, m2);
        let r = seed_from(vs, i + 1, m2).0;
        assert(seed_from(vs, i, m) == seed_from(vs, i + 1, m2));
        assert forall|k: Seq<char>|
            (forall|j: int| i <= j < vs.len() ==> vs[j].name != k) implies #[trigger] lookup(r, k) == lookup(m, k) by {
            assert(vs[i as int].name != k);
            lemma_assign_lookup(m, v.name, val, k);
        }
        assert forall|j: int| i <= j < vs.len() implies #[trigger] lookup(r, vs[j].name) == Some(
            (literal_point(vs[j]), vs[j].sentient),
        ) by {
            if j == i {
                assert forall|t: int| i + 1 <= t < vs.len() implies vs[t].name != v.name by {
                    assert(vs[i as int].name != vs[t].name);
                }
                lemma_assign_lookup(m, v.name, val, v.name);
            }
        }
    }
}

/// R3 over vessels each holding its literal point: the first in the zone.
proof fn lemma_exclusion_literals(vs: Seq<VesselView>, i: nat, m: VesselMap)
    requires
        forall|j: int|
            i <= j < vs.len() ==> #[trigger] lookup(m, vs[j].name) == Some(
                (literal_point(vs[j]), vs[j].sentient),
            ),
        forall|j: int| i <= j < vs.len() ==> #[trigger] vs[j].kappa is FloatLit,
    ensures
        exclusion_from(vs, i, m) is Some <==> exists|j: int| i <= j < vs.len() && #[trigger] literal_in_zone(vs[j]),
        exclusion_from(vs, i, m) matches Some(e) ==> exists|j: int|
            i <= j < vs.len() && #[trigger] literal_in_zone(vs[j]) && e == crate::kappa_infer::forbidden_error(
                vs[j].name,
                literal_point(vs[j]),
            ),
    decreases vs.len() - i,
{
    if i < vs.len() {
        let v = vs[i as int];
        assert(lookup(m, v.name) == Some((literal_point(v), v.sentient)));
        lemma_exclusion_literals(vs, i + 1, m);
        if literal_in_zone(v) {
            assert(literal_in_zone(vs[i as int]));
        } else {
            assert forall|j: int| i <= j < vs.len() && #[trigger] literal_in_zone(vs[j]) implies i + 1 <= j by {}
        }
    }
}

/// The forbidden zone, exactly: for a program of vessels alone, each with a
/// literal kappa and its own name, inference fails exactly when a vessel
/// that is not sentient has its kappa in the zone, and the diagnostic is the
/// forbidden-zone one for such a vessel.
pub proof fn law_forbidden_zone_exact(p: ProgramView)
    requires
        p.couples.len() == 0,
        p.fns.len() == 0,
        forall|i: int| 0 <= i < p.vessels.len() ==> #[trigger] p.vessels[i].kappa is FloatLit,
        forall|a: int, b: int|
            0 <= a < b < p.vessels.len() ==> #[trigger] p.vessels[a].name != #[trigger] p.vessels[b].name,
    ensures
        inference(p, (Seq::empty(), Seq::empty())).1 is Some <==> exists|i: int|
            0 <= i < p.vessels.len() && #[trigger] literal_in_zone(p.vessels[i]),
        inference(p, (Seq::empty(), Seq::empty())).1 matches Some(e) ==> exists|i: int|
            0 <= i < p.vessels.len() && #[trigger] literal_in_zone(p.vessels[i]) && e
                == crate::kappa_infer::forbidden_error(p.vessels[i].name, literal_point(p.vessels[i])),
{
    let s0: (VesselMap, FnMap) = (Seq::empty(), Seq::empty());
    lemma_seed_literals(p.vessels, 0, s0.0);
    let m1 = seed_from(p.vessels, 0, s0.0).0;
    lemma_exclusion_literals(p.vessels, 0, m1);
    assert(coupling_from(p.couples, 0, m1) is None);
    assert(crate::kappa_infer::composition_from(p.fns, 0, fns_from(p.fns, 0, s0.1)) is None);
}

} // verus!
