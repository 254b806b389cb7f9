//! Numbers shown with four decimals, as the diagnostics print them.

use vstd::prelude::*;
use vstd::arithmetic::div_mod::lemma_fundamental_div_mod_converse;
use crate::ast::DecimalView;
use crate::decimal::{
    Decimal, OPERAND_LIMIT, add_digits, all_digits, digits_value, lemma_pow10_add, lemma_pow10_positive,
    lemma_value_bound, lemma_value_concat, lemma_value_zeros, pow10, zero_digits,
};
use crate::text::{decimal_text, digit_char, exec_digit_char, push_char};

verus! {

/// `m / 10^s` times `10^4`, rounded to the nearest whole number, a tie
/// going to the even one: the magnitude that four decimals show.
pub open spec fn round4(m: nat, s: nat) -> nat {
    if s <= 4 {
        m * pow10((4 - s) as nat)
    } else {
        let p = pow10((s - 4) as nat);
        let q = m / p;
        let r = m % p;
        if 2 * r > p || (2 * r == p && q % 2 == 1) {
            q + 1
        } else {
            q
        }
    }
}

/// The four digit characters of `n` (below `10^4`), zero padded.
pub open spec fn four_digits(n: nat) -> Seq<char> {
    seq![digit_char(n / 1000), digit_char((n / 100) % 10), digit_char((n / 10) % 10), digit_char(n % 10)]
}

/// A number shown with four decimals: its sign, the whole part, a point and
/// four digits, as in `-0.3679`.
pub open spec fn fixed4_text(d: DecimalView) -> Seq<char> {
    let r = round4(digits_value(d.1), d.2);
    (if d.0 { "-"@ } else { Seq::empty() }) + decimal_text(r / 10000) + "."@ + four_digits(r % 10000)
}

/// The digit characters of a digit string.
pub open spec fn chars_of_digits(s: Seq<u8>) -> Seq<char>
    decreases s.len(),
{
    if s.len() == 0 {
        Seq::empty()
    } else {
        chars_of_digits(s.drop_last()).push(digit_char(s.last() as nat))
    }
}

/// Splitting `A·p + B` at `p`, where `B`'s leading digit is `q`: when the
/// rest is more than half, or exactly half after an odd `A`.
proof fn lemma_round_half_even(a: int, b: int, p: int, q: int, p1: int, c: int)
    requires
        p1 >= 1,
        p == 10 * p1,
        b == q * p1 + c,
        0 <= c < p1,
        0 <= q < 10,
        a >= 0,
    ensures
        (a * p + b) / p == a,
        (a * p + b) % p == b,
        (2 * b > p || (2 * b == p && a % 2 == 1)) <==> (q > 5 || (q == 5 && (c > 0 || a % 2 == 1))),
{
    assert(0 <= b < p) by (nonlinear_arith)
        requires
            p == 10 * p1,
            b == q * p1 + c,
            0 <= c < p1,
            0 <= q < 10,
            p1 >= 1,
    ;
    lemma_fundamental_div_mod_converse(a * p + b, p, a, b);
    assert((2 * b > p) <==> (q > 5 || (q == 5 && c > 0))) by (nonlinear_arith)
        requires
            p == 10 * p1,
            b == q * p1 + c,
            0 <= c < p1,
            0 <= q < 10,
            p1 >= 1,
    ;
    assert((2 * b == p) <==> (q == 5 && c == 0)) by (nonlinear_arith)
        requires
            p == 10 * p1,
            b == q * p1 + c,
            0 <= c < p1,
            0 <= q < 10,
            p1 >= 1,
    ;
}

/// The value of a digit string has the parity of its last digit.
proof fn lemma_last_parity(s: Seq<u8>)
    requires
        s.len() > 0,
    ensures
        digits_value(s) % 2 == s.last() % 2,
{
    let v = digits_value(s.drop_last()) as int;
    let d = s.last() as int;
    assert((v * 10 + d) % 2 == d % 2) by (nonlinear_arith)
        requires
            v >= 0,
            d >= 0,
    ;
}

/// A digit string with a digit that is not zero has a value of at least 1.
proof fn lemma_nonzero_value(s: Seq<u8>, k: int)
    requires
        all_digits(s),
        0 <= k < s.len(),
        s[k] != 0,
    ensures
        digits_value(s) >= 1,
{
    let p = s.subrange(0, k);
    let q = s.subrange(k, s.len() as int);
    assert(s =~= p + q);
    lemma_value_concat(p, q);
    assert(q[0] == s[k]);
    assert(all_digits(q)) by {
        assert forall|i: int| 0 <= i < q.len() implies #[trigger] q[i] < 10 by {
            assert(q[i] == s[k + i]);
        }
    }
    lemma_text_of_digits(q);
    lemma_pow10_positive(q.len());
    let vp = digits_value(p) as int;
    let pw = pow10(q.len()) as int;
    assert(vp * pw >= 0) by (nonlinear_arith)
        requires
            vp >= 0,
            pw >= 1,
    ;
}


/// A digit string whose first digit is not zero is written as its value is.
proof fn lemma_text_of_digits(s: Seq<u8>)
    requires
        s.len() > 0,
        s[0] != 0,
        all_digits(s),
    ensures
        decimal_text(digits_value(s)) == chars_of_digits(s),
        digits_value(s) >= 1,
    decreases s.len(),
{
    if s.len() == 1 {
        assert(s.drop_last() =~= Seq::<u8>::empty());
        assert(digits_value(Seq::<u8>::empty()) == 0);
        assert(digits_value(s) == s[0] as nat);
        assert(s.last() == s[0]);
        assert(chars_of_digits(s.drop_last()) =~= Seq::<char>::empty());
        assert(chars_of_digits(s) =~= seq![digit_char(s[0] as nat)]);
    } else {
        let p = s.drop_last();
        assert(p[0] == s[0]);
        assert(all_digits(p)) by {
            assert forall|i: int| 0 <= i < p.len() implies #[trigger] p[i] < 10 by {
                assert(p[i] == s[i]);
            }
        }
        lemma_text_of_digits(p);
        let v = digits_value(s);
        let vp = digits_value(p);
        let d = s.last() as nat;
        assert(s.last() == s[s.len() - 1]);
        assert(d < 10);
        assert(v == vp * 10 + d);
        assert(v / 10 == vp && v % 10 == d) by {
            lemma_fundamental_div_mod_converse(v as int, 10, vp as int, d as int);
        }
        assert(v >= 10);
    }
}

/// The value of a four-digit string, digit by digit.
proof fn lemma_four_digits(f: Seq<u8>)
    requires
        f.len() == 4,
        all_digits(f),
    ensures
        four_digits(digits_value(f)) == chars_of_digits(f),
{
    reveal_with_fuel(digits_value, 5);
    reveal_with_fuel(chars_of_digits, 5);
    let a = f[0] as int;
    let b = f[1] as int;
    let c = f[2] as int;
    let d = f[3] as int;
    assert(f.drop_last().drop_last().drop_last().drop_last() =~= Seq::<u8>::empty());
    assert(f.drop_last().drop_last().drop_last() =~= seq![f[0]]);
    assert(f.drop_last().drop_last() =~= seq![f[0], f[1]]);
    assert(f.drop_last() =~= seq![f[0], f[1], f[2]]);
    let v = digits_value(f) as int;
    assert(v == ((a * 10 + b) * 10 + c) * 10 + d);
    assert(v / 1000 == a && (v / 100) % 10 == b && (v / 10) % 10 == c && v % 10 == d) by (nonlinear_arith)
        requires
            v == ((a * 10 + b) * 10 + c) * 10 + d,
            0 <= a < 10,
            0 <= b < 10,
            0 <= c < 10,
            0 <= d < 10,
    ;
    assert(chars_of_digits(f) =~= seq![
        digit_char(a as nat),
        digit_char(b as nat),
        digit_char(c as nat),
        digit_char(d as nat),
    ]);
}

/// Appends the characters of `digits[from..to]`.
fn push_digit_chars(s: &mut String, digits: &Vec<u8>, from: usize, to: usize)
    requires
        all_digits(digits@),
        from <= to <= digits.len(),
    ensures
        final(s)@ == old(s)@ + chars_of_digits(digits@.subrange(from as int, to as int)),
{
    let mut i = from;
    while i < to
        invariant
            from <= i <= to <= digits.len(),
            all_digits(digits@),
            s@ == old(s)@ + chars_of_digits(digits@.subrange(from as int, i as int)),
        decreases to - i,
    {
        let c = exec_digit_char(digits[i] as usize);
        push_char(s, c);
        proof {
            let next = digits@.subrange(from as int, i + 1);
            assert(next.drop_last() =~= digits@.subrange(from as int, i as int));
            assert(next.last() == digits@[i as int]);
        }
        i = i + 1;
        assert(s@ =~= old(s)@ + chars_of_digits(digits@.subrange(from as int, i as int)));
    }
}

/// The digits of `round4` for a decimal: at least four of them.
fn rounded_digits(d: &Decimal) -> (e: Vec<u8>)
    requires
        d.wf(),
        d.digits.len() <= OPERAND_LIMIT,
    ensures
        all_digits(e@),
        e.len() >= 4,
        digits_value(e@) == round4(digits_value(d.digits@), d.scale as nat),
{
    let n = d.digits.len();
    let s = d.scale;
    let keep: usize = if s >= 4 { n - s + 4 } else { n };
    let mut t: Vec<u8> = Vec::new();
    let mut i: usize = 0;
    while i < keep
        invariant
            keep <= n == d.digits.len(),
            i <= keep,
            t@ == d.digits@.subrange(0, i as int),
        decreases keep - i,
    {
        t.push(d.digits[i]);
        i = i + 1;
        assert(t@ =~= d.digits@.subrange(0, i as int));
    }
    let ghost m = digits_value(d.digits@);
    if s <= 4 {
        let pad = zero_digits(4 - s);
        let ghost t0 = t@;
        let mut j: usize = 0;
        while j < 4 - s
            invariant
                s <= 4,
                j <= 4 - s,
                pad@ == Seq::new((4 - s) as nat, |k: int| 0u8),
                t@ == t0 + pad@.subrange(0, j as int),
            decreases 4 - s - j,
        {
            t.push(0);
            j = j + 1;
            assert(t@ =~= t0 + pad@.subrange(0, j as int));
        }
        proof {
            assert(t0 =~= d.digits@);
            assert(pad@.subrange(0, (4 - s) as int) =~= pad@);
            lemma_value_concat(t0, pad@);
            lemma_value_zeros((4 - s) as nat);
            assert(all_digits(t@)) by {
                assert forall|k: int| 0 <= k < t@.len() implies #[trigger] t@[k] < 10 by {
                    if k < t0.len() {
                        assert(t@[k] == d.digits@[k]);
                    } else {
                        assert(t@[k] == pad@[k - t0.len()]);
                    }
                }
            }
        }
        t
    } else {
        let ghost u = (s - 4) as nat;
        let ghost head = d.digits@.subrange(0, keep as int);
        let ghost tail = d.digits@.subrange(keep as int, n as int);
        let q = d.digits[keep];
        // whether a digit after the first one dropped is not zero
        let mut k: usize = keep + 1;
        let mut rest_nonzero = false;
        while k < n
            invariant
                keep + 1 <= k <= n,
                n == d.digits.len(),
                rest_nonzero <==> exists|i: int| keep + 1 <= i < k && d.digits@[i] != 0,
            decreases n - k,
        {
            if d.digits[k] != 0 {
                rest_nonzero = true;
            }
            k = k + 1;
        }
        let odd = t[t.len() - 1] % 2 == 1;
        proof {
            assert(d.digits@ =~= head + tail);
            assert(tail.len() == u);
            lemma_value_concat(head, tail);
            assert(tail =~= seq![q] + tail.subrange(1, u as int));
            lemma_value_concat(seq![q], tail.subrange(1, u as int));
            assert(seq![q].drop_last() =~= Seq::<u8>::empty());
            assert(digits_value(Seq::<u8>::empty()) == 0);
            assert(digits_value(seq![q]) == q as nat);
            let rest = tail.subrange(1, u as int);
            assert(all_digits(rest)) by {
                assert forall|k: int| 0 <= k < rest.len() implies #[trigger] rest[k] < 10 by {
                    assert(rest[k] == d.digits@[keep + 1 + k]);
                }
            }
            lemma_value_bound(rest);
            assert(rest.len() == (u - 1) as nat);
            lemma_pow10_add(1, (u - 1) as nat);
            assert(1 + (u - 1) as nat == u);
            assert(pow10(1) == 10) by {
                reveal_with_fuel(pow10, 2);
            }
            lemma_pow10_positive((u - 1) as nat);
            lemma_round_half_even(
                digits_value(head) as int,
                digits_value(tail) as int,
                pow10(u) as int,
                q as int,
                pow10((u - 1) as nat) as int,
                digits_value(rest) as int,
            );
            assert(digits_value(d.digits@) == digits_value(head) * pow10(u) + digits_value(tail));
            assert(t@ =~= head);
            lemma_last_parity(head);
            assert(head.last() == t@[t.len() - 1]);
            if rest_nonzero {
                let i = choose|i: int| keep + 1 <= i < n && d.digits@[i] != 0;
                assert(rest[i - keep - 1] == d.digits@[i]);
                lemma_nonzero_value(rest, i - keep - 1);
            } else {
                assert forall|i: int| 0 <= i < rest.len() implies rest[i] == 0u8 by {
                    assert(rest[i] == d.digits@[keep + 1 + i]);
                }
                assert(rest =~= Seq::new(rest.len(), |i: int| 0u8));
                lemma_value_zeros(rest.len());
            }
            assert(all_digits(t@)) by {
                assert forall|k: int| 0 <= k < t@.len() implies #[trigger] t@[k] < 10 by {
                    assert(t@[k] == d.digits@[k]);
                }
            }
        }
        if q > 5 || (q == 5 && (rest_nonzero || odd)) {
            let len = t.len();
            let mut one = zero_digits(len);
            one.set(len - 1, 1);
            proof {
                let z = Seq::new((len - 1) as nat, |k: int| 0u8);
                assert(one@ =~= z.push(1u8));
                assert(one@.drop_last() =~= z);
                lemma_value_zeros((len - 1) as nat);
                assert(digits_value(one@) == digits_value(z) * 10 + 1);
                assert(all_digits(one@)) by {
                    assert forall|k: int| 0 <= k < one@.len() implies #[trigger] one@[k] < 10 by {}
                }
            }
            add_digits(&t, &one)
        } else {
            t
        }
    }
}

/// The rounded digits split into the whole part and four decimals.
proof fn lemma_split_rounded(e: Seq<u8>, r: nat)
    requires
        all_digits(e),
        e.len() >= 4,
        digits_value(e) == r,
    ensures
        digits_value(e.subrange(0, e.len() - 4)) == r / 10000,
        four_digits(r % 10000) == chars_of_digits(e.subrange(e.len() - 4, e.len() as int)),
        all_digits(e.subrange(0, e.len() - 4)),
{
    let w = e.len() - 4;
    let whole = e.subrange(0, w);
    let frac = e.subrange(w, e.len() as int);
    assert(e =~= whole + frac);
    lemma_value_concat(whole, frac);
    assert(all_digits(frac)) by {
        assert forall|k: int| 0 <= k < frac.len() implies #[trigger] frac[k] < 10 by {
            assert(frac[k] == e[w + k]);
        }
    }
    assert(all_digits(whole)) by {
        assert forall|k: int| 0 <= k < whole.len() implies #[trigger] whole[k] < 10 by {
            assert(whole[k] == e[k]);
        }
    }
    lemma_value_bound(frac);
    assert(pow10(4) == 10000) by {
        reveal_with_fuel(pow10, 5);
    }
    lemma_fundamental_div_mod_converse(r as int, 10000, digits_value(whole) as int, digits_value(frac) as int);
    lemma_four_digits(frac);
}

/// Leading zeros of the whole part are not shown.
proof fn lemma_whole_text(whole: Seq<u8>, j: int)
    requires
        all_digits(whole),
        0 <= j <= whole.len(),
        forall|k: int| 0 <= k < j ==> whole[k] == 0,
        j < whole.len() ==> whole[j] != 0,
    ensures
        decimal_text(digits_value(whole)) == if j < whole.len() {
            chars_of_digits(whole.subrange(j, whole.len() as int))
        } else {
            seq!['0']
        },
{
    let zs = whole.subrange(0, j);
    let rest = whole.subrange(j, whole.len() as int);
    assert(whole =~= zs + rest);
    assert(zs =~= Seq::new(j as nat, |k: int| 0u8));
    lemma_value_zeros(j as nat);
    lemma_value_concat(zs, rest);
    assert(digits_value(whole) == digits_value(rest));
    if j < whole.len() {
        assert(rest[0] == whole[j]);
        assert(all_digits(rest)) by {
            assert forall|k: int| 0 <= k < rest.len() implies #[trigger] rest[k] < 10 by {
                assert(rest[k] == whole[j + k]);
            }
        }
        lemma_text_of_digits(rest);
    } else {
        assert(rest =~= Seq::<u8>::empty());
        assert(digits_value(rest) == 0);
        assert(decimal_text(0) == seq![digit_char(0)]);
    }
}

/// How a decimal is shown with four decimals, as `{:.4}` shows a number:
/// the magnitude is rounded at the fourth decimal, a tie going to the even
/// digit.
pub fn fixed4(d: &Decimal) -> (s: String)
    requires
        d.wf(),
        d.digits.len() <= OPERAND_LIMIT,
    ensures
        s@ == fixed4_text(d@),
{
    let e = rounded_digits(d);
    let len = e.len();
    let w = len - 4;
    let ghost r = round4(digits_value(d.digits@), d.scale as nat);
    proof {
        lemma_split_rounded(e@, r);
    }
    let mut s = String::new();
    if d.negative {
        s.append("-");
    }
    let ghost sign = s@;
    // the whole part, without leading zeros
    let mut j: usize = 0;
    while j < w && e[j] == 0
        invariant
            j <= w < len == e.len(),
            forall|k: int| 0 <= k < j ==> e@[k] == 0,
        decreases w - j,
    {
        j = j + 1;
    }
    proof {
        lemma_whole_text(e@.subrange(0, w as int), j as int);
        assert(e@.subrange(0, w as int).subrange(j as int, w as int) == e@.subrange(j as int, w as int));
    }
    if j == w {
        push_char(&mut s, '0');
    } else {
        push_digit_chars(&mut s, &e, j, w);
    }
    let ghost whole_text = s@;
    assert(whole_text == sign + decimal_text(r / 10000));
    s.append(".");
    push_digit_chars(&mut s, &e, w, len);
    proof {
        reveal_strlit("-");
        reveal_strlit(".");
    }
    assert(s@ =~= fixed4_text(d@));
    s
}

} // verus!
