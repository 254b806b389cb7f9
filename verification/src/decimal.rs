//! Exact decimal numbers, as written in Vessel source.
//!
//! A `Decimal` is a sign, a string of base-ten digits (most significant
//! first) and a scale: the number of those digits that stand after the
//! decimal point.  Its value is `±digits / 10^scale`, held exactly.

use vstd::prelude::*;
use vstd::arithmetic::mul::*;

verus! {

/// Largest digit count that the arithmetic below accepts for an operand
/// (a bound that only a value larger than memory could reach).
pub const OPERAND_LIMIT: usize = usize::MAX / 4;

/// `10^n`.
pub open spec fn pow10(n: nat) -> nat
    decreases n,
{
    if n == 0 { 1 } else { 10 * pow10((n - 1) as nat) }
}

/// The natural number written by a string of base-ten digits.
pub open spec fn digits_value(s: Seq<u8>) -> nat
    decreases s.len(),
{
    if s.len() == 0 { 0 } else { digits_value(s.drop_last()) * 10 + s.last() as nat }
}

/// Every entry is a base-ten digit.
pub open spec fn all_digits(s: Seq<u8>) -> bool {
    forall|i: int| 0 <= i < s.len() ==> #[trigger] s[i] < 10
}

/// Three-way result of a comparison.
#[derive(Debug, Clone, Copy, PartialEq, Eq, Structural)]
pub enum Order {
    Less,
    Equal,
    Greater,
}

/// The order of two integers.
pub open spec fn order_of(x: int, y: int) -> Order {
    if x < y { Order::Less } else if x == y { Order::Equal } else { Order::Greater }
}

pub proof fn lemma_pow10_positive(n: nat)
    ensures
        pow10(n) >= 1,
    decreases n,
{
    if n > 0 {
        lemma_pow10_positive((n - 1) as nat);
    }
}

pub proof fn lemma_pow10_add(a: nat, b: nat)
    ensures
        pow10(a + b) == pow10(a) * pow10(b),
    decreases b,
{
    if b == 0 {
        assert(a + b == a);
        assert(pow10(b) == 1);
        assert(pow10(a) * 1 == pow10(a)) by (nonlinear_arith);
    } else {
        lemma_pow10_add(a, (b - 1) as nat);
        let x = pow10(a) as int;
        let y = pow10((b - 1) as nat) as int;
        assert((a + b - 1) as nat == a + (b - 1) as nat);
        assert(pow10(a + b) == 10 * pow10((a + b - 1) as nat));
        assert(pow10(b) == 10 * y);
        assert(pow10(a + (b - 1) as nat) == x * y);
        assert(pow10(a + b) == 10 * (x * y));
        assert(10 * (x * y) == x * (10 * y)) by (nonlinear_arith);
        assert(pow10(a) * pow10(b) == x * (10 * y));
    }
}


/// Splitting a digit string: `value(p ++ q) = value(p) * 10^|q| + value(q)`.
pub proof fn lemma_value_concat(p: Seq<u8>, q: Seq<u8>)
    ensures
        digits_value(p + q) == digits_value(p) * pow10(q.len()) + digits_value(q),
    decreases q.len(),
{
    if q.len() == 0 {
        assert(p + q =~= p);
        assert(digits_value(q) == 0);
        assert(pow10(q.len()) == 1);
        assert(digits_value(p) * 1 == digits_value(p)) by (nonlinear_arith);
    } else {
        let q1 = q.drop_last();
        lemma_value_concat(p, q1);
        assert((p + q).drop_last() =~= p + q1);
        assert((p + q).last() == q.last());
        assert(digits_value(p + q) == digits_value(p + q1) * 10 + q.last() as nat);
        assert(digits_value(q) == digits_value(q1) * 10 + q.last() as nat);
        let vp = digits_value(p) as int;
        let vq1 = digits_value(q1) as int;
        let pw = pow10(q1.len()) as int;
        assert(pow10(q.len()) == 10 * pow10(q1.len()));
        assert((vp * pw + vq1) * 10 + q.last() == vp * (10 * pw) + (vq1 * 10 + q.last()))
            by (nonlinear_arith);
    }
}

/// A digit string of length `n` writes a number below `10^n`.
pub proof fn lemma_value_bound(s: Seq<u8>)
    requires
        all_digits(s),
    ensures
        digits_value(s) < pow10(s.len()),
    decreases s.len(),
{
    if s.len() > 0 {
        let s1 = s.drop_last();
        assert(all_digits(s1)) by {
            assert forall|i: int| 0 <= i < s1.len() implies #[trigger] s1[i] < 10 by {
                assert(s1[i] == s[i]);
            }
        }
        lemma_value_bound(s1);
        assert(s.last() == s[s.len() - 1]);
        let v1 = digits_value(s1) as int;
        let p1 = pow10(s1.len()) as int;
        assert(v1 * 10 + s.last() < 10 * p1) by (nonlinear_arith)
            requires v1 < p1, s.last() < 10;
    }
}

/// A string of zero digits writes zero.
pub proof fn lemma_value_zeros(n: nat)
    ensures
        digits_value(Seq::new(n, |i: int| 0u8)) == 0,
    decreases n,
{
    if n > 0 {
        let z = Seq::new(n, |i: int| 0u8);
        assert(z.drop_last() =~= Seq::new((n - 1) as nat, |i: int| 0u8));
        lemma_value_zeros((n - 1) as nat);
    }
}

/// Digit strings that agree before `i` and differ at `i` are ordered by that digit.
proof fn lemma_first_difference(a: Seq<u8>, b: Seq<u8>, i: int)
    requires
        a.len() == b.len(),
        0 <= i < a.len(),
        all_digits(a),
        all_digits(b),
        a.subrange(0, i) == b.subrange(0, i),
        a[i] < b[i],
    ensures
        digits_value(a) < digits_value(b),
{
    let n = a.len() as int;
    let ah = a.subrange(0, i + 1);
    let at = a.subrange(i + 1, n);
    let bh = b.subrange(0, i + 1);
    let bt = b.subrange(i + 1, n);
    assert(a =~= ah + at);
    assert(b =~= bh + bt);
    lemma_value_concat(ah, at);
    lemma_value_concat(bh, bt);
    assert(ah.drop_last() =~= a.subrange(0, i));
    assert(bh.drop_last() =~= b.subrange(0, i));
    assert(all_digits(at)) by {
        assert forall|j: int| 0 <= j < at.len() implies #[trigger] at[j] < 10 by {
            assert(at[j] == a[i + 1 + j]);
        }
    }
    lemma_value_bound(at);
    let c = digits_value(a.subrange(0, i)) as int;
    let va = digits_value(ah) as int;
    let vb = digits_value(bh) as int;
    assert(va == c * 10 + a[i]);
    assert(vb == c * 10 + b[i]);
    let pw = pow10(at.len()) as int;
    assert(at.len() == bt.len());
    let ra = digits_value(at) as int;
    let rb = digits_value(bt) as int;
    assert(va * pw + ra < vb * pw + rb) by (nonlinear_arith)
        requires va + 1 <= vb, ra < pw, rb >= 0, pw >= 1;
}

/// Compares the numbers written by two digit strings of equal length.
pub fn compare_digits(a: &Vec<u8>, b: &Vec<u8>) -> (r: Order)
    requires
        a.len() == b.len(),
        all_digits(a@),
        all_digits(b@),
    ensures
        r == order_of(digits_value(a@) as int, digits_value(b@) as int),
{
    let n = a.len();
    let mut i: usize = 0;
    while i < n
        invariant
            n == a.len() == b.len(),
            0 <= i <= n,
            all_digits(a@),
            all_digits(b@),
            a@.subrange(0, i as int) == b@.subrange(0, i as int),
        decreases n - i,
    {
        if a[i] != b[i] {
            proof {
                if a[i as int] < b[i as int] {
                    lemma_first_difference(a@, b@, i as int);
                } else {
                    lemma_first_difference(b@, a@, i as int);
                }
            }
            if a[i] < b[i] {
                return Order::Less;
            } else {
                return Order::Greater;
            }
        }
        assert(a@.subrange(0, i + 1) =~= a@.subrange(0, i as int).push(a@[i as int]));
        assert(b@.subrange(0, i + 1) =~= b@.subrange(0, i as int).push(b@[i as int]));
        i = i + 1;
    }
    assert(a@ =~= a@.subrange(0, n as int));
    assert(b@ =~= b@.subrange(0, n as int));
    Order::Equal
}


/// Putting one digit in front: `value([x] ++ s) = x * 10^|s| + value(s)`.
pub proof fn lemma_value_prepend(x: u8, s: Seq<u8>)
    ensures
        digits_value(seq![x] + s) == x * pow10(s.len()) + digits_value(s),
{
    lemma_value_concat(seq![x], s);
    assert(seq![x].drop_last() =~= Seq::<u8>::empty());
    assert(digits_value(Seq::<u8>::empty()) == 0);
    assert(seq![x].last() == x);
    assert(digits_value(seq![x]) == digits_value(seq![x].drop_last()) * 10 + x);
}

/// A vector of `n` zero digits.
pub fn zero_digits(n: usize) -> (r: Vec<u8>)
    ensures
        r@ == Seq::new(n as nat, |i: int| 0u8),
{
    let mut r: Vec<u8> = Vec::new();
    let mut k: usize = 0;
    while k < n
        invariant
            k <= n,
            r@ == Seq::new(k as nat, |i: int| 0u8),
        decreases n - k,
    {
        r.push(0);
        k = k + 1;
        assert(r@ =~= Seq::new(k as nat, |i: int| 0u8));
    }
    r
}

/// Adds the numbers written by two digit strings of equal length; the sum
/// has one more digit.
pub fn add_digits(a: &Vec<u8>, b: &Vec<u8>) -> (r: Vec<u8>)
    requires
        a.len() == b.len(),
        a.len() < usize::MAX,
        all_digits(a@),
        all_digits(b@),
    ensures
        r.len() == a.len() + 1,
        all_digits(r@),
        digits_value(r@) == digits_value(a@) + digits_value(b@),
{
    let n = a.len();
    let mut r = zero_digits(n + 1);
    let mut carry: u8 = 0;
    let mut i: usize = n;
    proof {
        assert(r@.subrange(n + 1, n + 1) =~= Seq::<u8>::empty());
        assert(a@.subrange(n as int, n as int) =~= Seq::<u8>::empty());
        assert(b@.subrange(n as int, n as int) =~= Seq::<u8>::empty());
        assert(pow10(0) == 1);
    }
    while i > 0
        invariant
            n == a.len() == b.len(),
            r.len() == n + 1,
            all_digits(a@),
            all_digits(b@),
            all_digits(r@),
            carry <= 1,
            i <= n,
            digits_value(r@.subrange(i + 1, n + 1)) + carry * pow10((n - i) as nat)
                == digits_value(a@.subrange(i as int, n as int)) + digits_value(
                b@.subrange(i as int, n as int),
            ),
        decreases i,
    {
        let x = a[i - 1];
        let y = b[i - 1];
        let d = x + y + carry;
        let ghost old_r = r@;
        let ghost old_carry = carry;
        let ghost pw = pow10((n - i) as nat);
        r.set(i, d % 10);
        carry = d / 10;
        i = i - 1;
        proof {
            assert(r@.subrange(i + 1, n + 1) =~= seq![d % 10] + old_r.subrange(i + 2, n + 1));
            assert(a@.subrange(i as int, n as int) =~= seq![x] + a@.subrange(i + 1, n as int));
            assert(b@.subrange(i as int, n as int) =~= seq![y] + b@.subrange(i + 1, n as int));
            lemma_value_prepend(d % 10, old_r.subrange(i + 2, n + 1));
            lemma_value_prepend(x, a@.subrange(i + 1, n as int));
            lemma_value_prepend(y, b@.subrange(i + 1, n as int));
            assert((n - i) as nat == (n - (i + 1)) as nat + 1);
            assert(pow10((n - i) as nat) == 10 * pw);
            let vr = digits_value(old_r.subrange(i + 2, n + 1)) as int;
            let va = digits_value(a@.subrange(i + 1, n as int)) as int;
            let vb = digits_value(b@.subrange(i + 1, n as int)) as int;
            assert(d == (d / 10) * 10 + d % 10);
            assert((d % 10) * pw + vr + (d / 10) * (10 * pw) == x * pw + va + y * pw + vb)
                by (nonlinear_arith)
                requires
                    vr + old_carry * pw == va + vb,
                    d == x + y + old_carry,
                    d == (d / 10) * 10 + d % 10;
            assert forall|j: int| 0 <= j < r@.len() implies #[trigger] r@[j] < 10 by {
                if j != i + 1 {
                    assert(r@[j] == old_r[j]);
                }
            }
        }
    }
    let ghost old_r = r@;
    r.set(0, carry);
    proof {
        assert(r@ =~= seq![carry] + old_r.subrange(1, n + 1));
        lemma_value_prepend(carry, old_r.subrange(1, n + 1));
        assert(a@.subrange(0, n as int) =~= a@);
        assert(b@.subrange(0, n as int) =~= b@);
        assert forall|j: int| 0 <= j < r@.len() implies #[trigger] r@[j] < 10 by {
            if j != 0 {
                assert(r@[j] == old_r[j]);
            }
        }
    }
    r
}

/// Subtracts the number written by `b` from the one written by `a`, both of
/// equal length, where `a` writes the larger.
pub fn sub_digits(a: &Vec<u8>, b: &Vec<u8>) -> (r: Vec<u8>)
    requires
        a.len() == b.len(),
        all_digits(a@),
        all_digits(b@),
        digits_value(a@) >= digits_value(b@),
    ensures
        r.len() == a.len(),
        all_digits(r@),
        digits_value(r@) == digits_value(a@) - digits_value(b@),
{
    let n = a.len();
    let mut r = zero_digits(n);
    let mut borrow: u8 = 0;
    let mut i: usize = n;
    proof {
        assert(r@.subrange(n as int, n as int) =~= Seq::<u8>::empty());
        assert(a@.subrange(n as int, n as int) =~= Seq::<u8>::empty());
        assert(b@.subrange(n as int, n as int) =~= Seq::<u8>::empty());
        assert(pow10(0) == 1);
    }
    while i > 0
        invariant
            n == a.len() == b.len(),
            r.len() == n,
            all_digits(a@),
            all_digits(b@),
            all_digits(r@),
            borrow <= 1,
            i <= n,
            digits_value(r@.subrange(i as int, n as int)) - borrow * pow10((n - i) as nat)
                == digits_value(a@.subrange(i as int, n as int)) - digits_value(
                b@.subrange(i as int, n as int),
            ),
        decreases i,
    {
        let x = a[i - 1];
        let y = b[i - 1];
        let ghost old_r = r@;
        let ghost old_borrow = borrow;
        let ghost pw = pow10((n - i) as nat);
        let digit: u8;
        if x >= y + borrow {
            digit = x - y - borrow;
            borrow = 0;
        } else {
            digit = x + 10 - y - borrow;
            borrow = 1;
        }
        r.set(i - 1, digit);
        i = i - 1;
        proof {
            assert(r@.subrange(i as int, n as int) =~= seq![digit] + old_r.subrange(i + 1, n as int));
            assert(a@.subrange(i as int, n as int) =~= seq![x] + a@.subrange(i + 1, n as int));
            assert(b@.subrange(i as int, n as int) =~= seq![y] + b@.subrange(i + 1, n as int));
            lemma_value_prepend(digit, old_r.subrange(i + 1, n as int));
            lemma_value_prepend(x, a@.subrange(i + 1, n as int));
            lemma_value_prepend(y, b@.subrange(i + 1, n as int));
            assert((n - i) as nat == (n - (i + 1)) as nat + 1);
            assert(pow10((n - i) as nat) == 10 * pw);
            let vr = digits_value(old_r.subrange(i + 1, n as int)) as int;
            let va = digits_value(a@.subrange(i + 1, n as int)) as int;
            let vb = digits_value(b@.subrange(i + 1, n as int)) as int;
            assert(digit * pw + vr - borrow * (10 * pw) == x * pw + va - (y * pw + vb))
                by (nonlinear_arith)
                requires
                    vr - old_borrow * pw == va - vb,
                    digit == x + 10 * borrow - y - old_borrow;
            assert forall|j: int| 0 <= j < r@.len() implies #[trigger] r@[j] < 10 by {
                if j != i {
                    assert(r@[j] == old_r[j]);
                }
            }
        }
    }
    proof {
        assert(r@.subrange(0, n as int) =~= r@);
        assert(a@.subrange(0, n as int) =~= a@);
        assert(b@.subrange(0, n as int) =~= b@);
        lemma_value_bound(r@);
        if borrow == 1 {
            assert(digits_value(r@) - pow10(n as nat) < 0);
        }
    }
    r
}


/// An exact decimal number: `±value(digits) / 10^scale`.
#[derive(Debug, Clone, PartialEq)]
pub struct Decimal {
    pub negative: bool,
    pub digits: Vec<u8>,
    pub scale: usize,
}

impl Decimal {
    /// Every entry is a digit and the fraction has no more digits than the whole.
    pub open spec fn wf(&self) -> bool {
        &&& all_digits(self.digits@)
        &&& self.scale <= self.digits.len()
    }

    /// The number written by the digits, ignoring sign and point.
    pub open spec fn magnitude(&self) -> nat {
        digits_value(self.digits@)
    }

    /// The signed number written by the digits, ignoring the point.
    pub open spec fn numerator(&self) -> int {
        if self.negative { -(self.magnitude() as int) } else { self.magnitude() as int }
    }

    /// The exact value, as numerator and scale.
    pub open spec fn value(&self) -> Num {
        (self.numerator(), self.scale as nat)
    }

    /// The value times `10^s`, for `s` at least the scale.
    pub open spec fn scaled(&self, s: nat) -> int {
        scale_to(self.value(), s)
    }

    /// The same number, as a new value.
    pub fn duplicate(&self) -> (r: Decimal)
        ensures
            r.negative == self.negative,
            r.digits@ == self.digits@,
            r.scale == self.scale,
    {
        let digits = self.digits.clone();
        assert(digits@ =~= self.digits@);
        Decimal { negative: self.negative, digits, scale: self.scale }
    }
}

/// An exact number `numerator / 10^scale`, as a pair.
pub type Num = (int, nat);

/// The number `x` written over the denominator `10^s` (for `s` at least its scale).
pub open spec fn scale_to(x: Num, s: nat) -> int {
    x.0 * pow10((s - x.1) as nat)
}

/// The larger of two scales: the denominator at which both numbers are whole.
pub open spec fn max_scale(x: Num, y: Num) -> nat {
    if x.1 >= y.1 { x.1 } else { y.1 }
}

/// The order of two exact numbers.
pub open spec fn num_order(x: Num, y: Num) -> Order {
    order_of(scale_to(x, max_scale(x, y)), scale_to(y, max_scale(x, y)))
}

/// `|x - y| < 10^-9`.
pub open spec fn num_within_eps(x: Num, y: Num) -> bool {
    let s = max_scale(x, y);
    let d = scale_to(x, s) - scale_to(y, s);
    let m = if d < 0 { -d } else { d };
    m * pow10(9) < pow10(s)
}

/// The larger of the two scales of two decimals.
pub open spec fn common_scale(a: Decimal, b: Decimal) -> nat {
    max_scale(a.value(), b.value())
}

/// The order of the values of two decimals.
pub open spec fn value_order(a: Decimal, b: Decimal) -> Order {
    num_order(a.value(), b.value())
}



/// `|a - b| < 10^-9` as numbers.
pub open spec fn within_eps(a: Decimal, b: Decimal) -> bool {
    num_within_eps(a.value(), b.value())
}

/// Copies of `d` with `left` zeros in front and `right` zeros behind.
fn pad_digits(d: &Vec<u8>, left: usize, right: usize) -> (r: Vec<u8>)
    requires
        all_digits(d@),
        left + d.len() + right <= usize::MAX,
    ensures
        r@ == Seq::new(left as nat, |i: int| 0u8) + d@ + Seq::new(right as nat, |i: int| 0u8),
        r.len() == left + d.len() + right,
        all_digits(r@),
        digits_value(r@) == digits_value(d@) * pow10(right as nat),
{
    let mut r = zero_digits(left);
    let mut k: usize = 0;
    let n = d.len();
    while k < n
        invariant
            n == d.len(),
            k <= n,
            left + n + right <= usize::MAX,
            r@ == Seq::new(left as nat, |i: int| 0u8) + d@.subrange(0, k as int),
        decreases n - k,
    {
        r.push(d[k]);
        k = k + 1;
        assert(r@ =~= Seq::new(left as nat, |i: int| 0u8) + d@.subrange(0, k as int));
    }
    let mut j: usize = 0;
    assert(d@.subrange(0, n as int) =~= d@);
    while j < right
        invariant
            j <= right,
            r@ == Seq::new(left as nat, |i: int| 0u8) + d@ + Seq::new(j as nat, |i: int| 0u8),
        decreases right - j,
    {
        r.push(0);
        j = j + 1;
        assert(r@ =~= Seq::new(left as nat, |i: int| 0u8) + d@ + Seq::new(j as nat, |i: int| 0u8));
    }
    proof {
        let z1 = Seq::new(left as nat, |i: int| 0u8);
        let z2 = Seq::new(right as nat, |i: int| 0u8);
        assert(r@ =~= z1 + (d@ + z2));
        lemma_value_concat(z1, d@ + z2);
        lemma_value_zeros(left as nat);
        lemma_value_concat(d@, z2);
        lemma_value_zeros(right as nat);
        assert(0 * pow10((d@ + z2).len()) == 0) by (nonlinear_arith);
        assert forall|i: int| 0 <= i < r@.len() implies #[trigger] r@[i] < 10 by {
            if left <= i < left + n {
                assert(r@[i] == d@[i - left]);
            }
        }
    }
    r
}

/// Both magnitudes written at the common scale and padded to one length.
fn aligned(a: &Decimal, b: &Decimal) -> (r: (Vec<u8>, Vec<u8>))
    requires
        a.wf(),
        b.wf(),
        a.digits.len() <= OPERAND_LIMIT,
        b.digits.len() <= OPERAND_LIMIT,
    ensures
        r.0.len() == r.1.len(),
        r.0.len() <= a.digits.len() + b.digits.len(),
        r.0.len() >= common_scale(*a, *b),
        all_digits(r.0@),
        all_digits(r.1@),
        digits_value(r.0@) == a.magnitude() * pow10((common_scale(*a, *b) - a.scale) as nat),
        digits_value(r.1@) == b.magnitude() * pow10((common_scale(*a, *b) - b.scale) as nat),
{
    let s = if a.scale >= b.scale { a.scale } else { b.scale };
    let ia = a.digits.len() - a.scale;
    let ib = b.digits.len() - b.scale;
    let ip = if ia >= ib { ia } else { ib };
    let ra = pad_digits(&a.digits, ip - ia, s - a.scale);
    let rb = pad_digits(&b.digits, ip - ib, s - b.scale);
    (ra, rb)
}

/// `x * 10^k` has the sign of `x` and the size of `|x| * 10^k`.
proof fn lemma_signed_scale(neg: bool, m: nat, k: nat)
    ensures
        (if neg { -(m as int) } else { m as int }) * pow10(k) == (if neg {
            -((m * pow10(k)) as int)
        } else {
            (m * pow10(k)) as int
        }),
{
    if neg {
        lemma_mul_unary_negation(m as int, pow10(k) as int);
    }
}

/// Compares the values of two decimals.
pub fn compare(a: &Decimal, b: &Decimal) -> (r: Order)
    requires
        a.wf(),
        b.wf(),
        a.digits.len() <= OPERAND_LIMIT,
        b.digits.len() <= OPERAND_LIMIT,
    ensures
        r == value_order(*a, *b),
{
    let (ma, mb) = aligned(a, b);
    let ghost s = common_scale(*a, *b);
    proof {
        lemma_signed_scale(a.negative, a.magnitude(), (s - a.scale) as nat);
        lemma_signed_scale(b.negative, b.magnitude(), (s - b.scale) as nat);
    }
    let c = compare_digits(&ma, &mb);
    if !a.negative && !b.negative {
        c
    } else if a.negative && b.negative {
        match c {
            Order::Less => Order::Greater,
            Order::Equal => Order::Equal,
            Order::Greater => Order::Less,
        }
    } else {
        let z = zero_digits(ma.len());
        proof { lemma_value_zeros(ma.len() as nat); }
        let za = compare_digits(&ma, &z);
        let zb = compare_digits(&mb, &z);
        let both_zero = matches!(za, Order::Equal) && matches!(zb, Order::Equal);
        if both_zero {
            Order::Equal
        } else if a.negative {
            Order::Less
        } else {
            Order::Greater
        }
    }
}

/// The sum of two decimals, at their common scale.
pub fn plus(a: &Decimal, b: &Decimal) -> (r: Decimal)
    requires
        a.wf(),
        b.wf(),
        a.digits.len() <= OPERAND_LIMIT,
        b.digits.len() <= OPERAND_LIMIT,
    ensures
        r.wf(),
        r.scale == common_scale(*a, *b),
        r.numerator() == a.scaled(r.scale as nat) + b.scaled(r.scale as nat),
        r.digits.len() <= a.digits.len() + b.digits.len() + 1,
{
    let (ma, mb) = aligned(a, b);
    let s = if a.scale >= b.scale { a.scale } else { b.scale };
    proof {
        lemma_signed_scale(a.negative, a.magnitude(), (s - a.scale) as nat);
        lemma_signed_scale(b.negative, b.magnitude(), (s - b.scale) as nat);
    }
    if a.negative == b.negative {
        let d = add_digits(&ma, &mb);
        Decimal { negative: a.negative, digits: d, scale: s }
    } else {
        let c = compare_digits(&ma, &mb);
        if matches!(c, Order::Less) {
            let d = sub_digits(&mb, &ma);
            Decimal { negative: b.negative, digits: d, scale: s }
        } else {
            let d = sub_digits(&ma, &mb);
            Decimal { negative: a.negative, digits: d, scale: s }
        }
    }
}

/// The negation of a decimal.
pub fn negate(a: &Decimal) -> (r: Decimal)
    ensures
        r.negative == !a.negative,
        r.digits@ == a.digits@,
        r.scale == a.scale,
{
    let d = a.duplicate();
    Decimal { negative: !a.negative, digits: d.digits, scale: d.scale }
}

/// The difference `a - b` of two decimals, at their common scale.
pub fn minus(a: &Decimal, b: &Decimal) -> (r: Decimal)
    requires
        a.wf(),
        b.wf(),
        a.digits.len() <= OPERAND_LIMIT,
        b.digits.len() <= OPERAND_LIMIT,
    ensures
        r.wf(),
        r.scale == common_scale(*a, *b),
        r.numerator() == a.scaled(r.scale as nat) - b.scaled(r.scale as nat),
        r.digits.len() <= a.digits.len() + b.digits.len() + 1,
{
    let nb = negate(b);
    let r = plus(a, &nb);
    proof {
        let k = (r.scale - b.scale) as nat;
        assert(nb.numerator() == -b.numerator());
        lemma_mul_unary_negation(b.numerator(), pow10(k) as int);
    }
    r
}



/// Multiplying both sides by a positive number keeps a strict order, both ways.
proof fn lemma_scale_strict(x: int, y: int, p: int)
    requires
        p > 0,
    ensures
        x < y <==> x * p < y * p,
{
    if x < y {
        lemma_mul_strict_inequality(x, y, p);
    } else {
        lemma_mul_inequality(y, x, p);
    }
}

/// Whether two decimals lie closer together than `10^-9`.
pub fn is_within_eps(a: &Decimal, b: &Decimal) -> (r: bool)
    requires
        a.wf(),
        b.wf(),
        a.digits.len() <= OPERAND_LIMIT / 2,
        b.digits.len() <= OPERAND_LIMIT / 2,
    ensures
        r == within_eps(*a, *b),
{
    let d = minus(a, b);
    let m = Decimal { negative: false, digits: d.digits, scale: d.scale };
    let e = crate::constants::eps();
    let c = compare(&m, &e);
    proof {
        let s = d.scale as nat;
        let n = d.numerator();
        let an = if n < 0 { -n } else { n };
        assert(m.numerator() == an);
        let s2 = max_scale(m.value(), e.value());
        let t = (s + 9 - s2) as nat;
        lemma_pow10_add((s2 - s) as nat, t);
        lemma_pow10_add((s2 - 9) as nat, t);
        assert((s2 - s) as nat + t == 9);
        assert((s2 - 9) as nat + t == s);
        lemma_pow10_positive(t);
        let x: int = an * pow10((s2 - s) as nat);
        let y: int = 1 * (pow10((s2 - 9) as nat) as int);
        lemma_scale_strict(x, y, pow10(t) as int);
        lemma_mul_is_associative(an, pow10((s2 - s) as nat) as int, pow10(t) as int);
        assert(y == pow10((s2 - 9) as nat));
        assert(scale_to(a.value(), s) - scale_to(b.value(), s) == n);
    }
    matches!(c, Order::Less)
}

/// The digit characters of a digit string.
pub open spec fn digit_chars(s: Seq<u8>) -> Seq<char> {
    s.map_values(|d: u8| crate::text::digit_char(d as nat))
}

/// How a decimal is written: an optional `-`, the whole digits, and when the
/// scale is positive a `.` and the fraction digits.
pub open spec fn decimal_text(d: Decimal) -> Seq<char> {
    let n = d.digits@.len();
    let whole = d.digits@.subrange(0, n - d.scale);
    let frac = d.digits@.subrange(n - d.scale, n as int);
    (if d.negative { "-"@ } else { Seq::<char>::empty() }) + digit_chars(whole) + (if d.scale > 0 {
        "."@ + digit_chars(frac)
    } else {
        Seq::<char>::empty()
    })
}

fn push_digits(s: &mut String, digits: &Vec<u8>, from: usize, to: usize)
    requires
        all_digits(digits@),
        from <= to <= digits.len(),
    ensures
        final(s)@ == old(s)@ + digit_chars(digits@.subrange(from as int, to as int)),
{
    let mut i = from;
    while i < to
        invariant
            from <= i <= to <= digits.len(),
            all_digits(digits@),
            s@ == old(s)@ + digit_chars(digits@.subrange(from as int, i as int)),
        decreases to - i,
    {
        let c = crate::text::exec_digit_char(digits[i] as usize);
        crate::text::push_char(s, c);
        i = i + 1;
        assert(s@ =~= old(s)@ + digit_chars(digits@.subrange(from as int, i as int)));
    }
}

impl Decimal {
    /// How this decimal is written, as in `-0.25`.
    pub fn to_text(&self) -> (s: String)
        requires
            self.wf(),
        ensures
            s@ == decimal_text(*self),
    {
        let mut s = String::new();
        if self.negative {
            s.append("-");
        }
        let n = self.digits.len();
        push_digits(&mut s, &self.digits, 0, n - self.scale);
        if self.scale > 0 {
            s.append(".");
            push_digits(&mut s, &self.digits, n - self.scale, n);
        }
        proof {
            reveal_strlit("-");
            reveal_strlit(".");
        }
        assert(s@ =~= decimal_text(*self));
        s
    }
}

/// The position of the first digit at or after `i` that is not zero
/// (the length when there is none).
pub open spec fn first_nonzero(s: Seq<u8>, i: nat) -> nat
    decreases s.len() - i,
{
    if i >= s.len() {
        s.len()
    } else if s[i as int] != 0 {
        i
    } else {
        first_nonzero(s, i + 1)
    }
}

/// The end of `s[..e]` once its trailing zeros are left out.
pub open spec fn trimmed_end(s: Seq<u8>, e: nat) -> nat
    decreases e,
{
    if e == 0 || e > s.len() {
        0
    } else if s[e - 1] != 0 {
        e
    } else {
        trimmed_end(s, (e - 1) as nat)
    }
}

/// A digit string in the form `d.ddd` (just `d` when it has one digit).
pub open spec fn mantissa_text(sig: Seq<u8>) -> Seq<char> {
    seq![crate::text::digit_char(sig[0] as nat)] + (if sig.len() > 1 {
        "."@ + digit_chars(sig.subrange(1, sig.len() as int))
    } else {
        Seq::<char>::empty()
    })
}

/// How a number literal is shown in a token's description, as a float's
/// `Debug` form shows it.  From `1e-4` up to `1e16` (and for zero): its
/// sign, the whole digits without leading zeros, a point and the fraction
/// digits without trailing zeros, each part at least `0`, as in `0.5` or
/// `3.0`.  Beyond that range: its significant digits as `d.ddd` and a power
/// of ten, as in `1e-5` or `1.25e16`.
pub open spec fn shown_text(d: Decimal) -> Seq<char> {
    let n = d.digits@.len();
    let w = n - d.scale;
    let whole = d.digits@.subrange(0, w);
    let frac = d.digits@.subrange(w, n as int);
    let j = first_nonzero(whole, 0);
    let z = first_nonzero(frac, 0);
    let whole_kept = whole.subrange(j as int, whole.len() as int);
    let frac_kept = frac.subrange(0, trimmed_end(frac, frac.len()) as int);
    let sign = if d.negative { "-"@ } else { Seq::<char>::empty() };
    if whole_kept.len() >= 17 {
        let rest = d.digits@.subrange(j as int, n as int);
        let sig = rest.subrange(0, trimmed_end(rest, rest.len()) as int);
        sign + mantissa_text(sig) + "e"@ + crate::text::decimal_text((whole_kept.len() - 1) as nat)
    } else if whole_kept.len() == 0 && 4 <= z < frac.len() {
        let sig = frac.subrange(z as int, trimmed_end(frac, frac.len()) as int);
        sign + mantissa_text(sig) + "e-"@ + crate::text::decimal_text(z + 1)
    } else {
        sign + (if whole_kept.len() == 0 {
            "0"@
        } else {
            digit_chars(whole_kept)
        }) + "."@ + (if frac_kept.len() == 0 {
            "0"@
        } else {
            digit_chars(frac_kept)
        })
    }
}

/// The end of `s[..e]` without trailing zeros lies past a digit that is not zero.
proof fn lemma_trimmed_past(s: Seq<u8>, e: nat, k: nat)
    requires
        e <= s.len(),
        k < e,
        s[k as int] != 0,
    ensures
        k < trimmed_end(s, e) <= e,
    decreases e,
{
    if s[e - 1] == 0 {
        lemma_trimmed_past(s, (e - 1) as nat, k);
    }
}

/// Appends `d.ddd` for `digits[from..to]`.
fn push_mantissa(s: &mut String, digits: &Vec<u8>, from: usize, to: usize)
    requires
        all_digits(digits@),
        from < to <= digits.len(),
    ensures
        final(s)@ == old(s)@ + mantissa_text(digits@.subrange(from as int, to as int)),
{
    let c = crate::text::exec_digit_char(digits[from] as usize);
    crate::text::push_char(s, c);
    if to - from > 1 {
        s.append(".");
        push_digits(s, digits, from + 1, to);
        proof {
            reveal_strlit(".");
        }
        assert(digits@.subrange(from as int, to as int).subrange(1, (to - from) as int) =~= digits@.subrange(
            from + 1,
            to as int,
        ));
    }
    assert(final(s)@ =~= old(s)@ + mantissa_text(digits@.subrange(from as int, to as int)));
}

impl Decimal {
    /// How this number is shown in a token's description, as in `3.0` or `1e-5`.
    #[verifier::rlimit(60)]
    #[verifier::spinoff_prover]
    pub fn shown(&self) -> (s: String)
        requires
            self.wf(),
        ensures
            s@ == shown_text(*self),
    {
        let n = self.digits.len();
        let w = n - self.scale;
        let ghost whole = self.digits@.subrange(0, w as int);
        let ghost frac = self.digits@.subrange(w as int, n as int);
        // the first digit of the whole part that is not zero
        let mut j: usize = 0;
        while j < w && self.digits[j] == 0
            invariant
                j <= w <= n == self.digits.len(),
                whole == self.digits@.subrange(0, w as int),
                first_nonzero(whole, 0) == first_nonzero(whole, j as nat),
            decreases w - j,
        {
            assert(whole[j as int] == self.digits@[j as int]);
            j = j + 1;
        }
        if j < w {
            assert(whole[j as int] == self.digits@[j as int]);
        }
        // the end of the fraction without its trailing zeros
        let mut e: usize = n;
        while e > w && self.digits[e - 1] == 0
            invariant
                w <= e <= n == self.digits.len(),
                frac == self.digits@.subrange(w as int, n as int),
                trimmed_end(frac, frac.len()) == trimmed_end(frac, (e - w) as nat),
            decreases e,
        {
            assert(frac[e - w - 1] == self.digits@[e - 1]);
            e = e - 1;
        }
        if e > w {
            assert(frac[e - w - 1] == self.digits@[e - 1]);
        }
        // the first digit of the fraction that is not zero
        let mut z: usize = 0;
        while w + z < n && self.digits[w + z] == 0
            invariant
                w + z <= n == self.digits.len(),
                frac == self.digits@.subrange(w as int, n as int),
                first_nonzero(frac, 0) == first_nonzero(frac, z as nat),
            decreases n - w - z,
        {
            assert(frac[z as int] == self.digits@[w + z]);
            z = z + 1;
        }
        if w + z < n {
            assert(frac[z as int] == self.digits@[w + z]);
        }
        let mut s = String::new();
        if self.negative {
            s.append("-");
        }
        proof {
            reveal_strlit("-");
            reveal_strlit("0");
            reveal_strlit(".");
            reveal_strlit("e");
            reveal_strlit("e-");
        }
        if w - j >= 17 {
            // a large number: the significant digits and a power of ten
            let ghost rest = self.digits@.subrange(j as int, n as int);
            let mut e2: usize = n;
            while e2 > j && self.digits[e2 - 1] == 0
                invariant
                    j < w <= n == self.digits.len(),
                    j < e2 <= n,
                    self.digits@[j as int] != 0,
                    rest == self.digits@.subrange(j as int, n as int),
                    trimmed_end(rest, rest.len()) == trimmed_end(rest, (e2 - j) as nat),
                decreases e2,
            {
                assert(rest[e2 - j - 1] == self.digits@[e2 - 1]);
                e2 = e2 - 1;
            }
            proof {
                assert(rest[0] == self.digits@[j as int]);
                lemma_trimmed_past(rest, (e2 - j) as nat, 0);
                if e2 > j {
                    assert(rest[e2 - j - 1] == self.digits@[e2 - 1]);
                }
                assert(rest.subrange(0, (e2 - j) as int) =~= self.digits@.subrange(j as int, e2 as int));
            }
            push_mantissa(&mut s, &self.digits, j, e2);
            s.append("e");
            crate::text::push_decimal(&mut s, w - j - 1);
            assert(s@ =~= shown_text(*self));
            s
        } else if j == w && 4 <= z && w + z < n {
            // a small number: the significant digits and a negative power of ten
            proof {
                lemma_trimmed_past(frac, frac.len(), z as nat);
                assert(frac.subrange(z as int, (e - w) as int) =~= self.digits@.subrange(w + z, e as int));
            }
            push_mantissa(&mut s, &self.digits, w + z, e);
            s.append("e-");
            crate::text::push_decimal(&mut s, z + 1);
            assert(s@ =~= shown_text(*self));
            s
        } else {
            if j == w {
                s.append("0");
            } else {
                push_digits(&mut s, &self.digits, j, w);
                assert(whole.subrange(j as int, w as int) =~= self.digits@.subrange(j as int, w as int));
            }
            s.append(".");
            if e == w {
                s.append("0");
            } else {
                push_digits(&mut s, &self.digits, w, e);
                assert(frac.subrange(0, (e - w) as int) =~= self.digits@.subrange(w as int, e as int));
            }
            assert(s@ =~= shown_text(*self));
            s
        }
    }
}

} // verus!
