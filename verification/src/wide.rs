//! Whole numbers of any size, for sums and products that an `i128` cannot
//! hold.
//!
//! A number is held as digits of 32 bits, the lowest first. All digits but
//! the last are at least 0; the last is 0 or -1 and gives the sign.
use vstd::prelude::*;
use crate::fixed::{div_floor, lemma_product_bound};

verus! {

/// The base of the digits.
pub const BASE: i128 = 0x1_0000_0000;

/// Largest magnitude of a digit before the carries are taken.
pub const RAW_MAX: i128 = 0x2000_0000_0000_0000_0000_0000_0000_0000;

/// Most digits of a number that is computed with.
pub const DIGITS_MAX: usize = 4096;

/// The weight of the digit `k`: the base to the power `k`.
pub open spec fn place(k: nat) -> int
    decreases k,
{
    if k == 0 {
        1
    } else {
        0x1_0000_0000 * place((k - 1) as nat)
    }
}

/// The number that digits stand for: the sum of the digits, each times its
/// weight.
pub open spec fn digits_value(digits: Seq<i128>) -> int
    decreases digits.len(),
{
    if digits.len() == 0 {
        0
    } else {
        digits_value(digits.drop_last()) + digits.last() * place((digits.len() - 1) as nat)
    }
}

pub proof fn lemma_place_positive(k: nat)
    ensures
        place(k) >= 1,
    decreases k,
{
    if k > 0 {
        lemma_place_positive((k - 1) as nat);
    }
}

pub proof fn lemma_place_add(i: nat, j: nat)
    ensures
        place(i + j) == place(i) * place(j),
    decreases j,
{
    if j == 0 {
        assert(place(i) * 1 == place(i));
    } else {
        lemma_place_add(i, (j - 1) as nat);
        let a = place(i);
        let b = place((j - 1) as nat);
        assert(0x1_0000_0000 * (a * b) == a * (0x1_0000_0000 * b)) by (nonlinear_arith);
    }
}

pub proof fn lemma_value_push(digits: Seq<i128>, d: i128)
    ensures
        digits_value(digits.push(d)) == digits_value(digits) + d * place(digits.len()),
{
    assert(digits.push(d).drop_last() =~= digits);
}

pub proof fn lemma_value_take(digits: Seq<i128>, k: int)
    requires
        0 <= k < digits.len(),
    ensures
        digits_value(digits.take(k + 1)) == digits_value(digits.take(k)) + digits[k] * place(
            k as nat,
        ),
{
    assert(digits.take(k + 1) =~= digits.take(k).push(digits[k]));
    lemma_value_push(digits.take(k), digits[k]);
}

pub proof fn lemma_value_update(digits: Seq<i128>, k: int, d: i128)
    requires
        0 <= k < digits.len(),
    ensures
        digits_value(digits.update(k, d)) == digits_value(digits) + (d - digits[k]) * place(
            k as nat,
        ),
    decreases digits.len(),
{
    let n = digits.len();
    let p = place((n - 1) as nat);
    if k == n - 1 {
        assert(digits.update(k, d).drop_last() =~= digits.drop_last());
        assert((d - digits[k]) * p == d * p - digits[k] * p) by (nonlinear_arith);
    } else {
        assert(digits.update(k, d).drop_last() =~= digits.drop_last().update(k, d));
        lemma_value_update(digits.drop_last(), k, d);
    }
}

/// Digits from 0 below the base stand for a number from 0 below the weight
/// of the next digit.
pub proof fn lemma_value_range(digits: Seq<i128>)
    requires
        forall|k: int| 0 <= k < digits.len() ==> 0 <= #[trigger] digits[k] < BASE,
    ensures
        0 <= digits_value(digits) < place(digits.len()),
    decreases digits.len(),
{
    if digits.len() > 0 {
        lemma_value_range(digits.drop_last());
        let p = place((digits.len() - 1) as nat);
        let d = digits.last() as int;
        lemma_place_positive((digits.len() - 1) as nat);
        assert(0 <= d * p <= 0xffff_ffff * p) by (nonlinear_arith)
            requires
                0 <= d <= 0xffff_ffff,
                p >= 1,
        ;
    }
}

/// A whole number of any size.
pub struct Wide {
    pub digits: Vec<i128>,
}

impl Wide {
    /// The number.
    pub open spec fn value(&self) -> int {
        digits_value(self.digits@)
    }

    /// All digits but the last are digits of the base; the last is 0, or -1
    /// for a number below 0.
    pub open spec fn wf(&self) -> bool {
        &&& 1 <= self.digits@.len() <= DIGITS_MAX
        &&& forall|k: int| 0 <= k < self.digits@.len() - 1 ==> 0 <= #[trigger] self.digits@[k] < BASE
        &&& (self.digits@.last() == 0 || self.digits@.last() == -1)
    }

    pub open spec fn len(&self) -> int {
        self.digits@.len() as int
    }

    /// Whether the number is below 0.
    pub fn is_negative(&self) -> (negative: bool)
        requires
            self.wf(),
        ensures
            negative == (self.value() < 0),
    {
        proof {
            let lower = self.digits@.drop_last();
            assert forall|k: int| 0 <= k < lower.len() implies 0 <= #[trigger] lower[k] < BASE by {
                assert(lower[k] == self.digits@[k]);
            }
            lemma_value_range(lower);
            let p = place((self.digits@.len() - 1) as nat);
            assert(0 * p == 0 && (-1) * p == -p);
        }
        self.digits[self.digits.len() - 1] == -1
    }
}

proof fn lemma_carry(t: int, q: int, r: int, p: int)
    requires
        t == 0x1_0000_0000 * q + r,
    ensures
        r * p + q * (0x1_0000_0000 * p) == t * p,
{
    assert(q * (0x1_0000_0000 * p) == (0x1_0000_0000 * q) * p) by (nonlinear_arith);
    assert((0x1_0000_0000 * q + r) * p == (0x1_0000_0000 * q) * p + r * p) by (nonlinear_arith);
}

proof fn lemma_spread(a: int, b: int, p: int)
    ensures
        (a + b) * p == a * p + b * p,
        (a - b) * p == a * p - b * p,
{
    assert((a + b) * p == a * p + b * p) by (nonlinear_arith);
    assert((a - b) * p == a * p - b * p) by (nonlinear_arith);
}

/// Takes one digit from `total`: the digit is pushed, the rest is the carry.
fn push_digit(out: &mut Vec<i128>, total: i128) -> (carry: i128)
    requires
        -2 * RAW_MAX <= total <= 2 * RAW_MAX,
        old(out)@.len() < 2 * DIGITS_MAX,
    ensures
        final(out)@ == old(out)@.push((total - BASE * carry) as i128),
        0 <= total - BASE * carry < BASE,
        carry == total as int / 0x1_0000_0000,
        digits_value(final(out)@) + carry * place(final(out)@.len()) == digits_value(old(out)@)
            + total * place(old(out)@.len()),
{
    let q: i128 = div_floor(total, BASE);
    let r: i128 = total - BASE * q;
    proof {
        lemma_value_push(out@, r);
        lemma_carry(total as int, q as int, r as int, place(out@.len()));
    }
    out.push(r);
    q
}

/// The number that the digits `raw` stand for, which may be of any sign and
/// larger than the base.
#[verifier::loop_isolation(false)]
pub fn normalize(raw: &Vec<i128>) -> (n: Wide)
    requires
        raw@.len() + 5 <= DIGITS_MAX,
        forall|k: int| 0 <= k < raw@.len() ==> -RAW_MAX <= #[trigger] raw@[k] <= RAW_MAX,
    ensures
        n.wf(),
        n.value() == digits_value(raw@),
        n.len() == raw@.len() + 5,
{
    let mut out: Vec<i128> = Vec::new();
    let mut carry: i128 = 0;
    let mut k: usize = 0;
    while k < raw.len()
        invariant
            k <= raw@.len(),
            out@.len() == k,
            -0x4000_0000_0000_0000_0000_0000 <= carry <= 0x4000_0000_0000_0000_0000_0000,
            forall|j: int| 0 <= j < k ==> 0 <= #[trigger] out@[j] < BASE,
            digits_value(out@) + carry * place(k as nat) == digits_value(raw@.take(k as int)),
        decreases raw@.len() - k,
    {
        proof {
            lemma_value_take(raw@, k as int);
            lemma_spread(raw@[k as int] as int, carry as int, place(k as nat));
        }
        let total: i128 = raw[k] + carry;
        carry = push_digit(&mut out, total);
        k += 1;
    }
    assert(raw@.take(raw@.len() as int) =~= raw@);
    let c1: i128 = push_digit(&mut out, carry);
    let c2: i128 = push_digit(&mut out, c1);
    let c3: i128 = push_digit(&mut out, c2);
    let c4: i128 = push_digit(&mut out, c3);
    assert(-0x4000_0000_0000_0000 <= c1 <= 0x4000_0000_0000_0000);
    assert(-0x4000_0000 <= c2 <= 0x4000_0000);
    assert(-1 <= c3 <= 0);
    assert(-1 <= c4 <= 0);
    proof {
        lemma_value_push(out@, c4);
    }
    out.push(c4);
    Wide { digits: out }
}

/// The digit `k` of a number; 0 beyond its last digit.
fn digit_at(a: &Wide, k: usize) -> (d: i128)
    requires
        a.wf(),
    ensures
        -1 <= d < BASE,
        d == if k < a.len() {
            a.digits@[k as int]
        } else {
            0
        },
{
    if k < a.digits.len() {
        a.digits[k]
    } else {
        0
    }
}

/// The value of the first `k` digits of a number, or of all its digits where
/// it has fewer.
pub open spec fn head_value(a: Wide, k: int) -> int {
    if k < a.len() {
        digits_value(a.digits@.take(k))
    } else {
        a.value()
    }
}

proof fn lemma_head_step(a: Wide, k: int)
    requires
        a.wf(),
        0 <= k,
    ensures
        head_value(a, k + 1) == head_value(a, k) + (if k < a.len() {
            a.digits@[k] as int
        } else {
            0
        }) * place(k as nat),
{
    if k < a.len() {
        lemma_value_take(a.digits@, k);
        if k + 1 == a.len() {
            assert(a.digits@.take(k + 1) =~= a.digits@);
        }
    } else {
        assert(0 * place(k as nat) == 0);
    }
}

impl Wide {
    /// The number `v`.
    pub fn from_small(v: i128) -> (n: Wide)
        requires
            -RAW_MAX <= v <= RAW_MAX,
        ensures
            n.wf(),
            n.value() == v,
            n.len() == 6,
    {
        let mut raw: Vec<i128> = Vec::new();
        raw.push(v);
        proof {
            lemma_value_push(Seq::<i128>::empty(), v);
            assert(raw@ =~= Seq::<i128>::empty().push(v));
            assert(v * place(0) == v);
        }
        normalize(&raw)
    }

    /// The number `high * 2^64 + low`.
    pub fn from_pair(high: i128, low: i128) -> (n: Wide)
        requires
            -RAW_MAX <= high <= RAW_MAX,
            -RAW_MAX <= low <= RAW_MAX,
        ensures
            n.wf(),
            n.value() == high * 0x1_0000_0000_0000_0000 + low,
            n.len() == 8,
    {
        let mut raw: Vec<i128> = Vec::new();
        raw.push(low);
        raw.push(0);
        raw.push(high);
        proof {
            let s0 = Seq::<i128>::empty();
            lemma_value_push(s0, low);
            lemma_value_push(s0.push(low), 0);
            lemma_value_push(s0.push(low).push(0), high);
            assert(raw@ =~= s0.push(low).push(0).push(high));
            assert(place(0) == 1);
            assert(place(1) == 0x1_0000_0000);
            assert(place(2) == 0x1_0000_0000_0000_0000);
            assert(low * place(0) == low);
            assert(0 * place(1) == 0);
        }
        normalize(&raw)
    }

    /// The sum of two numbers, the second taken `sign` times, where `sign`
    /// is 1 or -1.
    #[verifier::loop_isolation(false)]
    fn combine(&self, other: &Wide, sign: i128) -> (n: Wide)
        requires
            self.wf(),
            other.wf(),
            sign == 1 || sign == -1,
            self.len() + 5 <= DIGITS_MAX,
            other.len() + 5 <= DIGITS_MAX,
        ensures
            n.wf(),
            n.value() == self.value() + sign * other.value(),
            n.len() == (if self.len() >= other.len() {
                self.len()
            } else {
                other.len()
            }) + 5,
    {
        let count: usize = if self.digits.len() >= other.digits.len() {
            self.digits.len()
        } else {
            other.digits.len()
        };
        let mut raw: Vec<i128> = Vec::new();
        let mut k: usize = 0;
        while k < count
            invariant
                k <= count,
                raw@.len() == k,
                forall|j: int| 0 <= j < k ==> -RAW_MAX <= #[trigger] raw@[j] <= RAW_MAX,
                digits_value(raw@) == head_value(*self, k as int) + sign * head_value(
                    *other,
                    k as int,
                ),
            decreases count - k,
        {
            let a: i128 = digit_at(self, k);
            let b: i128 = digit_at(other, k);
            let d: i128 = a + sign * b;
            proof {
                lemma_head_step(*self, k as int);
                lemma_head_step(*other, k as int);
                lemma_value_push(raw@, d);
                let p = place(k as nat);
                assert((a + sign * b) * p == a * p + sign * (b * p)) by (nonlinear_arith);
                let h = head_value(*other, k as int);
                assert(sign * (h + b * p) == sign * h + sign * (b * p)) by (nonlinear_arith);
            }
            raw.push(d);
            k += 1;
        }
        assert(head_value(*self, count as int) == self.value());
        assert(head_value(*other, count as int) == other.value());
        normalize(&raw)
    }

    /// The sum of two numbers.
    pub fn add(&self, other: &Wide) -> (n: Wide)
        requires
            self.wf(),
            other.wf(),
            self.len() + 5 <= DIGITS_MAX,
            other.len() + 5 <= DIGITS_MAX,
        ensures
            n.wf(),
            n.value() == self.value() + other.value(),
            n.len() == (if self.len() >= other.len() {
                self.len()
            } else {
                other.len()
            }) + 5,
    {
        let n = self.combine(other, 1);
        assert(1 * other.value() == other.value());
        n
    }

    /// The difference of two numbers.
    pub fn sub(&self, other: &Wide) -> (n: Wide)
        requires
            self.wf(),
            other.wf(),
            self.len() + 5 <= DIGITS_MAX,
            other.len() + 5 <= DIGITS_MAX,
        ensures
            n.wf(),
            n.value() == self.value() - other.value(),
            n.len() == (if self.len() >= other.len() {
                self.len()
            } else {
                other.len()
            }) + 5,
    {
        let n = self.combine(other, -1);
        assert((-1) * other.value() == -other.value());
        n
    }

    /// Whether the number is less than another.
    pub fn is_less(&self, other: &Wide) -> (less: bool)
        requires
            self.wf(),
            other.wf(),
            self.len() + 5 <= DIGITS_MAX,
            other.len() + 5 <= DIGITS_MAX,
        ensures
            less == (self.value() < other.value()),
    {
        self.sub(other).is_negative()
    }
}

proof fn lemma_partial_product(a: int, pa: int, b: int, pb: int, h: int)
    ensures
        (a * b) * (pa * pb) == (a * pa) * (b * pb),
        (a * pa) * (h + b * pb) == (a * pa) * h + (a * pa) * (b * pb),
{
    assert((a * b) * (pa * pb) == (a * pa) * (b * pb)) by (nonlinear_arith);
    let x = a * pa;
    let y = b * pb;
    assert(x * (h + y) == x * h + x * y) by (nonlinear_arith);
}

impl Wide {
    /// The product of two numbers.
    #[verifier::loop_isolation(false)]
    pub fn mul(&self, other: &Wide) -> (n: Wide)
        requires
            self.wf(),
            other.wf(),
            self.len() + other.len() + 5 <= DIGITS_MAX,
        ensures
            n.wf(),
            n.value() == self.value() * other.value(),
            n.len() == self.len() + other.len() + 5,
    {
        let alen: usize = self.digits.len();
        let blen: usize = other.digits.len();
        let mut raw: Vec<i128> = Vec::new();
        let mut k: usize = 0;
        while k < alen + blen
            invariant
                k <= alen + blen,
                raw@.len() == k,
                forall|j: int| 0 <= j < k ==> #[trigger] raw@[j] == 0,
                digits_value(raw@) == 0,
            decreases alen + blen - k,
        {
            proof {
                lemma_value_push(raw@, 0);
                assert(0 * place(raw@.len()) == 0);
            }
            raw.push(0);
            k += 1;
        }
        let ghost bv = other.value();
        let mut i: usize = 0;
        assert(head_value(*self, 0) == 0) by {
            assert(self.digits@.take(0) =~= Seq::<i128>::empty());
        }
        assert(0 * bv == 0);
        while i < alen
            invariant
                i <= alen,
                raw@.len() == alen + blen,
                forall|j: int|
                    0 <= j < raw@.len() ==> -(i * 0x1_0000_0000_0000_0000) <= #[trigger] raw@[j] <= i
                        * 0x1_0000_0000_0000_0000,
                digits_value(raw@) == head_value(*self, i as int) * bv,
            decreases alen - i,
        {
            let a: i128 = self.digits[i];
            let ghost pa = place(i as nat);
            let ghost before = digits_value(raw@);
            assert(head_value(*other, 0) == 0) by {
                assert(other.digits@.take(0) =~= Seq::<i128>::empty());
            }
            assert((a * pa) * 0 == 0);
            let mut j: usize = 0;
            while j < blen
                invariant
                    j <= blen,
                    i < alen,
                    raw@.len() == alen + blen,
                    forall|m: int|
                        0 <= m < raw@.len() ==> -((i + 1) * 0x1_0000_0000_0000_0000)
                            <= #[trigger] raw@[m] <= (i + 1) * 0x1_0000_0000_0000_0000,
                    forall|m: int|
                        i + j <= m < raw@.len() ==> -(i * 0x1_0000_0000_0000_0000)
                            <= #[trigger] raw@[m] <= i * 0x1_0000_0000_0000_0000,
                    digits_value(raw@) == before + (a * pa) * head_value(*other, j as int),
                decreases blen - j,
            {
                let b: i128 = other.digits[j];
                proof {
                    lemma_product_bound(a as int, 0x1_0000_0000, b as int, 0x1_0000_0000);
                    let pb = place(j as nat);
                    lemma_place_add(i as nat, j as nat);
                    lemma_head_step(*other, j as int);
                    lemma_partial_product(
                        a as int,
                        pa,
                        b as int,
                        pb,
                        head_value(*other, j as int),
                    );
                    lemma_value_update(raw@, i + j, (raw@[i + j] + a * b) as i128);
                }
                let d: i128 = raw[i + j] + a * b;
                raw.set(i + j, d);
                j += 1;
            }
            proof {
                lemma_head_step(*self, i as int);
                let h = head_value(*self, i as int);
                assert((h + a * pa) * bv == h * bv + (a * pa) * bv) by (nonlinear_arith);
            }
            i += 1;
        }
        normalize(&raw)
    }

    /// The whole part of the quotient of a number that is not below 0 by a
    /// number above 0, where it is less than `limit`.
    #[verifier::loop_isolation(false)]
    pub fn quotient(&self, divisor: &Wide, limit: i128) -> (q: Option<i128>)
        requires
            self.wf(),
            divisor.wf(),
            self.value() >= 0,
            divisor.value() > 0,
            1 <= limit <= RAW_MAX,
            self.len() + 5 <= DIGITS_MAX,
            divisor.len() + 16 <= DIGITS_MAX,
        ensures
            match q {
                Some(v) => 0 <= v < limit && v == self.value() / divisor.value(),
                None => self.value() / divisor.value() >= limit,
            },
    {
        let ghost n = self.value();
        let ghost d = divisor.value();
        proof {
            vstd::arithmetic::div_mod::lemma_fundamental_div_mod(n, d);
        }
        let top = divisor.mul(&Wide::from_small(limit));
        if !self.is_less(&top) {
            proof {
                let v = n / d;
                if v < limit {
                    assert(d * (v + 1) <= d * limit) by (nonlinear_arith)
                        requires
                            v + 1 <= limit,
                            d > 0,
                    ;
                    assert(d * (v + 1) == d * v + d) by (nonlinear_arith);
                }
            }
            return None;
        }
        let mut low: i128 = 0;
        let mut high: i128 = limit;
        assert(d * 0 == 0);
        while high - low > 1
            invariant
                0 <= low < high <= limit,
                d * low <= n < d * high,
            decreases high - low,
        {
            let mid: i128 = low + (high - low) / 2;
            let t = divisor.mul(&Wide::from_small(mid));
            if self.is_less(&t) {
                high = mid;
            } else {
                low = mid;
            }
        }
        proof {
            assert(d * (low + 1) == d * low + d) by (nonlinear_arith);
            assert(d * low == low * d) by (nonlinear_arith);
            vstd::arithmetic::div_mod::lemma_fundamental_div_mod_converse(
                n,
                d,
                low as int,
                n - d * low,
            );
        }
        Some(low)
    }

    /// The quotient of a number by a number above 0, rounded to the nearest
    /// whole number, a tie going away from zero, where it is less than
    /// `limit` in magnitude.
    pub fn round_quotient(&self, divisor: &Wide, limit: i128) -> (q: Option<i128>)
        requires
            self.wf(),
            divisor.wf(),
            divisor.value() > 0,
            1 <= limit <= RAW_MAX,
            self.len() + 40 <= DIGITS_MAX,
            divisor.len() + 40 <= DIGITS_MAX,
        ensures
            match q {
                Some(v) => -limit < v < limit && v == crate::fixed::round_div(
                    self.value(),
                    divisor.value(),
                ),
                None => crate::fixed::magnitude(
                    crate::fixed::round_div(self.value(), divisor.value()),
                ) >= limit,
            },
    {
        let zero = Wide::from_small(0);
        let negative: bool = self.is_negative();
        let size = if negative {
            zero.sub(self)
        } else {
            self.sub(&zero)
        };
        let twice = size.add(&size);
        let numerator = twice.add(divisor);
        let denominator = divisor.add(divisor);
        match numerator.quotient(&denominator, limit) {
            None => None,
            Some(v) => Some(
                if negative {
                    -v
                } else {
                    v
                },
            ),
        }
    }

    /// Whether the number is 0.
    pub fn is_zero(&self) -> (zero: bool)
        requires
            self.wf(),
            self.len() + 11 <= DIGITS_MAX,
        ensures
            zero == (self.value() == 0),
    {
        let nothing = Wide::from_small(0);
        !self.is_negative() && !nothing.sub(self).is_negative()
    }
}

} // verus!
