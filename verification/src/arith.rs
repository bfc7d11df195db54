//! Fixed-point arithmetic: the scale, the value bounds, truncating
//! division, and sums of sequences, with the lemmas the model needs.

use vstd::prelude::*;

verus! {

use vstd::arithmetic::div_mod::lemma_div_is_ordered;
use vstd::arithmetic::div_mod::lemma_div_multiples_vanish;
use vstd::arithmetic::div_mod::lemma_div_nonincreasing;
use vstd::arithmetic::div_mod::lemma_div_pos_is_pos;

/// Fixed-point scale: an `i64` value `v` stands for the real number
/// `v / SCALE`.
pub const SCALE: i64 = 1_000_000;

/// Largest magnitude (in fixed-point form) admitted for data points and
/// model parameters.
pub const VALUE_BOUND: i64 = 1_000_000_000_000;

/// Largest dataset length the model accepts.
pub const MAX_LEN: usize = 100_000_000;

/// Reciprocal of the learning rate: the learning rate is `1 / LR_RECIP`,
/// that is 0.01.
pub const LR_RECIP: i64 = 100;

/// Largest value the recorded loss can take:
/// `4 * VALUE_BOUND * VALUE_BOUND / SCALE`.
pub const LOSS_BOUND: i64 = 4_000_000_000_000_000_000;

/// Division that truncates toward zero (the behaviour of `/` on machine
/// integers), for positive divisors.
pub open spec fn sd(a: int, b: int) -> int {
    if a >= 0 {
        a / b
    } else {
        -((-a) / b)
    }
}

/// Truncating division on `i128`, the executable counterpart of [`sd`].
pub fn div_trunc(a: i128, b: i128) -> (q: i128)
    requires
        0 < b,
        i128::MIN < a,
    ensures
        q == sd(a as int, b as int),
{
    if a >= 0 {
        proof {
            lemma_div_nonincreasing(a as int, b as int);
            lemma_div_pos_is_pos(a as int, b as int);
        }
        ((a as u128) / (b as u128)) as i128
    } else {
        let m: i128 = -a;
        proof {
            lemma_div_nonincreasing(m as int, b as int);
            lemma_div_pos_is_pos(m as int, b as int);
        }
        -(((m as u128) / (b as u128)) as i128)
    }
}

/// Truncating division of a value that is at least zero is at least zero.
pub proof fn lemma_sd_nonneg(a: int, b: int)
    requires
        0 <= a,
        0 < b,
    ensures
        0 <= sd(a, b),
{
    lemma_div_pos_is_pos(a, b);
}

/// If `|a| <= b * c`, then `|sd(a, b)| <= c`.
pub proof fn lemma_sd_range(a: int, b: int, c: int)
    requires
        0 < b,
        0 <= c,
        -(b * c) <= a <= b * c,
    ensures
        -c <= sd(a, b) <= c,
{
    lemma_div_multiples_vanish(c, b);
    if a >= 0 {
        lemma_div_pos_is_pos(a, b);
        lemma_div_is_ordered(a, b * c, b);
    } else {
        lemma_div_pos_is_pos(-a, b);
        lemma_div_is_ordered(-a, b * c, b);
    }
}

/// The sum of a sequence of integers.
pub open spec fn sum(s: Seq<int>) -> int
    decreases s.len(),
{
    if s.len() == 0 {
        0
    } else {
        sum(s.drop_last()) + s.last()
    }
}

/// Extending a prefix sum by one element.
pub proof fn lemma_sum_step(s: Seq<int>, i: int)
    requires
        0 <= i < s.len(),
    ensures
        sum(s.subrange(0, i + 1)) == sum(s.subrange(0, i)) + s[i],
{
    let t = s.subrange(0, i + 1);
    assert(t.drop_last() =~= s.subrange(0, i));
    assert(t.last() == s[i]);
}

/// A sequence of values no larger than `t` in magnitude sums to no more
/// than `len * t` in magnitude.
pub proof fn lemma_sum_bound(s: Seq<int>, t: int)
    requires
        0 <= t,
        forall|i: int| 0 <= i < s.len() ==> -t <= #[trigger] s[i] <= t,
    ensures
        -(s.len() * t) <= sum(s) <= s.len() * t,
    decreases s.len(),
{
    if s.len() > 0 {
        let d = s.drop_last();
        assert(forall|i: int| 0 <= i < d.len() ==> -t <= #[trigger] d[i] <= t);
        lemma_sum_bound(d, t);
        assert((s.len() - 1) * t + t == s.len() * t) by (nonlinear_arith);
    }
}

/// A sequence of values at least zero sums to at least zero.
pub proof fn lemma_sum_nonneg(s: Seq<int>)
    requires
        forall|i: int| 0 <= i < s.len() ==> 0 <= #[trigger] s[i],
    ensures
        0 <= sum(s),
    decreases s.len(),
{
    if s.len() > 0 {
        let d = s.drop_last();
        assert(forall|i: int| 0 <= i < d.len() ==> 0 <= #[trigger] d[i]);
        lemma_sum_nonneg(d);
    }
}

} // verus!
