//! Sums and related folds over sequences, as used by the analysis contracts.

use vstd::prelude::*;

verus! {

/// Sum of a sequence of magnitudes.
pub open spec fn sum64(s: Seq<u64>) -> int
    decreases s.len(),
{
    if s.len() == 0 {
        0
    } else {
        sum64(s.drop_last()) + s.last()
    }
}

/// Sum of a sequence of normalized values.
pub open spec fn sum32(s: Seq<u32>) -> int
    decreases s.len(),
{
    if s.len() == 0 {
        0
    } else {
        sum32(s.drop_last()) + s.last()
    }
}

/// Index-weighted sum: each element weighted by its position.
pub open spec fn weighted_sum64(s: Seq<u64>) -> int
    decreases s.len(),
{
    if s.len() == 0 {
        0
    } else {
        weighted_sum64(s.drop_last()) + (s.len() - 1) * s.last()
    }
}

/// Sum of squares of a sequence of magnitudes.
pub open spec fn sq_sum64(s: Seq<u64>) -> int
    decreases s.len(),
{
    if s.len() == 0 {
        0
    } else {
        sq_sum64(s.drop_last()) + s.last() * s.last()
    }
}

/// Sum of squared deviations from `m`.
pub open spec fn sq_dev_sum64(s: Seq<u64>, m: int) -> int
    decreases s.len(),
{
    if s.len() == 0 {
        0
    } else {
        sq_dev_sum64(s.drop_last(), m) + (s.last() - m) * (s.last() - m)
    }
}

/// Sum of squared deviations of a sequence of normalized values from `m`.
pub open spec fn sq_dev_sum32(s: Seq<u32>, m: int) -> int
    decreases s.len(),
{
    if s.len() == 0 {
        0
    } else {
        sq_dev_sum32(s.drop_last(), m) + (s.last() - m) * (s.last() - m)
    }
}

/// Sum of absolute differences of two equally long sequences.
pub open spec fn abs_diff_sum64(a: Seq<u64>, b: Seq<u64>) -> int
    recommends
        a.len() == b.len(),
    decreases a.len(),
{
    if a.len() == 0 {
        0
    } else {
        abs_diff_sum64(a.drop_last(), b.drop_last()) + abs_int(a.last() - b.last())
    }
}

/// Sum of squares of a sequence of signed samples.
pub open spec fn sq_sum_i64(s: Seq<i64>) -> int
    decreases s.len(),
{
    if s.len() == 0 {
        0
    } else {
        sq_sum_i64(s.drop_last()) + s.last() * s.last()
    }
}

/// Extending a prefix sum of squares of samples by one element.
pub proof fn lemma_sq_sum_i64_step(s: Seq<i64>, i: int)
    requires
        0 <= i < s.len(),
    ensures
        sq_sum_i64(s.subrange(0, i + 1)) == sq_sum_i64(s.subrange(0, i)) + s[i] * s[i],
{
    assert(s.subrange(0, i + 1).drop_last() =~= s.subrange(0, i));
}

/// A sum of squares of samples within `[-b, b]` is bounded by `len * b * b`,
/// and non-negative.
pub proof fn lemma_sq_sum_i64_bounded(s: Seq<i64>, b: int)
    requires
        0 <= b,
        forall|i: int| 0 <= i < s.len() ==> -b <= #[trigger] s[i] <= b,
    ensures
        0 <= sq_sum_i64(s) <= s.len() * (b * b),
    decreases s.len(),
{
    if s.len() > 0 {
        lemma_sq_sum_i64_bounded(s.drop_last(), b);
        assert(0 <= s.last() * s.last() <= b * b) by (nonlinear_arith)
            requires
                -b <= s.last() <= b,
        ;
        assert((s.len() - 1) * (b * b) + b * b == s.len() * (b * b)) by (nonlinear_arith);
    }
}

/// Number of sign changes between neighbouring samples (a sample counts as
/// non-negative or negative).
pub open spec fn zero_crossings(s: Seq<i64>) -> int
    decreases s.len(),
{
    if s.len() < 2 {
        0
    } else {
        zero_crossings(s.drop_last()) + (if (s[s.len() - 1] >= 0) != (s[s.len() - 2] >= 0) {
            1int
        } else {
            0int
        })
    }
}

/// Extending a prefix crossing count by one element.
pub proof fn lemma_zero_crossings_step(s: Seq<i64>, i: int)
    requires
        1 <= i < s.len(),
    ensures
        zero_crossings(s.subrange(0, i + 1)) == zero_crossings(s.subrange(0, i)) + (if (s[i] >= 0)
            != (s[i - 1] >= 0) {
            1int
        } else {
            0int
        }),
{
    assert(s.subrange(0, i + 1).drop_last() =~= s.subrange(0, i));
}

/// There are fewer sign changes than samples.
pub proof fn lemma_zero_crossings_bounded(s: Seq<i64>)
    ensures
        0 <= zero_crossings(s) <= s.len(),
    decreases s.len(),
{
    if s.len() >= 2 {
        lemma_zero_crossings_bounded(s.drop_last());
    }
}

/// Largest element of a non-empty sequence.
pub open spec fn max_of(s: Seq<u64>) -> int
    recommends
        s.len() > 0,
    decreases s.len(),
{
    if s.len() <= 1 {
        if s.len() == 1 {
            s[0] as int
        } else {
            0
        }
    } else if s.last() >= max_of(s.drop_last()) {
        s.last() as int
    } else {
        max_of(s.drop_last())
    }
}

/// Smallest element of a non-empty sequence.
pub open spec fn min_of(s: Seq<u64>) -> int
    recommends
        s.len() > 0,
    decreases s.len(),
{
    if s.len() <= 1 {
        if s.len() == 1 {
            s[0] as int
        } else {
            0
        }
    } else if s.last() <= min_of(s.drop_last()) {
        s.last() as int
    } else {
        min_of(s.drop_last())
    }
}

/// Extending a prefix maximum by one element.
pub proof fn lemma_max_of_step(s: Seq<u64>, i: int)
    requires
        1 <= i < s.len(),
    ensures
        max_of(s.subrange(0, i + 1)) == (if s[i] >= max_of(s.subrange(0, i)) {
            s[i] as int
        } else {
            max_of(s.subrange(0, i))
        }),
{
    assert(s.subrange(0, i + 1).drop_last() =~= s.subrange(0, i));
}

/// Extending a prefix minimum by one element.
pub proof fn lemma_min_of_step(s: Seq<u64>, i: int)
    requires
        1 <= i < s.len(),
    ensures
        min_of(s.subrange(0, i + 1)) == (if s[i] <= min_of(s.subrange(0, i)) {
            s[i] as int
        } else {
            min_of(s.subrange(0, i))
        }),
{
    assert(s.subrange(0, i + 1).drop_last() =~= s.subrange(0, i));
}

/// The extremes of a non-empty bounded sequence stay within its bounds.
pub proof fn lemma_max_min_of_bounded(s: Seq<u64>, b: int)
    requires
        s.len() > 0,
        forall|i: int| 0 <= i < s.len() ==> s[i] <= b,
    ensures
        0 <= max_of(s) <= b,
        0 <= min_of(s) <= b,
        min_of(s) <= max_of(s),
    decreases s.len(),
{
    if s.len() > 1 {
        lemma_max_min_of_bounded(s.drop_last(), b);
    }
}

/// Largest element of a non-empty sequence of normalized values.
pub open spec fn max32_of(s: Seq<u32>) -> int
    recommends
        s.len() > 0,
    decreases s.len(),
{
    if s.len() <= 1 {
        if s.len() == 1 {
            s[0] as int
        } else {
            0
        }
    } else if s.last() >= max32_of(s.drop_last()) {
        s.last() as int
    } else {
        max32_of(s.drop_last())
    }
}

/// Smallest element of a non-empty sequence of normalized values.
pub open spec fn min32_of(s: Seq<u32>) -> int
    recommends
        s.len() > 0,
    decreases s.len(),
{
    if s.len() <= 1 {
        if s.len() == 1 {
            s[0] as int
        } else {
            0
        }
    } else if s.last() <= min32_of(s.drop_last()) {
        s.last() as int
    } else {
        min32_of(s.drop_last())
    }
}

/// Extending a prefix maximum of normalized values by one element.
pub proof fn lemma_max32_of_step(s: Seq<u32>, i: int)
    requires
        1 <= i < s.len(),
    ensures
        max32_of(s.subrange(0, i + 1)) == (if s[i] >= max32_of(s.subrange(0, i)) {
            s[i] as int
        } else {
            max32_of(s.subrange(0, i))
        }),
{
    assert(s.subrange(0, i + 1).drop_last() =~= s.subrange(0, i));
}

/// Extending a prefix minimum of normalized values by one element.
pub proof fn lemma_min32_of_step(s: Seq<u32>, i: int)
    requires
        1 <= i < s.len(),
    ensures
        min32_of(s.subrange(0, i + 1)) == (if s[i] <= min32_of(s.subrange(0, i)) {
            s[i] as int
        } else {
            min32_of(s.subrange(0, i))
        }),
{
    assert(s.subrange(0, i + 1).drop_last() =~= s.subrange(0, i));
}

/// The extremes of a non-empty bounded sequence of normalized values stay
/// within its bounds.
pub proof fn lemma_max32_min32_of_bounded(s: Seq<u32>, b: int)
    requires
        s.len() > 0,
        forall|i: int| 0 <= i < s.len() ==> s[i] <= b,
    ensures
        0 <= max32_of(s) <= b,
        0 <= min32_of(s) <= b,
        min32_of(s) <= max32_of(s),
    decreases s.len(),
{
    if s.len() > 1 {
        lemma_max32_min32_of_bounded(s.drop_last(), b);
    }
}

/// Extending a prefix sum over a window starting at `a`.
pub proof fn lemma_sum64_step_from(s: Seq<u64>, a: int, j: int)
    requires
        0 <= a <= j < s.len(),
    ensures
        sum64(s.subrange(a, j + 1)) == sum64(s.subrange(a, j)) + s[j],
{
    assert(s.subrange(a, j + 1).drop_last() =~= s.subrange(a, j));
}

/// Mean of a sequence of magnitudes (floor division; meaningful for
/// non-empty sequences).
pub open spec fn mean_of(s: Seq<u64>) -> int
    recommends
        s.len() > 0,
{
    sum64(s) / s.len() as int
}

/// Absolute value.
pub open spec fn abs_int(x: int) -> int {
    if x >= 0 {
        x
    } else {
        -x
    }
}

/// Extending a prefix sum by one element.
pub proof fn lemma_sum64_step(s: Seq<u64>, i: int)
    requires
        0 <= i < s.len(),
    ensures
        sum64(s.subrange(0, i + 1)) == sum64(s.subrange(0, i)) + s[i],
{
    assert(s.subrange(0, i + 1).drop_last() =~= s.subrange(0, i));
}

/// Extending a prefix sum of normalized values by one element.
pub proof fn lemma_sum32_step(s: Seq<u32>, i: int)
    requires
        0 <= i < s.len(),
    ensures
        sum32(s.subrange(0, i + 1)) == sum32(s.subrange(0, i)) + s[i],
{
    assert(s.subrange(0, i + 1).drop_last() =~= s.subrange(0, i));
}

/// Extending a prefix weighted sum by one element.
pub proof fn lemma_weighted_sum64_step(s: Seq<u64>, i: int)
    requires
        0 <= i < s.len(),
    ensures
        weighted_sum64(s.subrange(0, i + 1)) == weighted_sum64(s.subrange(0, i)) + i * s[i],
{
    assert(s.subrange(0, i + 1).drop_last() =~= s.subrange(0, i));
}

/// Extending a prefix sum of squares by one element.
pub proof fn lemma_sq_sum64_step(s: Seq<u64>, i: int)
    requires
        0 <= i < s.len(),
    ensures
        sq_sum64(s.subrange(0, i + 1)) == sq_sum64(s.subrange(0, i)) + s[i] * s[i],
{
    assert(s.subrange(0, i + 1).drop_last() =~= s.subrange(0, i));
}

/// Extending a prefix sum of squared deviations by one element.
pub proof fn lemma_sq_dev_sum64_step(s: Seq<u64>, m: int, i: int)
    requires
        0 <= i < s.len(),
    ensures
        sq_dev_sum64(s.subrange(0, i + 1), m) == sq_dev_sum64(s.subrange(0, i), m) + (s[i] - m) * (
        s[i] - m),
{
    assert(s.subrange(0, i + 1).drop_last() =~= s.subrange(0, i));
}

/// Extending a prefix sum of squared deviations of normalized values.
pub proof fn lemma_sq_dev_sum32_step(s: Seq<u32>, m: int, i: int)
    requires
        0 <= i < s.len(),
    ensures
        sq_dev_sum32(s.subrange(0, i + 1), m) == sq_dev_sum32(s.subrange(0, i), m) + (s[i] - m) * (
        s[i] - m),
{
    assert(s.subrange(0, i + 1).drop_last() =~= s.subrange(0, i));
}

/// Extending a prefix sum of absolute differences by one element.
pub proof fn lemma_abs_diff_sum64_step(a: Seq<u64>, b: Seq<u64>, i: int)
    requires
        0 <= i < a.len(),
        0 <= i < b.len(),
    ensures
        abs_diff_sum64(a.subrange(0, i + 1), b.subrange(0, i + 1)) == abs_diff_sum64(
            a.subrange(0, i),
            b.subrange(0, i),
        ) + abs_int(a[i] - b[i]),
{
    assert(a.subrange(0, i + 1).drop_last() =~= a.subrange(0, i));
    assert(b.subrange(0, i + 1).drop_last() =~= b.subrange(0, i));
}

/// A sum of values bounded by `b` is bounded by `len * b`, and non-negative.
pub proof fn lemma_sum64_bounded(s: Seq<u64>, b: int)
    requires
        forall|i: int| 0 <= i < s.len() ==> s[i] <= b,
    ensures
        0 <= sum64(s) <= s.len() * b,
    decreases s.len(),
{
    if s.len() > 0 {
        lemma_sum64_bounded(s.drop_last(), b);
        assert((s.len() - 1) * b + b == s.len() * b) by (nonlinear_arith);
    }
}

/// A sum of normalized values bounded by `b` is bounded by `len * b`, and
/// non-negative.
pub proof fn lemma_sum32_bounded(s: Seq<u32>, b: int)
    requires
        forall|i: int| 0 <= i < s.len() ==> s[i] <= b,
    ensures
        0 <= sum32(s) <= s.len() * b,
    decreases s.len(),
{
    if s.len() > 0 {
        lemma_sum32_bounded(s.drop_last(), b);
        assert((s.len() - 1) * b + b == s.len() * b) by (nonlinear_arith);
    }
}

/// A sum of squared deviations with both the values and the center inside
/// `[0, b]` is bounded by `len * b * b`, and non-negative.
pub proof fn lemma_sq_dev_sum64_bounded(s: Seq<u64>, m: int, b: int)
    requires
        0 <= m <= b,
        forall|i: int| 0 <= i < s.len() ==> s[i] <= b,
    ensures
        0 <= sq_dev_sum64(s, m) <= s.len() * (b * b),
    decreases s.len(),
{
    if s.len() > 0 {
        lemma_sq_dev_sum64_bounded(s.drop_last(), m, b);
        assert(0 <= (s.last() - m) * (s.last() - m) <= b * b) by (nonlinear_arith)
            requires
                0 <= m <= b,
                0 <= s.last() <= b,
        ;
        assert((s.len() - 1) * (b * b) + b * b == s.len() * (b * b)) by (nonlinear_arith);
    }
}

/// A sum of squared deviations of normalized values with both the values and
/// the center inside `[0, b]` is bounded by `len * b * b`, and non-negative.
pub proof fn lemma_sq_dev_sum32_bounded(s: Seq<u32>, m: int, b: int)
    requires
        0 <= m <= b,
        forall|i: int| 0 <= i < s.len() ==> s[i] <= b,
    ensures
        0 <= sq_dev_sum32(s, m) <= s.len() * (b * b),
    decreases s.len(),
{
    if s.len() > 0 {
        lemma_sq_dev_sum32_bounded(s.drop_last(), m, b);
        assert(0 <= (s.last() - m) * (s.last() - m) <= b * b) by (nonlinear_arith)
            requires
                0 <= m <= b,
                0 <= s.last() <= b,
        ;
        assert((s.len() - 1) * (b * b) + b * b == s.len() * (b * b)) by (nonlinear_arith);
    }
}

/// A sum of squares of values bounded by `b` is bounded by `len * b * b`, and
/// non-negative.
pub proof fn lemma_sq_sum64_bounded(s: Seq<u64>, b: int)
    requires
        forall|i: int| 0 <= i < s.len() ==> s[i] <= b,
    ensures
        0 <= sq_sum64(s) <= s.len() * (b * b),
    decreases s.len(),
{
    if s.len() > 0 {
        lemma_sq_sum64_bounded(s.drop_last(), b);
        assert(s.last() * s.last() <= b * b) by (nonlinear_arith)
            requires
                0 <= s.last() <= b,
        ;
        assert((s.len() - 1) * (b * b) + b * b == s.len() * (b * b)) by (nonlinear_arith);
    }
}

/// The index-weighted sum of a sequence is at most its length times its plain
/// sum, and non-negative.
pub proof fn lemma_weighted_sum64_bounded(s: Seq<u64>)
    ensures
        0 <= weighted_sum64(s) <= s.len() * sum64(s),
    decreases s.len(),
{
    if s.len() > 0 {
        lemma_weighted_sum64_bounded(s.drop_last());
        lemma_sum64_nonneg(s.drop_last());
        assert(s.drop_last().len() * sum64(s.drop_last()) + (s.len() - 1) * s.last() <= s.len()
            * sum64(s)) by (nonlinear_arith)
            requires
                s.len() > 0,
                sum64(s) == sum64(s.drop_last()) + s.last(),
                s.drop_last().len() == s.len() - 1,
                sum64(s.drop_last()) >= 0,
                s.last() >= 0,
        ;
    }
}

/// A prefix sum never exceeds the whole sum.
pub proof fn lemma_sum64_prefix_le(s: Seq<u64>, i: int)
    requires
        0 <= i <= s.len(),
    ensures
        sum64(s.subrange(0, i)) <= sum64(s),
    decreases s.len() - i,
{
    if i == s.len() {
        assert(s.subrange(0, i) =~= s);
    } else {
        lemma_sum64_prefix_le(s, i + 1);
        lemma_sum64_step(s, i);
    }
}

/// Sum a vector of magnitudes.
pub fn vec_sum64(v: &Vec<u64>) -> (r: u128)
    requires
        sum64(v@) <= u128::MAX,
    ensures
        r as int == sum64(v@),
{
    let mut acc: u128 = 0;
    let mut i: usize = 0;
    while i < v.len()
        invariant
            i <= v@.len(),
            sum64(v@) <= u128::MAX,
            acc as int == sum64(v@.subrange(0, i as int)),
        decreases v@.len() - i,
    {
        proof {
            lemma_sum64_step(v@, i as int);
            lemma_sum64_prefix_le(v@, i + 1);
            lemma_sum64_nonneg(v@.subrange(0, i as int));
        }
        acc = acc + (v[i] as u128);
        i = i + 1;
    }
    proof {
        assert(v@.subrange(0, v@.len() as int) =~= v@);
    }
    acc
}

/// A sum of magnitudes is non-negative.
pub proof fn lemma_sum64_nonneg(s: Seq<u64>)
    ensures
        sum64(s) >= 0,
    decreases s.len(),
{
    if s.len() > 0 {
        lemma_sum64_nonneg(s.drop_last());
    }
}

/// A sum of absolute differences of values bounded by `b` is bounded by
/// `len * b`, and non-negative.
pub proof fn lemma_abs_diff_sum64_bounded(a: Seq<u64>, b: Seq<u64>, bound: int)
    requires
        a.len() == b.len(),
        forall|i: int| 0 <= i < a.len() ==> a[i] <= bound,
        forall|i: int| 0 <= i < b.len() ==> b[i] <= bound,
    ensures
        0 <= abs_diff_sum64(a, b) <= a.len() * bound,
    decreases a.len(),
{
    if a.len() > 0 {
        lemma_abs_diff_sum64_bounded(a.drop_last(), b.drop_last(), bound);
        assert(abs_diff_sum64(a, b) == abs_diff_sum64(a.drop_last(), b.drop_last()) + abs_int(
            a.last() - b.last(),
        ));
        assert(a.drop_last().len() == a.len() - 1);
        assert(0 <= abs_int(a.last() - b.last()) <= bound);
        assert((a.len() - 1) * bound + bound == a.len() * bound) by (nonlinear_arith);
        assert(abs_diff_sum64(a, b) <= a.len() * bound);
    } else {
        assert(abs_diff_sum64(a, b) == 0);
        assert(a.len() * bound == 0) by (nonlinear_arith)
            requires
                a.len() == 0,
        ;
    }
}

} // verus!
