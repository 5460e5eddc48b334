//! Closing of counterform mouths: the sample sequence of a side is limited to
//! change by at most one scan step between neighbouring scanlines.
use vstd::prelude::*;

verus! {

/// Largest magnitude of a sample value or of a step.
pub const SAMPLE_LIMIT: i64 = 1099511627776;

/// Neighbouring entries of `s` differ by at most `step`.
pub open spec fn steps_within(s: Seq<i64>, step: int) -> bool {
    forall|i: int|
        0 <= i < s.len() - 1 ==> #[trigger] s[i + 1] - s[i] <= step && s[i] - s[i + 1] <= step
}

/// `z` is nowhere above `s`.
pub open spec fn below(z: Seq<i64>, s: Seq<i64>) -> bool {
    z.len() == s.len() && forall|i: int| 0 <= i < s.len() ==> #[trigger] z[i] <= s[i]
}

/// `z` lies below `xs` and changes by at most `step` between neighbours.
pub open spec fn admissible_below(z: Seq<i64>, xs: Seq<i64>, step: int) -> bool {
    below(z, xs) && steps_within(z, step)
}

/// `z` is nowhere below `s`.
pub open spec fn above(z: Seq<i64>, s: Seq<i64>) -> bool {
    z.len() == s.len() && forall|i: int| 0 <= i < s.len() ==> #[trigger] z[i] >= s[i]
}

/// `z` lies above `xs` and changes by at most `step` between neighbours.
pub open spec fn admissible_above(z: Seq<i64>, xs: Seq<i64>, step: int) -> bool {
    above(z, xs) && steps_within(z, step)
}

pub open spec fn in_range(s: Seq<i64>) -> bool {
    forall|i: int| 0 <= i < s.len() ==> -SAMPLE_LIMIT <= #[trigger] s[i] <= SAMPLE_LIMIT
}

/// Smooths the left side: the largest sequence that is nowhere above `xs`
/// and changes by at most `step` between neighbours. A forward sweep, then
/// a backward sweep, each pulling a sample in to its neighbour plus `step`.
pub fn smooth_left(xs: &Vec<i64>, step: i64) -> (r: Vec<i64>)
    requires
        0 <= step <= SAMPLE_LIMIT,
        in_range(xs@),
    ensures
        admissible_below(r@, xs@, step as int),
        forall|z: Seq<i64>| admissible_below(z, xs@, step as int) ==> below(z, r@),
        in_range(r@),
{
    let n = xs.len();
    let mut cur = xs.clone();
    proof {
        assert(cur@ =~= xs@);
    }
    if n == 0 {
        return cur;
    }
    let mut i: usize = 0;
    while i + 1 < n
        invariant
            n == xs@.len(),
            n >= 1,
            cur@.len() == n,
            i + 1 <= n,
            0 <= step <= SAMPLE_LIMIT,
            in_range(xs@),
            in_range(cur@),
            below(cur@, xs@),
            forall|j: int| 0 <= j < i ==> #[trigger] cur@[j + 1] - cur@[j] <= step,
            forall|z: Seq<i64>| admissible_below(z, xs@, step as int) ==> below(z, cur@),
        decreases n - i,
    {
        let a = cur[i];
        let b = cur[i + 1];
        if b - a > step {
            let ghost prev = cur@;
            cur.set(i + 1, a + step);
            proof {
                assert forall|z: Seq<i64>| admissible_below(z, xs@, step as int) implies below(
                    z,
                    cur@,
                ) by {
                    assert(below(z, prev));
                    assert(z[i as int + 1] - z[i as int] <= step);
                    assert(z[i as int] <= prev[i as int]);
                }
                assert forall|j: int| 0 <= j < i + 1 implies #[trigger] cur@[j + 1] - cur@[j]
                    <= step by {
                    if j < i {
                        assert(cur@[j + 1] == prev[j + 1]);
                        assert(cur@[j] == prev[j]);
                    }
                }
            }
        }
        i = i + 1;
    }
    let mut k: usize = n - 1;
    while k > 0
        invariant
            n == xs@.len(),
            n >= 1,
            cur@.len() == n,
            k < n,
            0 <= step <= SAMPLE_LIMIT,
            in_range(xs@),
            in_range(cur@),
            below(cur@, xs@),
            forall|j: int| 0 <= j < n - 1 ==> #[trigger] cur@[j + 1] - cur@[j] <= step,
            forall|j: int| k <= j < n - 1 ==> #[trigger] cur@[j] - cur@[j + 1] <= step,
            forall|z: Seq<i64>| admissible_below(z, xs@, step as int) ==> below(z, cur@),
        decreases k,
    {
        let a = cur[k - 1];
        let b = cur[k];
        if a - b > step {
            let ghost prev = cur@;
            cur.set(k - 1, b + step);
            proof {
                assert forall|z: Seq<i64>| admissible_below(z, xs@, step as int) implies below(
                    z,
                    cur@,
                ) by {
                    assert(below(z, prev));
                    assert(z[(k - 1) + 1] - z[k - 1] <= step);
                    assert(z[k as int] <= prev[k as int]);
                }
                assert forall|j: int| 0 <= j < n - 1 implies #[trigger] cur@[j + 1] - cur@[j]
                    <= step by {
                    if j != k - 1 && j + 1 != k - 1 {
                        assert(cur@[j + 1] == prev[j + 1]);
                        assert(cur@[j] == prev[j]);
                    }
                    if j + 1 == k - 1 {
                        assert(prev[j + 1] - prev[j] <= step);
                    }
                }
                assert forall|j: int| k - 1 <= j < n - 1 implies #[trigger] cur@[j] - cur@[j + 1]
                    <= step by {
                    if j > k - 1 {
                        assert(cur@[j + 1] == prev[j + 1]);
                        assert(cur@[j] == prev[j]);
                    }
                }
            }
        }
        k = k - 1;
    }
    cur
}

fn negate_all(xs: &Vec<i64>) -> (r: Vec<i64>)
    requires
        in_range(xs@),
    ensures
        r@.len() == xs@.len(),
        forall|i: int| 0 <= i < xs@.len() ==> #[trigger] r@[i] == -xs@[i],
        in_range(r@),
{
    let mut r: Vec<i64> = Vec::new();
    let mut i: usize = 0;
    while i < xs.len()
        invariant
            i <= xs@.len(),
            in_range(xs@),
            r@.len() == i,
            forall|j: int| 0 <= j < i ==> #[trigger] r@[j] == -xs@[j],
        decreases xs@.len() - i,
    {
        r.push(-xs[i]);
        i = i + 1;
    }
    r
}

/// Smooths the right side: the smallest sequence that is nowhere below `xs`
/// and changes by at most `step` between neighbours.
pub fn smooth_right(xs: &Vec<i64>, step: i64) -> (r: Vec<i64>)
    requires
        0 <= step <= SAMPLE_LIMIT,
        in_range(xs@),
    ensures
        admissible_above(r@, xs@, step as int),
        forall|z: Seq<i64>| admissible_above(z, xs@, step as int) ==> above(z, r@),
        in_range(r@),
{
    let neg = negate_all(xs);
    let sm = smooth_left(&neg, step);
    let r = negate_all(&sm);
    proof {
        assert forall|i: int| 0 <= i < xs@.len() - 1 implies #[trigger] r@[i + 1] - r@[i] <= step
            && r@[i] - r@[i + 1] <= step by {
            assert(sm@[i + 1] - sm@[i] <= step);
        }
        assert forall|i: int| 0 <= i < xs@.len() implies #[trigger] r@[i] >= xs@[i] by {
            assert(sm@[i] <= neg@[i]);
        }
        assert forall|z: Seq<i64>| admissible_above(z, xs@, step as int) implies above(
            z,
            r@,
        ) by {
            let nz = Seq::new(z.len(), |i: int| (-z[i]) as i64);
            assert forall|i: int| 0 <= i < z.len() implies #[trigger] nz[i] == -z[i] by {
                assert(z[i] >= xs@[i]);
            }
            assert forall|i: int| 0 <= i < z.len() implies #[trigger] nz[i] <= neg@[i] by {
                assert(z[i] >= xs@[i]);
            }
            assert forall|i: int| 0 <= i < nz.len() - 1 implies #[trigger] nz[i + 1] - nz[i]
                <= step && nz[i] - nz[i + 1] <= step by {
                assert(nz[i + 1] == -z[i + 1]);
                assert(nz[i] == -z[i]);
                assert(z[i + 1] - z[i] <= step);
            }
            assert(admissible_below(nz, neg@, step as int));
            assert(below(nz, sm@));
            assert forall|i: int| 0 <= i < z.len() implies #[trigger] z[i] >= r@[i] by {
                assert(nz[i] <= sm@[i]);
            }
        }
    }
    r
}

} // verus!
