//! The resampler: a series of points is downsampled to a bounded count by
//! means over runs of points, interpolated between the points that are
//! left, and measured for the range of its axis.
//!
//! A point is a pair of whole numbers: seconds since the start of its
//! window, and the value of a metric. Means and interpolated coordinates
//! are whole numbers too, rounded down.

use vstd::prelude::*;
use vstd::arithmetic::div_mod::*;
use crate::constants::{DOWN_SAMPLE_POINTS, INTERPOLATION_STEPS};

verus! {

/// Sum of the x coordinates of `points`.
pub open spec fn sum_x(points: Seq<(u64, i64)>) -> int
    decreases points.len(),
{
    if points.len() == 0 {
        0
    } else {
        sum_x(points.drop_last()) + points.last().0
    }
}

/// Sum of the y coordinates of `points`.
pub open spec fn sum_y(points: Seq<(u64, i64)>) -> int
    decreases points.len(),
{
    if points.len() == 0 {
        0
    } else {
        sum_y(points.drop_last()) + points.last().1
    }
}

/// The point whose coordinates are the arithmetic means of those of
/// `points`, each rounded down to a whole number.
pub open spec fn mean(points: Seq<(u64, i64)>) -> (u64, i64)
    recommends
        points.len() > 0,
{
    ((sum_x(points) / points.len() as int) as u64, (sum_y(points) / points.len() as int) as i64)
}

/// `n` divided by `d`, rounded up; zero where `d` is zero.
pub open spec fn div_ceil(n: nat, d: nat) -> nat {
    if d == 0 {
        0
    } else {
        ((n + d - 1) / d as int) as nat
    }
}

/// The `k`-th run of `size` consecutive points of `data`; the last run is
/// the one that may be shorter.
pub open spec fn chunk(data: Seq<(u64, i64)>, size: nat, k: int) -> Seq<(u64, i64)> {
    data.subrange(
        k * size,
        if (k + 1) * size <= data.len() {
            (k + 1) * size
        } else {
            data.len() as int
        },
    )
}

/// `data` cut into runs of `div_ceil(data.len(), target_points)` points,
/// each run replaced by its mean.
pub open spec fn down_sampled(data: Seq<(u64, i64)>, target_points: nat) -> Seq<(u64, i64)> {
    let size = div_ceil(data.len(), target_points);
    Seq::new(div_ceil(data.len(), size), |k: int| mean(chunk(data, size, k)))
}

/// Sums lie within the bounds of as many terms.
proof fn lemma_sums_bounded(points: Seq<(u64, i64)>)
    ensures
        0 <= sum_x(points) <= points.len() * u64::MAX,
        points.len() * i64::MIN <= sum_y(points) <= points.len() * i64::MAX,
    decreases points.len(),
{
    if points.len() > 0 {
        lemma_sums_bounded(points.drop_last());
        assert(points.len() * u64::MAX == (points.len() - 1) * u64::MAX + u64::MAX)
            by (nonlinear_arith);
        assert(points.len() * i64::MAX == (points.len() - 1) * i64::MAX + i64::MAX)
            by (nonlinear_arith);
        assert(points.len() * i64::MIN == (points.len() - 1) * i64::MIN + i64::MIN)
            by (nonlinear_arith);
    } else {
        assert(points.len() * u64::MAX == 0) by (nonlinear_arith)
            requires
                points.len() == 0,
        ;
        assert(points.len() * i64::MAX == 0) by (nonlinear_arith)
            requires
                points.len() == 0,
        ;
        assert(points.len() * i64::MIN == 0) by (nonlinear_arith)
            requires
                points.len() == 0,
        ;
    }
}

/// A quotient of a sum lies within the bounds of its terms.
proof fn lemma_quotient_bounded(sum: int, n: int, low: int, high: int)
    requires
        n > 0,
        n * low <= sum <= n * high,
    ensures
        low <= sum / n <= high,
{
    lemma_fundamental_div_mod(sum, n);
    lemma_mod_bound(sum, n);
    let q = sum / n;
    assert(low <= q) by (nonlinear_arith)
        requires
            n > 0,
            n * low <= sum,
            sum == n * q + sum % n,
            0 <= sum % n < n,
    ;
    assert(q <= high) by (nonlinear_arith)
        requires
            n > 0,
            sum <= n * high,
            sum == n * q + sum % n,
            0 <= sum % n < n,
    ;
}

/// The mean of a run lies within the range of its coordinates' types.
pub proof fn lemma_mean_in_range(points: Seq<(u64, i64)>)
    requires
        points.len() > 0,
    ensures
        0 <= sum_x(points) / points.len() as int <= u64::MAX,
        i64::MIN <= sum_y(points) / points.len() as int <= i64::MAX,
{
    lemma_sums_bounded(points);
    assert(points.len() * 0 == 0) by (nonlinear_arith);
    lemma_quotient_bounded(sum_x(points), points.len() as int, 0, u64::MAX as int);
    lemma_quotient_bounded(sum_y(points), points.len() as int, i64::MIN as int, i64::MAX as int);
}

/// `numerator / denominator` rounded down, for a numerator of either sign.
fn div_floor(numerator: i128, denominator: i128) -> (quotient: i128)
    requires
        denominator > 0,
    ensures
        quotient == numerator / denominator,
{
    if numerator >= 0 {
        numerator / denominator
    } else {
        let below: i128 = -(numerator + 1);
        let q: i128 = below / denominator;
        proof {
            // numerator = -(below + 1) and below = q * d + r with 0 <= r < d,
            // so numerator = (-q - 1) * d + (d - 1 - r).
            lemma_fundamental_div_mod(below as int, denominator as int);
            lemma_mod_bound(below as int, denominator as int);
            let r = below as int % denominator as int;
            assert(numerator as int == (-q - 1) * denominator + (denominator - 1 - r))
                by (nonlinear_arith)
                requires
                    below == -(numerator + 1),
                    below == denominator * q + r,
            ;
            lemma_fundamental_div_mod_converse_div(
                numerator as int,
                denominator as int,
                -q - 1,
                denominator - 1 - r,
            );
            lemma_div_pos_is_pos(below as int, denominator as int);
            lemma_div_nonincreasing(below as int, denominator as int);
        }
        -q - 1
    }
}

/// Sums the coordinates of `data[start..end]`.
fn sums(data: &[(u64, i64)], start: usize, end: usize) -> (total: (u128, i128))
    requires
        start <= end <= data.len(),
    ensures
        total.0 == sum_x(data@.subrange(start as int, end as int)),
        total.1 == sum_y(data@.subrange(start as int, end as int)),
{
    let mut total_x: u128 = 0;
    let mut total_y: i128 = 0;
    let mut j: usize = start;
    while j < end
        invariant
            start <= j <= end <= data.len(),
            total_x == sum_x(data@.subrange(start as int, j as int)),
            total_y == sum_y(data@.subrange(start as int, j as int)),
        decreases end - j,
    {
        proof {
            let before = data@.subrange(start as int, j as int);
            let after = data@.subrange(start as int, j + 1);
            assert(after.drop_last() =~= before);
            assert(after.last() == data@[j as int]);
            lemma_sums_bounded(after);
            assert(after.len() * u64::MAX <= usize::MAX * u64::MAX) by (nonlinear_arith)
                requires
                    after.len() <= usize::MAX,
            ;
            assert(after.len() * i64::MAX <= usize::MAX * i64::MAX) by (nonlinear_arith)
                requires
                    after.len() <= usize::MAX,
            ;
            assert(after.len() * i64::MIN >= usize::MAX * i64::MIN) by (nonlinear_arith)
                requires
                    after.len() <= usize::MAX,
            ;
        }
        let point = data[j];
        total_x = total_x + point.0 as u128;
        total_y = total_y + point.1 as i128;
        j = j + 1;
    }
    (total_x, total_y)
}

/// Rounding up is the least count of runs that covers `n` points.
proof fn lemma_div_ceil_least(n: nat, d: nat, k: nat)
    requires
        d > 0,
        k * d >= n,
        k == 0 || (k - 1) * d < n,
    ensures
        k == div_ceil(n, d),
{
    if k == 0 {
        assert(n == 0) by (nonlinear_arith)
            requires
                k == 0,
                k * d >= n,
        ;
        lemma_basic_div((n + d - 1) as int, d as int);
    } else {
        // n + d - 1 = k * d + r with 0 <= r < d, so the quotient is k.
        let r = n - 1 - (k - 1) * d;
        assert(0 <= r < d) by (nonlinear_arith)
            requires
                k * d >= n,
                (k - 1) * d < n,
                r == n - 1 - (k - 1) * d,
        ;
        assert(n + d - 1 == k * d + r) by (nonlinear_arith)
            requires
                r == n - 1 - (k - 1) * d,
        ;
        lemma_fundamental_div_mod_converse_div((n + d - 1) as int, d as int, k as int, r as int);
    }
}

/// Rounding up twice never yields more runs than were asked for.
proof fn lemma_div_ceil_twice(n: nat, target_points: nat)
    requires
        target_points > 0,
    ensures
        div_ceil(n, div_ceil(n, target_points)) <= target_points,
        div_ceil(n, div_ceil(n, target_points)) == 0 <==> n == 0,
        n > 0 ==> div_ceil(n, target_points) > 0,
{
    let size = div_ceil(n, target_points);
    let t = target_points as int;
    lemma_fundamental_div_mod((n + t - 1) as int, t);
    lemma_mod_bound((n + t - 1) as int, t);
    let rem = (n + t - 1) as int % t;
    if n == 0 {
        lemma_basic_div((n + t - 1) as int, t);
        assert(size == 0);
    } else {
        assert(size * t >= n && size > 0) by (nonlinear_arith)
            requires
                n + t - 1 == t * size + rem,
                0 <= rem < t,
                n > 0,
                size >= 0,
        ;
        let count = div_ceil(n, size);
        let s = size as int;
        lemma_fundamental_div_mod((n + s - 1) as int, s);
        lemma_mod_bound((n + s - 1) as int, s);
        let rem2 = (n + s - 1) as int % s;
        assert(0 < count <= t) by (nonlinear_arith)
            requires
                n + s - 1 == s * count + rem2,
                0 <= rem2 < s,
                s * t >= n,
                n > 0,
                t > 0,
                count >= 0,
        ;
    }
}

/// The length that a downsampled series has: never more than
/// `target_points`, and none exactly where there is no input or no point
/// is asked for.
pub proof fn lemma_down_sampled_len(data: Seq<(u64, i64)>, target_points: nat)
    ensures
        down_sampled(data, target_points).len() <= target_points,
        down_sampled(data, target_points).len() == 0 <==> (data.len() == 0 || target_points == 0),
{
    if target_points > 0 {
        lemma_div_ceil_twice(data.len(), target_points);
    }
}

/// Reduces `data` to at most `target_points` points: the series is cut
/// into runs of equal size, the last one taking what is left, and each run
/// collapses to the mean of its points.
pub fn down_sample(data: &[(u64, i64)], target_points: u16) -> (series: Vec<(u64, i64)>)
    ensures
        series@ == down_sampled(data@, target_points as nat),
        series.len() <= target_points,
        series.len() == 0 <==> (data.len() == 0 || target_points == 0),
{
    proof {
        lemma_down_sampled_len(data@, target_points as nat);
    }
    let n: usize = data.len();
    let mut series: Vec<(u64, i64)> = Vec::new();
    if target_points == 0 || n == 0 {
        assert(series@ =~= down_sampled(data@, target_points as nat));
        return series;
    }
    let target: usize = target_points as usize;
    let size: usize = if n % target == 0 {
        n / target
    } else {
        proof {
            lemma_div_is_ordered_by_denominator(n as int, 1, target as int);
            lemma_div_basics_3(n as int);
            if target == 1 {
                lemma_mod_self_0(1);
                lemma_fundamental_div_mod(n as int, 1);
            } else {
                lemma_div_decreases(n as int, target as int);
            }
        }
        n / target + 1
    };
    proof {
        lemma_div_ceil_twice(n as nat, target as nat);
        lemma_fundamental_div_mod(n as int, target as int);
        lemma_mod_bound(n as int, target as int);
        let q = n as int / target as int;
        let r = n as int % target as int;
        if r == 0 {
            assert(n + target - 1 == q * target + (target - 1)) by (nonlinear_arith)
                requires
                    n == target * q + r,
                    r == 0,
            ;
            lemma_fundamental_div_mod_converse_div(
                (n + target - 1) as int,
                target as int,
                q,
                target - 1,
            );
        } else {
            assert(n + target - 1 == (q + 1) * target + (r - 1)) by (nonlinear_arith)
                requires
                    n == target * q + r,
            ;
            lemma_fundamental_div_mod_converse_div(
                (n + target - 1) as int,
                target as int,
                q + 1,
                r - 1,
            );
        }
        assert(size == div_ceil(n as nat, target as nat));
    }
    let mut start: usize = 0;
    assert(series.len() * size == 0) by (nonlinear_arith)
        requires
            series.len() == 0,
    ;
    while start < n
        invariant
            n == data.len(),
            0 < size,
            start <= n,
            start == n || start == series.len() * size,
            series.len() * size >= start,
            series.len() == 0 || (series.len() - 1) * size < n,
            forall|k: int|
                0 <= k < series.len() ==> series@[k] == #[trigger] mean(
                    chunk(data@, size as nat, k),
                ),
        decreases n - start,
    {
        let ghost k = series.len() as int;
        let end: usize = if n - start >= size {
            start + size
        } else {
            n
        };
        proof {
            assert(start == k * size);
            assert((k + 1) * size == k * size + size) by (nonlinear_arith);
            assert(data@.subrange(start as int, end as int) =~= chunk(data@, size as nat, k));
            lemma_mean_in_range(chunk(data@, size as nat, k));
        }
        let total = sums(data, start, end);
        let count: usize = end - start;
        let mean_x: u128 = total.0 / (count as u128);
        let mean_y: i128 = div_floor(total.1, count as i128);
        series.push((mean_x as u64, mean_y as i64));
        start = end;
    }
    proof {
        lemma_div_ceil_least(n as nat, size as nat, series.len() as nat);
        assert(series@ =~= down_sampled(data@, target_points as nat));
    }
    series
}

/// The whole number `step / steps` of the way from `from` to `to`: the
/// offset is rounded down, so the result never passes `to`.
pub open spec fn lerp(from: int, to: int, step: int, steps: int) -> int {
    if to >= from {
        from + (step * (to - from)) / steps
    } else {
        from - (step * (from - to)) / steps
    }
}

/// Number of points that interpolating `k` points with `steps` steps for
/// each segment gives.
pub open spec fn interpolated_len(k: nat, steps: nat) -> nat {
    if k == 0 {
        0
    } else {
        ((k - 1) * steps + 1) as nat
    }
}

/// For each pair of neighbours in `data`, `steps` points on the line from
/// the first to the second, the first included and the second not; then the
/// last point of `data` itself.
pub open spec fn interpolated(data: Seq<(u64, i64)>, steps: nat) -> Seq<(u64, i64)> {
    Seq::new(
        interpolated_len(data.len(), steps),
        |i: int|
            if i == (data.len() - 1) * steps {
                data.last()
            } else {
                let segment = i / steps as int;
                let step = i % steps as int;
                (
                    lerp(
                        data[segment].0 as int,
                        data[segment + 1].0 as int,
                        step,
                        steps as int,
                    ) as u64,
                    lerp(
                        data[segment].1 as int,
                        data[segment + 1].1 as int,
                        step,
                        steps as int,
                    ) as i64,
                )
            },
    )
}

/// An interpolated coordinate lies between the two it was taken from.
pub proof fn lemma_lerp_between(from: int, to: int, step: int, steps: int)
    requires
        0 <= step < steps,
    ensures
        from <= to ==> from <= lerp(from, to, step, steps) <= to,
        to <= from ==> to <= lerp(from, to, step, steps) <= from,
        step == 0 ==> lerp(from, to, step, steps) == from,
{
    let distance = if to >= from {
        to - from
    } else {
        from - to
    };
    assert(0 <= step * distance <= steps * distance) by (nonlinear_arith)
        requires
            0 <= step < steps,
            0 <= distance,
    ;
    lemma_div_is_ordered(step * distance, steps * distance, steps);
    lemma_div_multiples_vanish(distance, steps);
    lemma_div_pos_is_pos(step * distance, steps);
    if step == 0 {
        assert(step * distance == 0) by (nonlinear_arith)
            requires
                step == 0,
        ;
        lemma_div_of0(steps);
    }
}

/// Computes `lerp` on machine integers.
fn lerp_exec(from: i128, to: i128, step: u16, steps: u16) -> (at: i128)
    requires
        step < steps,
        -0x1_0000_0000_0000_0000 <= from <= 0x1_0000_0000_0000_0000,
        -0x1_0000_0000_0000_0000 <= to <= 0x1_0000_0000_0000_0000,
    ensures
        at == lerp(from as int, to as int, step as int, steps as int),
{
    proof {
        lemma_lerp_between(from as int, to as int, step as int, steps as int);
    }
    if to >= from {
        let distance: i128 = to - from;
        assert(0 <= step * distance <= 0x1_0000 * 0x2_0000_0000_0000_0000) by (nonlinear_arith)
            requires
                0 <= step < 0x1_0000,
                0 <= distance <= 0x2_0000_0000_0000_0000,
        ;
        from + (step as i128 * distance) / (steps as i128)
    } else {
        let distance: i128 = from - to;
        assert(0 <= step * distance <= 0x1_0000 * 0x2_0000_0000_0000_0000) by (nonlinear_arith)
            requires
                0 <= step < 0x1_0000,
                0 <= distance <= 0x2_0000_0000_0000_0000,
        ;
        from - (step as i128 * distance) / (steps as i128)
    }
}

/// The length that an interpolated series has: `(k - 1) * steps + 1` points
/// for `k >= 1` given points, and none for none.
pub proof fn lemma_interpolated_len(data: Seq<(u64, i64)>, steps: nat)
    ensures
        data.len() == 0 ==> interpolated(data, steps).len() == 0,
        data.len() >= 1 ==> interpolated(data, steps).len() == (data.len() - 1) * steps + 1,
{
    if data.len() >= 1 {
        assert((data.len() - 1) * steps >= 0) by (nonlinear_arith)
            requires
                data.len() >= 1,
                steps >= 0,
        ;
    }
}

/// Draws `steps_per_segment` points along each segment between two
/// neighbours of `data`, starting at the first and stopping short of the
/// second, and ends with the last point of `data`.
pub fn interpolate(data: &[(u64, i64)], steps_per_segment: u16) -> (series: Vec<(u64, i64)>)
    requires
        interpolated_len(data@.len(), steps_per_segment as nat) <= usize::MAX,
    ensures
        series@ == interpolated(data@, steps_per_segment as nat),
        data.len() == 0 ==> series.len() == 0,
        data.len() >= 1 ==> series.len() == (data.len() - 1) * steps_per_segment + 1,
{
    proof {
        lemma_interpolated_len(data@, steps_per_segment as nat);
    }
    let n: usize = data.len();
    let mut series: Vec<(u64, i64)> = Vec::new();
    if n == 0 {
        assert(series@ =~= interpolated(data@, steps_per_segment as nat));
        return series;
    }
    let ghost goal = interpolated(data@, steps_per_segment as nat);
    let mut segment: usize = 0;
    assert(segment * steps_per_segment == 0) by (nonlinear_arith)
        requires
            segment == 0,
    ;
    while segment < n - 1
        invariant
            n == data.len(),
            n >= 1,
            segment <= n - 1,
            goal == interpolated(data@, steps_per_segment as nat),
            goal.len() == (n - 1) * steps_per_segment + 1,
            series.len() == segment * steps_per_segment,
            forall|i: int| 0 <= i < series.len() ==> series@[i] == goal[i],
        decreases n - 1 - segment,
    {
        let first = data[segment];
        let second = data[segment + 1];
        let mut step: u16 = 0;
        while step < steps_per_segment
            invariant
                n == data.len(),
                segment < n - 1,
                first == data@[segment as int],
                second == data@[segment + 1],
                step <= steps_per_segment,
                goal == interpolated(data@, steps_per_segment as nat),
                goal.len() == (n - 1) * steps_per_segment + 1,
                series.len() == segment * steps_per_segment + step,
                forall|i: int| 0 <= i < series.len() ==> series@[i] == goal[i],
            decreases steps_per_segment - step,
        {
            let ghost i = series.len() as int;
            proof {
                let steps = steps_per_segment as int;
                lemma_fundamental_div_mod_converse(i, steps, segment as int, step as int);
                assert(i < (n - 1) * steps) by (nonlinear_arith)
                    requires
                        i == segment * steps + step,
                        segment < n - 1,
                        step < steps,
                ;
                lemma_lerp_between(first.0 as int, second.0 as int, step as int, steps);
                lemma_lerp_between(first.1 as int, second.1 as int, step as int, steps);
            }
            let x: i128 = lerp_exec(first.0 as i128, second.0 as i128, step, steps_per_segment);
            let y: i128 = lerp_exec(first.1 as i128, second.1 as i128, step, steps_per_segment);
            series.push((x as u64, y as i64));
            step = step + 1;
        }
        proof {
            assert((segment + 1) * steps_per_segment == segment * steps_per_segment
                + steps_per_segment) by (nonlinear_arith);
        }
        segment = segment + 1;
    }
    series.push(data[n - 1]);
    assert(series@ =~= goal);
    series
}

/// What the dashboard makes of a series before it draws it: the series
/// downsampled to `DOWN_SAMPLE_POINTS` points and, where asked for,
/// interpolated with `INTERPOLATION_STEPS` steps for each segment.
pub open spec fn filtered(data: Seq<(u64, i64)>, do_interpolation: bool) -> Seq<(u64, i64)> {
    let reduced = down_sampled(data, DOWN_SAMPLE_POINTS as nat);
    if do_interpolation {
        interpolated(reduced, INTERPOLATION_STEPS as nat)
    } else {
        reduced
    }
}

/// Downsamples `data` and, where `do_interpolation` is set, interpolates
/// the result.
pub fn filter(data: &[(u64, i64)], do_interpolation: bool) -> (series: Vec<(u64, i64)>)
    ensures
        series@ == filtered(data@, do_interpolation),
{
    let reduced = down_sample(data, DOWN_SAMPLE_POINTS);
    if do_interpolation {
        assert(interpolated_len(reduced@.len(), INTERPOLATION_STEPS as nat) <= usize::MAX)
            by (nonlinear_arith)
            requires
                reduced@.len() <= 40,
                INTERPOLATION_STEPS == 64,
                usize::MAX >= 0xffff_ffff,
                interpolated_len(reduced@.len(), INTERPOLATION_STEPS as nat) == if reduced@.len()
                    == 0 {
                    0
                } else {
                    (reduced@.len() - 1) * INTERPOLATION_STEPS + 1
                },
        ;
        interpolate(reduced.as_slice(), INTERPOLATION_STEPS)
    } else {
        reduced
    }
}

/// `low` is the least of the y values of `data` that are not zero, or
/// `i64::MAX` where there is none.
pub open spec fn is_least_nonzero(data: Seq<(u64, i64)>, low: i64) -> bool {
    &&& forall|i: int| 0 <= i < data.len() && data[i].1 != 0 ==> low <= #[trigger] data[i].1
    &&& if exists|i: int| 0 <= i < data.len() && #[trigger] data[i].1 != 0 {
        exists|i: int| 0 <= i < data.len() && data[i].1 != 0 && #[trigger] data[i].1 == low
    } else {
        low == i64::MAX
    }
}

/// `high` is the greatest of zero and the y values of `data`.
pub open spec fn is_greatest_or_zero(data: Seq<(u64, i64)>, high: i64) -> bool {
    &&& high >= 0
    &&& forall|i: int| 0 <= i < data.len() ==> high >= #[trigger] data[i].1
    &&& high == 0 || exists|i: int| 0 <= i < data.len() && #[trigger] data[i].1 == high
}

/// The range of the y axis for `data`: the least y that is not zero and
/// the greatest y, zero included; `(0, 0)` for an empty series.
pub fn find_min_max(data: &[(u64, i64)]) -> (range: (i64, i64))
    ensures
        data.len() == 0 ==> range == (0i64, 0i64),
        data.len() > 0 ==> is_least_nonzero(data@, range.0) && is_greatest_or_zero(
            data@,
            range.1,
        ),
{
    if data.len() == 0 {
        return (0, 0);
    }
    let mut low: i64 = i64::MAX;
    let mut high: i64 = 0;
    let mut j: usize = 0;
    while j < data.len()
        invariant
            j <= data.len(),
            is_least_nonzero(data@.take(j as int), low),
            is_greatest_or_zero(data@.take(j as int), high),
        decreases data.len() - j,
    {
        let y: i64 = data[j].1;
        let ghost before = data@.take(j as int);
        let ghost after = data@.take(j + 1);
        proof {
            assert(forall|i: int| 0 <= i < j ==> before[i] == after[i]);
            assert(after[j as int].1 == y);
            if exists|i: int| 0 <= i < before.len() && #[trigger] before[i].1 != 0 {
                let w = choose|i: int|
                    0 <= i < before.len() && before[i].1 != 0 && #[trigger] before[i].1 == low;
                assert(after[w].1 == low);
            }
            if high != 0 {
                let w = choose|i: int| 0 <= i < before.len() && #[trigger] before[i].1 == high;
                assert(after[w].1 == high);
            }
        }
        if y != 0 && y < low {
            low = y;
        }
        if y > high {
            high = y;
        }
        j = j + 1;
        proof {
            if y != 0 {
                assert(after[j - 1].1 != 0);
            }
            assert(is_least_nonzero(after, low));
            assert(is_greatest_or_zero(after, high));
        }
    }
    assert(data@.take(data.len() as int) =~= data@);
    (low, high)
}

/// Whether one of the y values of `data` is not zero.
pub open spec fn has_nonzero(data: Seq<(u64, i64)>) -> bool {
    exists|i: int| 0 <= i < data.len() && #[trigger] data[i].1 != 0
}

/// Whether `range` is the range that the y axis of `data` is drawn with:
/// from the least y that is not zero to the greatest y, zero included. A
/// series without a y other than zero, the empty one too, starts at zero.
pub open spec fn is_axis_range(data: Seq<(u64, i64)>, range: (i64, i64)) -> bool {
    &&& if has_nonzero(data) {
        is_least_nonzero(data, range.0)
    } else {
        range.0 == 0
    }
    &&& is_greatest_or_zero(data, range.1)
}

/// Decides whether one of the y values of `data` is not zero.
fn any_nonzero(data: &[(u64, i64)]) -> (found: bool)
    ensures
        found == has_nonzero(data@),
{
    let mut j: usize = 0;
    while j < data.len()
        invariant
            j <= data.len(),
            forall|i: int| 0 <= i < j ==> (#[trigger] data@[i]).1 == 0,
        decreases data.len() - j,
    {
        if data[j].1 != 0 {
            assert(data@[j as int].1 != 0);
            return true;
        }
        j = j + 1;
    }
    false
}

/// The range that the y axis of `data` is drawn with.
pub fn axis_range(data: &[(u64, i64)]) -> (range: (i64, i64))
    ensures
        is_axis_range(data@, range),
{
    let (low, high) = find_min_max(data);
    if any_nonzero(data) {
        (low, high)
    } else {
        (0, high)
    }
}

/// The range of a y axis that two series share: the range of the axis of
/// both series taken together.
pub fn shared_axis_range(first: &[(u64, i64)], second: &[(u64, i64)]) -> (range: (i64, i64))
    ensures
        is_axis_range(first@ + second@, range),
{
    let (first_low, first_high) = find_min_max(first);
    let (second_low, second_high) = find_min_max(second);
    let in_first = any_nonzero(first);
    let in_second = any_nonzero(second);
    let low: i64 = if in_first && in_second {
        if first_low < second_low {
            first_low
        } else {
            second_low
        }
    } else if in_first {
        first_low
    } else if in_second {
        second_low
    } else {
        0
    };
    let high: i64 = if first_high > second_high {
        first_high
    } else {
        second_high
    };
    proof {
        let both = first@ + second@;
        let n = first@.len() as int;
        assert forall|i: int| 0 <= i < both.len() implies #[trigger] both[i] == if i < n {
            first@[i]
        } else {
            second@[i - n]
        } by {}
        if in_first {
            let w = choose|i: int|
                0 <= i < first@.len() && first@[i].1 != 0 && #[trigger] first@[i].1 == first_low;
            assert(both[w] == first@[w]);
            assert(both[w].1 != 0);
        }
        if in_second {
            let w = choose|i: int|
                0 <= i < second@.len() && second@[i].1 != 0 && #[trigger] second@[i].1
                    == second_low;
            assert(both[w + n] == second@[w]);
            assert(both[w + n].1 != 0);
        }
        if first@.len() > 0 && first_high != 0 {
            let w = choose|i: int| 0 <= i < first@.len() && #[trigger] first@[i].1 == first_high;
            assert(both[w] == first@[w]);
        }
        if second@.len() > 0 && second_high != 0 {
            let w = choose|i: int|
                0 <= i < second@.len() && #[trigger] second@[i].1 == second_high;
            assert(both[w + n] == second@[w]);
        }
        if has_nonzero(both) {
            let w = choose|i: int| 0 <= i < both.len() && #[trigger] both[i].1 != 0;
            if w < n {
                assert(first@[w].1 != 0);
            } else {
                assert(second@[w - n].1 != 0);
            }
        }
        assert forall|i: int| 0 <= i < both.len() && both[i].1 != 0 implies low <= #[trigger] both[i].1 by {
            if i < n {
                assert(first@[i].1 != 0);
            } else {
                assert(second@[i - n].1 != 0);
            }
        }
        assert forall|i: int| 0 <= i < both.len() implies high >= #[trigger] both[i].1 by {
            if i < n {
                assert(first@[i].1 <= first_high);
            } else {
                assert(second@[i - n].1 <= second_high);
            }
        }
    }
    (low, high)
}

} // verus!
