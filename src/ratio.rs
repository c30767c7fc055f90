//! Ratio lists: validation, sums, and the two-panel redistribution that a
//! splitter drag performs.
//!
//! Ratios are fixed-point weights in millionths of a unit, so that the
//! redistribution conserves the pair's mass exactly and a one-unit pointer
//! move over a wide container still moves some weight.
use vstd::prelude::*;

verus! {

/// One whole unit of ratio weight: ratios are fixed-point numbers in millionths.
pub const RATIO_ONE: u32 = 1_000_000;

/// The smallest weight a panel may be given (a tenth of a unit).
pub const MIN_RATIO: u32 = 100_000;

/// Largest total weight a container may hold.
pub const MAX_TOTAL: u64 = 0xffff_ffff;

/// Largest magnitude of a drag displacement expressed in ratio units.
pub const MAX_DELTA: i128 = 0x1_0000_0000_0000_0000_0000_0000;

/// Why a ratio list or a container reference was refused.
#[derive(Clone, Copy, Debug, PartialEq, Eq, Structural)]
pub enum DockError {
    /// The ratio list holds no entry.
    EmptyRatios,
    /// Some ratio lies below `MIN_RATIO` (this covers zero).
    RatioBelowFloor,
    /// The ratios add up to more than `MAX_TOTAL`.
    RatiosTooLarge,
    /// No live split container has the given id.
    UnknownContainer,
}

/// Sum of the first `n` weights.
pub open spec fn sum_prefix(r: Seq<u32>, n: int) -> int
    decreases n,
{
    if n <= 0 {
        0
    } else {
        sum_prefix(r, n - 1) + r[n - 1] as int
    }
}

/// Sum of all weights.
pub open spec fn total(r: Seq<u32>) -> int {
    sum_prefix(r, r.len() as int)
}

/// Every weight is at or above the floor.
pub open spec fn all_above_floor(r: Seq<u32>) -> bool {
    forall|i: int| 0 <= i < r.len() ==> r[i] >= MIN_RATIO
}

/// A ratio list a container may hold: non-empty, floor respected, total bounded.
pub open spec fn ratios_valid(r: Seq<u32>) -> bool {
    r.len() >= 1 && all_above_floor(r) && total(r) <= MAX_TOTAL
}

/// What validation answers for a ratio list.
pub open spec fn validation_of(r: Seq<u32>) -> Result<(), DockError> {
    if r.len() == 0 {
        Err(DockError::EmptyRatios)
    } else if !all_above_floor(r) {
        Err(DockError::RatioBelowFloor)
    } else if total(r) > MAX_TOTAL {
        Err(DockError::RatiosTooLarge)
    } else {
        Ok(())
    }
}

/// A pointer displacement turned into ratio units, rounded toward zero.
pub open spec fn delta_of(displacement: int, extent: int, sum: int) -> int {
    if displacement >= 0 {
        (displacement * sum) / extent
    } else {
        -(((-displacement) * sum) / extent)
    }
}

/// `x` limited to `[lo, hi]`.
pub open spec fn clamp(x: int, lo: int, hi: int) -> int {
    if x < lo {
        lo
    } else if x > hi {
        hi
    } else {
        x
    }
}

/// The ratio list after moving `delta` from `r[i + 1]` to `r[i]`: the pair's sum
/// is kept, both stay at or above the floor, nothing else changes.
pub open spec fn dragged(r: Seq<u32>, i: int, delta: int) -> Seq<u32> {
    let pair = r[i] as int + r[i + 1] as int;
    let a = clamp(r[i] + delta, MIN_RATIO as int, pair - MIN_RATIO);
    r.update(i, a as u32).update(i + 1, (pair - a) as u32)
}

pub proof fn lemma_sum_prefix_nonneg_mono(r: Seq<u32>, m: int, n: int)
    requires
        0 <= m <= n <= r.len(),
    ensures
        0 <= sum_prefix(r, m) <= sum_prefix(r, n),
    decreases n - m,
{
    if m < n {
        lemma_sum_prefix_nonneg_mono(r, m, n - 1);
    } else {
        lemma_sum_prefix_nonneg(r, m);
    }
}

proof fn lemma_sum_prefix_nonneg(r: Seq<u32>, n: int)
    requires
        0 <= n <= r.len(),
    ensures
        0 <= sum_prefix(r, n),
    decreases n,
{
    if n > 0 {
        lemma_sum_prefix_nonneg(r, n - 1);
    }
}

proof fn lemma_sum_prefix_update(r: Seq<u32>, k: int, v: u32, n: int)
    requires
        0 <= k < r.len(),
        0 <= n <= r.len(),
    ensures
        sum_prefix(r.update(k, v), n) == sum_prefix(r, n) + (if k < n {
            v as int - r[k] as int
        } else {
            0
        }),
    decreases n,
{
    if n > 0 {
        lemma_sum_prefix_update(r, k, v, n - 1);
    }
}

/// Replacing one weight changes the total by the difference.
pub proof fn lemma_total_update(r: Seq<u32>, k: int, v: u32)
    requires
        0 <= k < r.len(),
    ensures
        total(r.update(k, v)) == total(r) - r[k] + v,
{
    lemma_sum_prefix_update(r, k, v, r.len() as int);
}

/// Two neighbouring weights are part of the total.
pub proof fn lemma_pair_within_total(r: Seq<u32>, i: int)
    requires
        0 <= i,
        i + 1 < r.len(),
    ensures
        r[i] as int + r[i + 1] as int <= total(r),
{
    assert(sum_prefix(r, i + 2) == sum_prefix(r, i + 1) + r[i + 1] as int);
    assert(sum_prefix(r, i + 1) == sum_prefix(r, i) + r[i] as int);
    lemma_sum_prefix_nonneg_mono(r, 0, i);
    lemma_sum_prefix_nonneg_mono(r, i + 2, r.len() as int);
}

/// A drag moves mass only between the two panels next to the handle: their
/// sum is what it was, both stay at or above `MIN_RATIO`, every other ratio and
/// the total are unchanged, and the list stays valid.
pub proof fn lemma_drag_conserves(r: Seq<u32>, i: int, delta: int)
    requires
        ratios_valid(r),
        0 <= i,
        i + 1 < r.len(),
    ensures
        dragged(r, i, delta).len() == r.len(),
        dragged(r, i, delta)[i] as int + dragged(r, i, delta)[i + 1] as int == r[i] as int
            + r[i + 1] as int,
        dragged(r, i, delta)[i] >= MIN_RATIO,
        dragged(r, i, delta)[i + 1] >= MIN_RATIO,
        forall|k: int|
            0 <= k < r.len() && k != i && k != i + 1 ==> #[trigger] dragged(r, i, delta)[k] == r[k],
        total(dragged(r, i, delta)) == total(r),
        ratios_valid(dragged(r, i, delta)),
{
    lemma_pair_within_total(r, i);
    let pair = r[i] as int + r[i + 1] as int;
    let a = clamp(r[i] + delta, MIN_RATIO as int, pair - MIN_RATIO);
    assert(r[i] >= MIN_RATIO && r[i + 1] >= MIN_RATIO);
    assert(MIN_RATIO <= a <= pair - MIN_RATIO);
    lemma_total_update(r, i, a as u32);
    lemma_total_update(r.update(i, a as u32), i + 1, (pair - a) as u32);
}

/// Answers whether `r` may be held by a container, and if not, why.
pub fn validate_ratios(r: &Vec<u32>) -> (res: Result<(), DockError>)
    ensures
        res == validation_of(r@),
{
    if r.len() == 0 {
        return Err(DockError::EmptyRatios);
    }
    let mut i: usize = 0;
    while i < r.len()
        invariant
            0 <= i <= r.len(),
            forall|j: int| 0 <= j < i ==> r@[j] >= MIN_RATIO,
        decreases r.len() - i,
    {
        if r[i] < MIN_RATIO {
            return Err(DockError::RatioBelowFloor);
        }
        i = i + 1;
    }
    let mut sum: u64 = 0;
    let mut k: usize = 0;
    while k < r.len()
        invariant
            0 <= k <= r.len(),
            sum == sum_prefix(r@, k as int),
            sum <= MAX_TOTAL,
            r.len() > 0,
            all_above_floor(r@),
        decreases r.len() - k,
    {
        if r[k] as u64 > MAX_TOTAL - sum {
            proof {
                assert(sum_prefix(r@, k as int + 1) == sum_prefix(r@, k as int) + r@[k as int]);
                lemma_sum_prefix_nonneg_mono(r@, k as int + 1, r.len() as int);
            }
            return Err(DockError::RatiosTooLarge);
        }
        sum = sum + r[k] as u64;
        k = k + 1;
    }
    Ok(())
}

/// Sum of a ratio list whose total is known to be bounded.
pub fn ratio_sum(r: &Vec<u32>) -> (s: u64)
    requires
        total(r@) <= MAX_TOTAL,
    ensures
        s == total(r@),
{
    let mut sum: u64 = 0;
    let mut k: usize = 0;
    while k < r.len()
        invariant
            0 <= k <= r.len(),
            sum == sum_prefix(r@, k as int),
            total(r@) <= MAX_TOTAL,
        decreases r.len() - k,
    {
        proof {
            lemma_sum_prefix_nonneg_mono(r@, k as int + 1, r.len() as int);
        }
        sum = sum + r[k] as u64;
        k = k + 1;
    }
    sum
}

/// Turns a pointer displacement along the primary axis into ratio units:
/// `displacement / extent * sum`, rounded toward zero.
pub fn normalized_delta(displacement: i64, extent: u32, sum: u64) -> (d: i128)
    requires
        extent > 0,
        sum <= MAX_TOTAL,
    ensures
        d == delta_of(displacement as int, extent as int, sum as int),
        -MAX_DELTA <= d <= MAX_DELTA,
{
    let m: u128 = if displacement >= 0 {
        displacement as u128
    } else {
        (-(displacement as i128)) as u128
    };
    assert(m <= 0x8000_0000_0000_0000);
    assert(m * sum <= 0x8000_0000_0000_0000 * 0xffff_ffff) by (nonlinear_arith)
        requires
            m <= 0x8000_0000_0000_0000,
            sum <= 0xffff_ffff,
    ;
    let prod: u128 = m * (sum as u128);
    let q: u128 = prod / (extent as u128);
    assert(q <= prod) by (nonlinear_arith)
        requires
            q == prod / (extent as u128),
            extent > 0,
    ;
    if displacement >= 0 {
        q as i128
    } else {
        -(q as i128)
    }
}

/// Moves `delta` ratio units from `ratios[i + 1]` to `ratios[i]`, keeping the
/// pair's sum and keeping both at or above `MIN_RATIO`.
///
/// Both sides are first raised to the floor, then the pair is brought back to
/// its old sum: for a positive `delta` the left side is corrected first, for a
/// negative one the right side.
pub fn resize_pair(ratios: &mut Vec<u32>, i: usize, delta: i128)
    requires
        ratios_valid(old(ratios)@),
        i + 1 < old(ratios)@.len(),
        -MAX_DELTA <= delta <= MAX_DELTA,
    ensures
        final(ratios)@ == dragged(old(ratios)@, i as int, delta as int),
        final(ratios)@[i as int] as int + final(ratios)@[i + 1] as int == old(ratios)@[i as int] as int
            + old(ratios)@[i + 1] as int,
        final(ratios)@[i as int] >= MIN_RATIO,
        final(ratios)@[i + 1] >= MIN_RATIO,
        ratios_valid(final(ratios)@),
        total(final(ratios)@) == total(old(ratios)@),
{
    proof {
        lemma_pair_within_total(ratios@, i as int);
    }
    assert(i + 1 < ratios.len());
    let a: i128 = ratios[i] as i128;
    let b: i128 = ratios[i + 1] as i128;
    let floor: i128 = MIN_RATIO as i128;
    let two_sum: i128 = a + b;

    let mut na: i128 = a + delta;
    let mut nb: i128 = b - delta;
    if na < floor {
        na = floor;
    }
    if nb < floor {
        nb = floor;
    }
    if delta < 0 {
        if nb > two_sum - na {
            nb = two_sum - na;
        }
        if na > two_sum - nb {
            na = two_sum - nb;
        }
    } else {
        if na > two_sum - nb {
            na = two_sum - nb;
        }
        if nb > two_sum - na {
            nb = two_sum - na;
        }
    }
    assert(na == clamp(a + delta, floor as int, two_sum - floor));
    assert(nb == two_sum - na);
    let ghost before = ratios@;
    ratios.set(i, na as u32);
    ratios.set(i + 1, nb as u32);
    proof {
        lemma_total_update(before, i as int, na as u32);
        lemma_total_update(before.update(i as int, na as u32), i as int + 1, nb as u32);
        assert(ratios@ =~= dragged(before, i as int, delta as int));
        lemma_drag_conserves(before, i as int, delta as int);
    }
}

} // verus!
