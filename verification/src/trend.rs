//! Moving-average trend signals over fixed-point price series.

use vstd::prelude::*;

use crate::fixed::PRICE_LIMIT;

verus! {

/// Bound on a moving-average window length.
pub const MAX_WINDOW: usize = 1_000_000;

/// A trading signal.
#[derive(Clone, Copy, Debug, PartialEq, Eq, Structural)]
pub enum Signal {
    Buy,
    Sell,
    Hold,
}

/// A moving-average crossover strategy: compares a short-window moving
/// average of the price series against a long-window one.
#[derive(Clone, Copy, Debug)]
pub struct MovingAverageCrossover {
    /// The window size for the short moving average.
    pub short_window: usize,
    /// The window size for the long moving average.
    pub long_window: usize,
}

/// The sum of the last `k` elements of `s` — of all of them when `s` is
/// shorter than `k`.
pub open spec fn sum_of_last(s: Seq<i64>, k: int) -> int
    decreases s.len(),
{
    if k <= 0 || s.len() == 0 {
        0
    } else {
        s.last() + sum_of_last(s.drop_last(), k - 1)
    }
}

/// Summing one more trailing element adds exactly that element.
proof fn lemma_sum_of_last_step(s: Seq<i64>, j: int)
    requires
        0 <= j < s.len(),
    ensures
        sum_of_last(s, j + 1) == sum_of_last(s, j) + s[s.len() - 1 - j],
    decreases s.len(),
{
    if j > 0 {
        lemma_sum_of_last_step(s.drop_last(), j - 1);
        assert(s.drop_last()[s.len() - 1 - j] == s[s.len() - 1 - j]);
        assert(sum_of_last(s, j + 1) == s.last() + sum_of_last(s.drop_last(), j));
        assert(sum_of_last(s, j) == s.last() + sum_of_last(s.drop_last(), j - 1));
    } else {
        assert(sum_of_last(s.drop_last(), 0) == 0);
        assert(sum_of_last(s, 1) == s.last() + sum_of_last(s.drop_last(), 0));
        assert(sum_of_last(s, 0) == 0);
    }
}

/// Asking for more trailing elements than the series holds sums the whole
/// series.
proof fn lemma_sum_of_last_saturates(s: Seq<i64>, k: int)
    requires
        k >= s.len(),
    ensures
        sum_of_last(s, k) == sum_of_last(s, s.len() as int),
    decreases s.len(),
{
    if s.len() > 0 {
        lemma_sum_of_last_saturates(s.drop_last(), k - 1);
        lemma_sum_of_last_saturates(s.drop_last(), s.len() - 1);
    }
}

/// A nonempty trailing sum of nonnegative elements is nonnegative and at
/// most `k` times the largest element bound.
proof fn lemma_sum_of_last_bounds(s: Seq<i64>, k: int)
    requires
        forall|i: int| 0 <= i < s.len() ==> 0 <= #[trigger] s[i] <= PRICE_LIMIT,
        0 <= k,
    ensures
        0 <= sum_of_last(s, k) <= k * PRICE_LIMIT,
    decreases s.len(),
{
    if k <= 0 || s.len() == 0 {
    } else {
        lemma_sum_of_last_bounds(s.drop_last(), k - 1);
    }
}

impl MovingAverageCrossover {
    /// Creates a crossover strategy from the two window sizes.
    pub fn new(short_window: usize, long_window: usize) -> (strategy: Self)
        ensures
            strategy.short_window == short_window,
            strategy.long_window == long_window,
    {
        MovingAverageCrossover { short_window, long_window }
    }

    /// The moving average of the last `window_size` values of `data`: their
    /// sum divided by `window_size`, rounded down.  When `data` is shorter
    /// than the window, the available values are summed, still divided by
    /// `window_size`.
    pub fn moving_average(data: &Vec<i64>, window_size: usize) -> (ma: i64)
        requires
            0 < window_size <= MAX_WINDOW,
            forall|i: int| 0 <= i < data@.len() ==> 0 <= #[trigger] data@[i] <= PRICE_LIMIT,
        ensures
            ma == sum_of_last(data@, window_size as int) / (window_size as int),
    {
        let len = data.len();
        let count = if window_size < len {
            window_size
        } else {
            len
        };
        let mut sum: i64 = 0;
        let mut j: usize = 0;
        while j < count
            invariant
                j <= count,
                count == if window_size < len { window_size as int } else { len as int },
                len == data@.len(),
                0 < window_size <= MAX_WINDOW,
                forall|i: int| 0 <= i < data@.len() ==> 0 <= #[trigger] data@[i] <= PRICE_LIMIT,
                sum == sum_of_last(data@, j as int),
                0 <= sum <= j * PRICE_LIMIT,
            decreases count - j,
        {
            proof {
                lemma_sum_of_last_step(data@, j as int);
            }
            sum = sum + data[len - 1 - j];
            j = j + 1;
        }
        proof {
            if count < window_size {
                lemma_sum_of_last_saturates(data@, window_size as int);
            }
            lemma_sum_of_last_bounds(data@, count as int);
        }
        let quotient: u64 = (sum as u64) / (window_size as u64);
        proof {
            assert(quotient <= sum as u64) by (nonlinear_arith)
                requires
                    quotient == (sum as u64) / (window_size as u64),
                    window_size >= 1,
            ;
        }
        quotient as i64
    }
}

} // verus!
