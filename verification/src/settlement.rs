//! Settlement: the payout curve that splits the prize pool by rank.

use vstd::prelude::*;
use crate::error::{AppError, ErrorKind};

verus! {

/// The whole pool, in hundredths of a percent.
pub const FULL_POOL: u32 = 10_000;

/// The sum of the fractions of a curve.
pub open spec fn curve_sum(fractions: Seq<u32>) -> int
    decreases fractions.len(),
{
    if fractions.len() == 0 {
        0
    } else {
        curve_sum(fractions.drop_last()) + fractions.last()
    }
}

/// What a fraction of the pool amounts to, rounded down to a hundredth of
/// a coin.
pub open spec fn spec_share(pool: u64, fraction: u32) -> int {
    (pool * fraction) / 10_000
}

/// What a rank is paid from the pool: the share of its fraction where the
/// curve pays the rank, nothing where it does not.
pub open spec fn spec_payout(pool: u64, fractions: Seq<u32>, rank: u64) -> Option<u64> {
    if 1 <= rank <= fractions.len() {
        Some(spec_share(pool, fractions[rank - 1]) as u64)
    } else {
        None
    }
}

/// What the first `n` ranks of a curve are paid together.
pub open spec fn spec_total_paid(pool: u64, fractions: Seq<u32>, n: int) -> int
    decreases n,
{
    if n <= 0 {
        0
    } else {
        spec_total_paid(pool, fractions, n - 1) + spec_share(pool, fractions[n - 1])
    }
}

/// A payout curve: for each rank, counted from 1, the fraction of the pool
/// that it is paid, in hundredths of a percent. The fractions sum to at
/// most the whole pool.
#[derive(Debug)]
pub struct PayoutCurve {
    fractions: Vec<u32>,
}

impl View for PayoutCurve {
    type V = Seq<u32>;

    closed spec fn view(&self) -> Seq<u32> {
        self.fractions@
    }
}

/// No fraction of a curve exceeds the sum of the curve.
pub proof fn lemma_fraction_at_most_sum(fractions: Seq<u32>, i: int)
    requires
        0 <= i < fractions.len(),
    ensures
        fractions[i] <= curve_sum(fractions),
    decreases fractions.len(),
{
    lemma_sum_of_prefix(fractions, fractions.len() - 1);
    if i < fractions.len() - 1 {
        lemma_fraction_at_most_sum(fractions.drop_last(), i);
    }
}

/// The sum of a prefix of a curve is between zero and the sum of the curve.
pub proof fn lemma_sum_of_prefix(fractions: Seq<u32>, n: int)
    requires
        0 <= n <= fractions.len(),
    ensures
        0 <= curve_sum(fractions.take(n)) <= curve_sum(fractions),
    decreases fractions.len() - n,
{
    lemma_sum_nonnegative(fractions.take(n));
    if n < fractions.len() {
        lemma_sum_of_prefix(fractions, n + 1);
        assert(fractions.take(n + 1).drop_last() =~= fractions.take(n));
    } else {
        assert(fractions.take(n) =~= fractions);
    }
}

/// The sum of a curve is never negative.
proof fn lemma_sum_nonnegative(fractions: Seq<u32>)
    ensures
        curve_sum(fractions) >= 0,
    decreases fractions.len(),
{
    if fractions.len() > 0 {
        lemma_sum_nonnegative(fractions.drop_last());
    }
}

/// A curve never pays out more than the pool: what its first `n` ranks
/// are paid together is at most the pool.
pub proof fn lemma_total_paid_at_most_pool(pool: u64, fractions: Seq<u32>, n: int)
    requires
        curve_sum(fractions) <= FULL_POOL,
        0 <= n <= fractions.len(),
    ensures
        0 <= spec_total_paid(pool, fractions, n) <= pool,
{
    lemma_total_paid_scaled(pool, fractions, n);
    lemma_sum_of_prefix(fractions, n);
    let s = curve_sum(fractions.take(n));
    assert(pool * s <= pool * 10_000) by (nonlinear_arith)
        requires
            0 <= s <= 10_000,
            pool >= 0,
    ;
}

/// What the first `n` ranks are paid, times the whole, is at most the pool
/// times their fractions.
proof fn lemma_total_paid_scaled(pool: u64, fractions: Seq<u32>, n: int)
    requires
        0 <= n <= fractions.len(),
    ensures
        0 <= spec_total_paid(pool, fractions, n),
        10_000 * spec_total_paid(pool, fractions, n) <= pool * curve_sum(fractions.take(n)),
    decreases n,
{
    if n > 0 {
        lemma_total_paid_scaled(pool, fractions, n - 1);
        assert(fractions.take(n).drop_last() =~= fractions.take(n - 1));
        let a = curve_sum(fractions.take(n - 1));
        let f = fractions[n - 1];
        assert(pool * (a + f) == pool * a + pool * f) by (nonlinear_arith);
    }
}

impl PayoutCurve {
    /// The invariant of every curve: it sums to at most the whole pool.
    #[verifier::type_invariant]
    pub open spec fn within_pool(self) -> bool {
        curve_sum(self@) <= FULL_POOL
    }

    /// Makes a curve of the fractions, rank 1 first. Refused with
    /// `Validation` where they sum to more than the whole pool.
    pub fn new(fractions: Vec<u32>) -> (res: Result<PayoutCurve, AppError>)
        ensures
            match res {
                Ok(c) => c@ == fractions@ && curve_sum(fractions@) <= FULL_POOL,
                Err(e) => e.spec_kind() == ErrorKind::Validation && curve_sum(fractions@)
                    > FULL_POOL,
            },
    {
        let mut total: u64 = 0;
        let mut i: usize = 0;
        let n = fractions.len();
        while i < n
            invariant
                n == fractions@.len(),
                i <= n,
                total == curve_sum(fractions@.take(i as int)),
                total <= FULL_POOL,
            decreases n - i,
        {
            proof {
                assert(fractions@.take(i + 1).drop_last() =~= fractions@.take(i as int));
                lemma_sum_of_prefix(fractions@, i + 1);
            }
            total = total + fractions[i] as u64;
            if total > FULL_POOL as u64 {
                return Err(
                    AppError::Validation("Payout fractions must not exceed the pool".to_owned()),
                );
            }
            i += 1;
        }
        proof {
            assert(fractions@.take(n as int) =~= fractions@);
        }
        Ok(PayoutCurve { fractions })
    }

    /// The number of ranks that the curve pays. Every curve sums to at
    /// most the whole pool.
    pub fn paid_ranks(&self) -> (n: usize)
        ensures
            n == self@.len(),
            curve_sum(self@) <= FULL_POOL,
    {
        proof {
            use_type_invariant(self);
        }
        self.fractions.len()
    }

    /// What `rank` is paid from `pool`; `None` for a rank that the curve
    /// does not pay. No payout exceeds the pool.
    pub fn payout(&self, pool: u64, rank: u64) -> (p: Option<u64>)
        ensures
            p == spec_payout(pool, self@, rank),
            p matches Some(v) ==> v <= pool,
    {
        proof {
            use_type_invariant(self);
        }
        if rank == 0 || rank > self.fractions.len() as u64 {
            return None;
        }
        let f = self.fractions[(rank - 1) as usize];
        proof {
            lemma_fraction_at_most_sum(self.fractions@, rank - 1);
            assert(pool * f <= pool * 10_000) by (nonlinear_arith)
                requires
                    0 <= f <= 10_000,
                    pool >= 0,
            ;
        }
        let share = (pool as u128 * f as u128) / 10_000;
        Some(share as u64)
    }
}

} // verus!
