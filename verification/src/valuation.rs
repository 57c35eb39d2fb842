//! Valuation: what a locked portfolio is worth against the price store.

use vstd::prelude::*;
use crate::allocation::Allocation;
use crate::error::{AppError, ErrorKind};
use crate::market::{CandleKey, PriceCandle, PriceStore, spec_price_at};

verus! {

/// The worth of one share of the capital: the capital times the share,
/// times the current price over the entry price, rounded down to a
/// hundredth of a coin. `None` where the capital is negative, a price is
/// not positive, or the product exceeds 128 bits.
pub open spec fn spec_position_value(capital: i64, percentage: u32, entry: i64, current: i64)
    -> Option<int> {
    if capital < 0 || entry <= 0 || current <= 0 {
        None
    } else if capital * percentage * current > u128::MAX {
        None
    } else {
        Some((capital * percentage * current) / (10_000 * entry))
    }
}

/// The worth of one share of the capital.
pub fn position_value(capital: i64, percentage: u32, entry: i64, current: i64) -> (v: Option<
    u128,
>)
    ensures
        match v {
            Some(x) => spec_position_value(capital, percentage, entry, current) == Some(x as int),
            None => spec_position_value(capital, percentage, entry, current) is None,
        },
{
    if capital < 0 || entry <= 0 || current <= 0 {
        return None;
    }
    let c = capital as u128;
    let p = percentage as u128;
    assert(c * p <= 0x8000_0000_0000_0000 * 0x1_0000_0000) by (nonlinear_arith)
        requires
            0 <= c <= 0x8000_0000_0000_0000,
            0 <= p <= 0x1_0000_0000,
    ;
    let share = c * p;
    let numerator = match share.checked_mul(current as u128) {
        Some(n) => n,
        None => { return None; },
    };
    let denominator = 10_000 * (entry as u128);
    Some(numerator / denominator)
}

/// The worth of a portfolio at `at`: the sum of the worths of its shares,
/// each priced at the latest close at or before `at` against the latest
/// close at or before the lock. `None` where a price is missing, a share
/// has no worth, or a partial sum exceeds the range of amounts.
pub open spec fn spec_portfolio_value(
    capital: i64,
    allocations: Seq<Allocation>,
    prices: Map<CandleKey, PriceCandle>,
    locked_at: i64,
    at: i64,
) -> Option<i64>
    decreases allocations.len(),
{
    if allocations.len() == 0 {
        Some(0i64)
    } else {
        let a = allocations.last();
        match (
            spec_portfolio_value(capital, allocations.drop_last(), prices, locked_at, at),
            spec_price_at(prices, a.asset, locked_at),
            spec_price_at(prices, a.asset, at),
        ) {
            (Some(sum), Some(entry), Some(current)) => match spec_position_value(
                capital,
                a.percentage,
                entry,
                current,
            ) {
                Some(v) => if sum + v <= i64::MAX {
                    Some((sum + v) as i64)
                } else {
                    None
                },
                None => None,
            },
            _ => None,
        }
    }
}

/// A portfolio without worth at some length has none at any greater one.
proof fn lemma_none_stays(
    capital: i64,
    allocations: Seq<Allocation>,
    prices: Map<CandleKey, PriceCandle>,
    locked_at: i64,
    at: i64,
    i: int,
    j: int,
)
    requires
        0 <= i <= j <= allocations.len(),
        spec_portfolio_value(capital, allocations.take(i), prices, locked_at, at) is None,
    ensures
        spec_portfolio_value(capital, allocations.take(j), prices, locked_at, at) is None,
    decreases j - i,
{
    if i < j {
        lemma_none_stays(capital, allocations, prices, locked_at, at, i, j - 1);
        assert(allocations.take(j).drop_last() =~= allocations.take(j - 1));
    }
}

/// The worth of no share is never negative.
pub proof fn lemma_value_nonnegative(
    capital: i64,
    allocations: Seq<Allocation>,
    prices: Map<CandleKey, PriceCandle>,
    locked_at: i64,
    at: i64,
)
    ensures
        spec_portfolio_value(capital, allocations, prices, locked_at, at) matches Some(v) ==> v
            >= 0,
    decreases allocations.len(),
{
    if allocations.len() > 0 {
        let a = allocations.last();
        lemma_value_nonnegative(capital, allocations.drop_last(), prices, locked_at, at);
        match (spec_price_at(prices, a.asset, locked_at), spec_price_at(prices, a.asset, at)) {
            (Some(entry), Some(current)) => {
                if capital >= 0 && entry > 0 && current > 0 {
                    assert(capital * a.percentage * current >= 0) by (nonlinear_arith)
                        requires
                            capital >= 0,
                            a.percentage >= 0,
                            current > 0,
                    ;
                    assert((capital * a.percentage * current) / (10_000 * entry) >= 0)
                        by (nonlinear_arith)
                        requires
                            capital * a.percentage * current >= 0,
                            entry > 0,
                    ;
                }
            },
            _ => {},
        }
    }
}

/// Values a portfolio of `capital` split by `allocations` and locked at
/// `locked_at`, as of `at`. Fails with `Internal` exactly where the worth
/// is undefined: price data is missing, not made up.
pub fn portfolio_value(
    capital: i64,
    allocations: &Vec<Allocation>,
    prices: &PriceStore,
    locked_at: i64,
    at: i64,
) -> (res: Result<i64, AppError>)
    requires
        prices.wf(),
    ensures
        match res {
            Ok(v) => spec_portfolio_value(capital, allocations@, prices@, locked_at, at) == Some(
                v,
            ),
            Err(e) => e.spec_kind() == ErrorKind::Internal && spec_portfolio_value(
                capital,
                allocations@,
                prices@,
                locked_at,
                at,
            ) is None,
        },
{
    let mut total: i64 = 0;
    let mut i: usize = 0;
    let n = allocations.len();
    while i < n
        invariant
            prices.wf(),
            n == allocations@.len(),
            i <= n,
            total >= 0,
            spec_portfolio_value(capital, allocations@.take(i as int), prices@, locked_at, at)
                == Some(total),
        decreases n - i,
    {
        let a = allocations[i];
        proof {
            assert(allocations@.take(i + 1).drop_last() =~= allocations@.take(i as int));
            assert(allocations@.take(n as int) =~= allocations@);
            if spec_portfolio_value(capital, allocations@.take(i + 1), prices@, locked_at, at)
                is None {
                lemma_none_stays(
                    capital,
                    allocations@,
                    prices@,
                    locked_at,
                    at,
                    i + 1,
                    n as int,
                );
            }
        }
        let entry = match prices.price_at(a.asset, locked_at) {
            Some(p) => p,
            None => { return Err(AppError::Internal); },
        };
        let current = match prices.price_at(a.asset, at) {
            Some(p) => p,
            None => { return Err(AppError::Internal); },
        };
        let v = match position_value(capital, a.percentage, entry, current) {
            Some(v) => v,
            None => { return Err(AppError::Internal); },
        };
        if v > (i64::MAX - total) as u128 {
            return Err(AppError::Internal);
        }
        total = total + v as i64;
        i += 1;
    }
    proof {
        assert(allocations@.take(n as int) =~= allocations@);
    }
    Ok(total)
}

} // verus!
