//! Allocations: how a participant splits the virtual capital over assets.

use vstd::prelude::*;
use crate::error::{AppError, ErrorKind, outcome};
use crate::money::{from_decimal_parts, lemma_same_value_unique, same_value};

verus! {

/// One share of the capital: an asset and its percentage, in hundredths of
/// a percent (6000 is 60%).
#[derive(Clone, Copy, Debug, PartialEq, Eq)]
pub struct Allocation {
    pub asset: u128,
    pub percentage: u32,
}

/// The whole capital, 100%, in hundredths of a percent.
pub const FULL_ALLOCATION: u32 = 10_000;

/// Text sent when the percentages do not add up.
pub open spec fn text_bad_sum() -> Seq<char> {
    "Allocation percentages must sum to 100"@
}

/// The sum of the percentages of an allocation set.
pub open spec fn allocation_sum(a: Seq<Allocation>) -> int
    decreases a.len(),
{
    if a.len() == 0 {
        0
    } else {
        allocation_sum(a.drop_last()) + a.last().percentage
    }
}

/// Whether an allocation set may be locked: its percentages sum to exactly
/// 100%, with no tolerance.
pub open spec fn is_complete(a: Seq<Allocation>) -> bool {
    allocation_sum(a) == FULL_ALLOCATION
}

/// The percentage that the decimal number `mantissa / 10^scale` writes, in
/// hundredths of a percent; `None` where the number is negative, has a
/// digit beyond the hundredths or is too large.
pub fn percentage_from_decimal(mantissa: i128, scale: u32) -> (r: Option<u32>)
    ensures
        match r {
            Some(p) => same_value(p as int, mantissa as int, scale as nat),
            None => forall|p: u32| !same_value(p as int, mantissa as int, scale as nat),
        },
{
    match from_decimal_parts(mantissa, scale) {
        Some(a) => {
            if a < 0 || a > u32::MAX as i64 {
                proof {
                    assert forall|p: u32| !same_value(
                        p as int,
                        mantissa as int,
                        scale as nat,
                    ) by {
                        if same_value(p as int, mantissa as int, scale as nat) {
                            lemma_same_value_unique(
                                p as int,
                                a as int,
                                mantissa as int,
                                scale as nat,
                            );
                        }
                    }
                }
                None
            } else {
                Some(a as u32)
            }
        },
        None => {
            None
        },
    }
}

/// The sum of the percentages of `allocations`.
pub fn total_percentage(allocations: &Vec<Allocation>) -> (total: u128)
    ensures
        total == allocation_sum(allocations@),
{
    let mut total: u128 = 0;
    let mut i: usize = 0;
    while i < allocations.len()
        invariant
            i <= allocations@.len(),
            total == allocation_sum(allocations@.take(i as int)),
            total <= i * 0x1_0000_0000,
        decreases allocations@.len() - i,
    {
        proof {
            assert(allocations@.take(i + 1).drop_last() =~= allocations@.take(i as int));
        }
        total = total + allocations[i].percentage as u128;
        i += 1;
    }
    proof {
        assert(allocations@.take(i as int) =~= allocations@);
    }
    total
}

/// Accepts an allocation set whose percentages sum to exactly 100%, and
/// refuses every other with `Validation`.
pub fn validate_allocations(allocations: &Vec<Allocation>) -> (res: Result<(), AppError>)
    ensures
        outcome(res) == if is_complete(allocations@) {
            Ok::<(), ErrorKind>(())
        } else {
            Err(ErrorKind::Validation)
        },
        res matches Err(e) ==> e.spec_message() == text_bad_sum(),
{
    if total_percentage(allocations) != FULL_ALLOCATION as u128 {
        return Err(AppError::Validation("Allocation percentages must sum to 100".to_owned()));
    }
    Ok(())
}

} // verus!
